//! Keeping the beginning of a stream up to a limit.

use vstd::prelude::*;

verus! {

/// The captured beginning of a stream, and whether it falls short of the stream.
///
/// Incomplete means that the captured bytes cannot prove the full contents: bytes were dropped,
/// the declared size is beyond the limit, or the stream was left open.
#[derive(Debug)]
pub struct CaptureBuffer {
    bytes: Vec<u8>,
    incomplete: bool,
}

/// What a [`CaptureBuffer`] holds.
pub struct CaptureView {
    pub bytes: Seq<u8>,
    pub incomplete: bool,
}

impl View for CaptureBuffer {
    type V = CaptureView;

    closed spec fn view(&self) -> CaptureView {
        CaptureView { bytes: self.bytes@, incomplete: self.incomplete }
    }
}

impl CaptureView {
    /// Nothing captured, nothing missed.
    pub open spec fn empty() -> CaptureView {
        CaptureView { bytes: Seq::empty(), incomplete: false }
    }

    /// The capture after `chunk` has arrived: as much of it is kept as the limit leaves room for,
    /// and the capture is incomplete once any of it is dropped.
    pub open spec fn append(self, chunk: Seq<u8>, limit: int) -> CaptureView {
        let room = if self.bytes.len() < limit {
            limit - self.bytes.len()
        } else {
            0
        };
        if chunk.len() <= room {
            CaptureView { bytes: self.bytes + chunk, incomplete: self.incomplete }
        } else {
            CaptureView { bytes: self.bytes + chunk.take(room), incomplete: true }
        }
    }

    /// The capture after all the chunks have arrived one after the other.
    pub open spec fn append_all(self, chunks: Seq<Seq<u8>>, limit: int) -> CaptureView
        decreases chunks.len(),
    {
        if chunks.len() == 0 {
            self
        } else {
            self.append_all(chunks.drop_last(), limit).append(chunks.last(), limit)
        }
    }
}

/// The chunks joined in order.
pub open spec fn joined(chunks: Seq<Seq<u8>>) -> Seq<u8>
    decreases chunks.len(),
{
    if chunks.len() == 0 {
        Seq::empty()
    } else {
        joined(chunks.drop_last()) + chunks.last()
    }
}

/// Two chunks that arrive one after the other are captured as one chunk that joins them.
pub proof fn lemma_append_joins(v: CaptureView, a: Seq<u8>, b: Seq<u8>, limit: int)
    ensures
        v.append(a, limit).append(b, limit) == v.append(a + b, limit),
{
    let once = v.append(a + b, limit);
    let twice = v.append(a, limit).append(b, limit);
    assert(twice.bytes =~= once.bytes);
    assert(twice.incomplete == once.incomplete);
}

/// However a stream is cut into chunks, the capture is its first `limit` bytes, and is complete
/// exactly when the stream is no longer than that.
pub proof fn lemma_capture_is_prefix(chunks: Seq<Seq<u8>>, limit: nat)
    ensures
        CaptureView::empty().append_all(chunks, limit as int).bytes == if joined(chunks).len()
            <= limit {
            joined(chunks)
        } else {
            joined(chunks).take(limit as int)
        },
        CaptureView::empty().append_all(chunks, limit as int).incomplete <==> joined(chunks).len()
            > limit,
    decreases chunks.len(),
{
    if chunks.len() > 0 {
        lemma_capture_is_prefix(chunks.drop_last(), limit);
        let before = CaptureView::empty().append_all(chunks.drop_last(), limit as int);
        let v = before.append(chunks.last(), limit as int);
        if joined(chunks).len() <= limit {
            assert(v.bytes =~= joined(chunks));
        } else {
            assert(v.bytes =~= joined(chunks).take(limit as int));
        }
    }
}

impl Default for CaptureBuffer {
    fn default() -> (r: CaptureBuffer)
        ensures
            r@ == CaptureView::empty(),
    {
        CaptureBuffer { bytes: Vec::new(), incomplete: false }
    }
}

impl CaptureBuffer {
    /// Adds as much of `chunk` as the limit leaves room for, and gives the length before.
    pub fn append_limited(&mut self, chunk: &[u8], limit: usize) -> (previous_len: usize)
        ensures
            previous_len == old(self)@.bytes.len(),
            final(self)@ == old(self)@.append(chunk@, limit as int),
    {
        let previous_len: usize = self.bytes.len();
        if self.bytes.len() < limit {
            let remaining: usize = limit - self.bytes.len();
            let mut kept: usize = chunk.len();
            if chunk.len() > remaining {
                self.incomplete = true;
                kept = remaining;
            }
            let mut i: usize = 0;
            while i < kept
                invariant
                    i <= kept <= chunk@.len(),
                    self.bytes@ == old(self).bytes@ + chunk@.take(i as int),
                    self.incomplete == (old(self).incomplete || chunk@.len() > remaining),
                decreases kept - i,
            {
                self.bytes.push(chunk[i]);
                i = i + 1;
                assert(self.bytes@ =~= old(self).bytes@ + chunk@.take(i as int));
            }
            assert(chunk@.take(chunk@.len() as int) =~= chunk@);
        } else if chunk.len() > 0 {
            self.incomplete = true;
            assert(self@.bytes =~= old(self)@.bytes + chunk@.take(0));
        } else {
            assert(self@.bytes =~= old(self)@.bytes + chunk@);
        }
        previous_len
    }

    /// The captured bytes.
    pub fn bytes(&self) -> (r: &[u8])
        ensures
            r@ == self@.bytes,
    {
        self.bytes.as_slice()
    }

    /// How many bytes have been captured.
    pub fn len(&self) -> (r: usize)
        ensures
            r == self@.bytes.len(),
    {
        self.bytes.len()
    }

    /// Whether the captured bytes fall short of the stream.
    pub fn is_incomplete(&self) -> (r: bool)
        ensures
            r == self@.incomplete,
    {
        self.incomplete
    }

    /// Records that the captured bytes fall short of the stream.
    pub fn mark_incomplete(&mut self)
        ensures
            final(self)@ == (CaptureView { bytes: old(self)@.bytes, incomplete: true }),
    {
        self.incomplete = true;
    }
}

} // verus!
