//! Looking for byte strings in data that arrives piece by piece.

use vstd::prelude::*;
use vstd::string::StringSliceAdditionalSpecFns;

verus! {

/// Whether `needle` stands in `bytes` at index `i`.
pub open spec fn occurs_at(bytes: Seq<u8>, needle: Seq<u8>, i: int) -> bool {
    0 <= i && i + needle.len() <= bytes.len() && bytes.subrange(i, i + needle.len()) == needle
}

/// Whether `needle` stands anywhere in `bytes`.
pub open spec fn contains(bytes: Seq<u8>, needle: Seq<u8>) -> bool {
    exists|i: int| occurs_at(bytes, needle, i)
}

/// Nothing stands anywhere.
pub proof fn lemma_contains_empty(bytes: Seq<u8>, needle: Seq<u8>)
    requires
        needle.len() == 0,
    ensures
        contains(bytes, needle),
{
    assert(bytes.subrange(0, 0) =~= needle);
    assert(occurs_at(bytes, needle, 0));
}

/// What has been found stays found, whatever comes before or after it.
pub proof fn lemma_contains_grows(before: Seq<u8>, bytes: Seq<u8>, after: Seq<u8>, needle: Seq<u8>)
    requires
        contains(bytes, needle),
    ensures
        contains(before + bytes + after, needle),
{
    let i = choose|i: int| occurs_at(bytes, needle, i);
    let all = before + bytes + after;
    assert(all.subrange(before.len() + i, before.len() + i + needle.len()) =~= bytes.subrange(
        i,
        i + needle.len(),
    ));
    assert(occurs_at(all, needle, before.len() + i));
}

/// Data that has been searched up to `seen` holds the needle exactly when the searched part does
/// or the rest does, where the rest begins early enough for a match that lies across the border.
pub proof fn lemma_contains_across(bytes: Seq<u8>, needle: Seq<u8>, seen: int, start: int)
    requires
        0 <= start <= seen <= bytes.len(),
        start == 0 || start == seen - (needle.len() - 1),
    ensures
        contains(bytes, needle) <==> contains(bytes.take(seen), needle) || contains(
            bytes.skip(start),
            needle,
        ),
{
    let head = bytes.take(seen);
    let tail = bytes.skip(start);
    if contains(bytes, needle) {
        let i = choose|i: int| occurs_at(bytes, needle, i);
        if i + needle.len() <= seen {
            assert(head.subrange(i, i + needle.len()) =~= needle);
            assert(occurs_at(head, needle, i));
        } else {
            assert(tail.subrange(i - start, i - start + needle.len()) =~= needle);
            assert(occurs_at(tail, needle, i - start));
        }
    }
    if contains(head, needle) {
        lemma_contains_grows(Seq::empty(), head, bytes.skip(seen), needle);
        assert(Seq::<u8>::empty() + head + bytes.skip(seen) =~= bytes);
    }
    if contains(tail, needle) {
        lemma_contains_grows(bytes.take(start), tail, Seq::empty(), needle);
        assert(bytes.take(start) + tail + Seq::<u8>::empty() =~= bytes);
    }
}

/// The index of the first needle that is not found, or the number of needles.
pub open spec fn first_missing(bytes: Seq<u8>, needles: Seq<Seq<u8>>) -> int
    decreases needles.len(),
{
    if needles.len() == 0 || !contains(bytes, needles[0]) {
        0
    } else {
        1 + first_missing(bytes, needles.skip(1))
    }
}

/// The index of the first needle that is found, or the number of needles.
pub open spec fn first_found(bytes: Seq<u8>, needles: Seq<Seq<u8>>) -> int
    decreases needles.len(),
{
    if needles.len() == 0 || contains(bytes, needles[0]) {
        0
    } else {
        1 + first_found(bytes, needles.skip(1))
    }
}

/// `first_missing` gives the index of a missing needle with none before it.
pub proof fn lemma_first_missing(bytes: Seq<u8>, needles: Seq<Seq<u8>>, i: int)
    requires
        0 <= i <= needles.len(),
        forall|j: int| 0 <= j < i ==> contains(bytes, #[trigger] needles[j]),
        i < needles.len() ==> !contains(bytes, needles[i]),
    ensures
        first_missing(bytes, needles) == i,
    decreases needles.len(),
{
    if needles.len() > 0 && i > 0 {
        let t = needles.skip(1);
        assert(contains(bytes, needles[0]));
        assert forall|j: int| 0 <= j < i - 1 implies contains(bytes, #[trigger] t[j]) by {
            assert(t[j] == needles[j + 1]);
        }
        lemma_first_missing(bytes, t, i - 1);
    }
}

/// `first_found` gives the index of a found needle with none before it.
pub proof fn lemma_first_found(bytes: Seq<u8>, needles: Seq<Seq<u8>>, i: int)
    requires
        0 <= i <= needles.len(),
        forall|j: int| 0 <= j < i ==> !contains(bytes, #[trigger] needles[j]),
        i < needles.len() ==> contains(bytes, needles[i]),
    ensures
        first_found(bytes, needles) == i,
    decreases needles.len(),
{
    if needles.len() > 0 && i > 0 {
        let t = needles.skip(1);
        assert(!contains(bytes, needles[0]));
        assert forall|j: int| 0 <= j < i - 1 implies !contains(bytes, #[trigger] t[j]) by {
            assert(t[j] == needles[j + 1]);
        }
        lemma_first_found(bytes, t, i - 1);
    }
}

/// All needles before `first_missing` are found, and the one that it gives is not.
pub proof fn lemma_missing_range(bytes: Seq<u8>, needles: Seq<Seq<u8>>)
    ensures
        0 <= first_missing(bytes, needles) <= needles.len(),
        forall|j: int|
            0 <= j < first_missing(bytes, needles) ==> contains(
                bytes,
                #[trigger] needles[j],
            ),
        first_missing(bytes, needles) < needles.len() ==> !contains(
            bytes,
            needles[first_missing(bytes, needles)],
        ),
    decreases needles.len(),
{
    if needles.len() > 0 && contains(bytes, needles[0]) {
        let t = needles.skip(1);
        lemma_missing_range(bytes, t);
        assert forall|j: int| 0 <= j < first_missing(bytes, needles) implies contains(
            bytes,
            #[trigger] needles[j],
        ) by {
            if j > 0 {
                assert(needles[j] == t[j - 1]);
            }
        }
    }
}

/// No needle before `first_found` is found, and the one that it gives is.
pub proof fn lemma_found_range(bytes: Seq<u8>, needles: Seq<Seq<u8>>)
    ensures
        0 <= first_found(bytes, needles) <= needles.len(),
        forall|j: int|
            0 <= j < first_found(bytes, needles) ==> !contains(
                bytes,
                #[trigger] needles[j],
            ),
        first_found(bytes, needles) < needles.len() ==> contains(
            bytes,
            needles[first_found(bytes, needles)],
        ),
    decreases needles.len(),
{
    if needles.len() > 0 && !contains(bytes, needles[0]) {
        let t = needles.skip(1);
        lemma_found_range(bytes, t);
        assert forall|j: int| 0 <= j < first_found(bytes, needles) implies !contains(
            bytes,
            #[trigger] needles[j],
        ) by {
            if j > 0 {
                assert(needles[j] == t[j - 1]);
            }
        }
    }
}

/// How many entries are set.
pub open spec fn count_set(s: Seq<bool>) -> nat
    decreases s.len(),
{
    if s.len() == 0 {
        0
    } else {
        count_set(s.drop_last()) + if s.last() {
            1nat
        } else {
            0
        }
    }
}

proof fn lemma_count_set(s: Seq<bool>)
    ensures
        count_set(s) <= s.len(),
        count_set(s) == s.len() <==> forall|i: int| 0 <= i < s.len() ==> s[i],
        count_set(s) > 0 <==> exists|i: int| 0 <= i < s.len() && s[i],
    decreases s.len(),
{
    if s.len() > 0 {
        let t = s.drop_last();
        lemma_count_set(t);
        assert(forall|i: int| 0 <= i < t.len() ==> t[i] == s[i]);
        if count_set(s) > 0 && !s.last() {
            let i = choose|i: int| 0 <= i < t.len() && t[i];
            assert(s[i]);
        }
        if count_set(s) == s.len() {
            assert forall|i: int| 0 <= i < s.len() implies s[i] by {
                if i < t.len() {
                    assert(t[i]);
                }
            }
        }
        if forall|i: int| 0 <= i < s.len() ==> s[i] {
            assert(s[s.len() - 1]);
            assert(forall|i: int| 0 <= i < t.len() ==> t[i]);
        }
        if exists|i: int| 0 <= i < s.len() && s[i] {
            let i = choose|i: int| 0 <= i < s.len() && s[i];
            if i < t.len() {
                assert(t[i]);
            }
        }
    }
}

proof fn lemma_count_update(s: Seq<bool>, i: int)
    requires
        0 <= i < s.len(),
        !s[i],
    ensures
        count_set(s.update(i, true)) == count_set(s) + 1,
    decreases s.len(),
{
    let u = s.update(i, true);
    if i == s.len() - 1 {
        assert(u.drop_last() =~= s.drop_last());
    } else {
        assert(u.drop_last() =~= s.drop_last().update(i, true));
        lemma_count_update(s.drop_last(), i);
    }
}

/// Whether `needle` stands in `bytes`, and nothing is taken to stand anywhere.
pub fn contains_slice(bytes: &[u8], needle: &[u8]) -> (r: bool)
    ensures
        r == contains(bytes@, needle@),
{
    let n: usize = needle.len();
    if n > bytes.len() {
        return false;
    }
    assert(bytes@.len() <= usize::MAX);
    let last: usize = bytes.len() - n;
    let mut i: usize = 0;
    while i <= last
        invariant
            n == needle@.len(),
            last == bytes@.len() - n,
            bytes@.len() <= usize::MAX,
            i <= last + 1,
            forall|k: int| 0 <= k < i ==> !occurs_at(bytes@, needle@, k),
        decreases last + 1 - i,
    {
        let mut j: usize = 0;
        while j < n && bytes[i + j] == needle[j]
            invariant
                n == needle@.len(),
                last == bytes@.len() - n,
                bytes@.len() <= usize::MAX,
                i <= last,
                j <= n,
                forall|k: int| 0 <= k < j ==> bytes@[i + k] == needle@[k],
            decreases n - j,
        {
            j = j + 1;
        }
        if j == n {
            assert(bytes@.subrange(i as int, i + n) =~= needle@);
            assert(occurs_at(bytes@, needle@, i as int));
            return true;
        }
        assert(!occurs_at(bytes@, needle@, i as int)) by {
            assert(bytes@.subrange(i as int, i + n)[j as int] == bytes@[i + j]);
        }
        if i == last {
            return false;
        }
        i = i + 1;
    }
    false
}

/// Whether the UTF-8 bytes of `needle` stand in `bytes`.
pub fn contains_bytes(bytes: &[u8], needle: &str) -> (r: bool)
    ensures
        r == contains(bytes@, needle.spec_bytes()),
{
    contains_slice(bytes, needle.as_bytes())
}

/// The UTF-8 bytes of each text.
pub open spec fn utf8_needles(texts: Seq<String>) -> Seq<Seq<u8>> {
    Seq::new(texts.len(), |i: int| vstd::utf8::encode_utf8(texts[i]@))
}

/// Which of a list of byte strings have been found in data that grows at its end.
#[derive(Debug)]
pub struct TextMatcher {
    needles: Vec<Vec<u8>>,
    matched: Vec<bool>,
    matched_count: usize,
}

impl TextMatcher {
    /// The byte strings that are looked for.
    pub closed spec fn needles(&self) -> Seq<Seq<u8>> {
        Seq::new(self.needles@.len(), |i: int| self.needles@[i]@)
    }

    /// Which of them have been found.
    pub closed spec fn matched(&self) -> Seq<bool> {
        self.matched@
    }

    /// The counter agrees with the marks, and there is one mark for each byte string.
    pub closed spec fn wf(&self) -> bool {
        &&& self.matched@.len() == self.needles@.len()
        &&& self.matched_count == count_set(self.matched@)
    }

    /// Whether the marks are right for the data `bytes`.
    pub open spec fn tracks(&self, bytes: Seq<u8>) -> bool {
        forall|i: int|
            0 <= i < self.needles().len() ==> (#[trigger] self.matched()[i] <==> contains(
                bytes,
                self.needles()[i],
            ))
    }

    /// Marks that are right for the data tell whether all and whether any of the byte strings
    /// occur in it.
    pub proof fn lemma_marks(&self, bytes: Seq<u8>)
        requires
            self.matched().len() == self.needles().len(),
            self.tracks(bytes),
        ensures
            (forall|i: int| 0 <= i < self.matched().len() ==> self.matched()[i]) <==> (forall|i: int|
                0 <= i < self.needles().len() ==> contains(bytes, #[trigger] self.needles()[i])),
            (exists|i: int| 0 <= i < self.matched().len() && self.matched()[i]) <==> (exists|i: int|
                0 <= i < self.needles().len() && contains(bytes, #[trigger] self.needles()[i])),
    {
        assert forall|i: int| 0 <= i < self.needles().len() implies contains(
            bytes,
            #[trigger] self.needles()[i],
        ) == self.matched()[i] by {}
    }

    /// Looks for the UTF-8 bytes of each text, with no data seen so far.
    pub fn new(needles: &[String]) -> (r: TextMatcher)
        ensures
            r.wf(),
            r.needles() == utf8_needles(needles@),
            r.matched().len() == needles@.len(),
            forall|i: int|
                0 <= i < needles@.len() ==> (#[trigger] r.matched()[i] <==> needles@[i]@.len() == 0),
            r.tracks(Seq::empty()),
    {
        let mut found: Vec<Vec<u8>> = Vec::new();
        let mut matched: Vec<bool> = Vec::new();
        let mut matched_count: usize = 0;
        let mut i: usize = 0;
        while i < needles.len()
            invariant
                i <= needles@.len(),
                found@.len() == i,
                matched@.len() == i,
                matched_count == count_set(matched@),
                matched_count <= i,
                forall|k: int|
                    0 <= k < i ==> #[trigger] found@[k]@ == vstd::utf8::encode_utf8(needles@[k]@),
                forall|k: int| 0 <= k < i ==> #[trigger] matched@[k] == (needles@[k]@.len() == 0),
            decreases needles.len() - i,
        {
            let needle = needles[i].as_str();
            let empty = needle.is_empty();
            found.push(needle.as_bytes_vec());
            let ghost before = matched@;
            matched.push(empty);
            assert(matched@.drop_last() =~= before);
            if empty {
                matched_count = matched_count + 1;
            }
            i = i + 1;
        }
        let r = TextMatcher { needles: found, matched, matched_count };
        proof {
            assert(r.needles() =~= utf8_needles(needles@));
            assert forall|k: int| 0 <= k < r.needles().len() implies (#[trigger] r.matched()[k]
                <==> contains(Seq::empty(), r.needles()[k])) by {
                let text = needles@[k]@;
                if text.len() == 0 {
                    assert(r.needles()[k].len() == 0);
                    lemma_contains_empty(Seq::empty(), r.needles()[k]);
                } else {
                    vstd::utf8::encode_utf8_decode_utf8(text);
                    assert(r.needles()[k].len() > 0) by {
                        if r.needles()[k].len() == 0 {
                            assert(vstd::utf8::decode_utf8(r.needles()[k]).len() == 0);
                        }
                    }
                }
            }
        }
        r
    }

    /// Looks at data that has grown at its end since it was `previous_len` bytes long.
    ///
    /// A byte string that has not been found yet is searched for from just before the new part,
    /// so that a match across the border is seen. If the marks were right for the first
    /// `previous_len` bytes, then they are right for all of them.
    pub fn observe_appended(&mut self, haystack: &[u8], previous_len: usize)
        requires
            old(self).wf(),
        ensures
            final(self).wf(),
            final(self).needles() == old(self).needles(),
            final(self).matched().len() == old(self).matched().len(),
            forall|i: int|
                0 <= i < old(self).matched().len() ==> (#[trigger] final(self).matched()[i] <==> {
                    ||| old(self).matched()[i]
                    ||| contains(
                        haystack@.skip(
                            search_start(
                                old(self).needles()[i],
                                haystack@.len() as int,
                                previous_len as int,
                            ),
                        ),
                        old(self).needles()[i],
                    )
                }),
            previous_len <= haystack@.len() && old(self).tracks(haystack@.take(previous_len as int))
                ==> final(self).tracks(haystack@),
    {
        let seen: usize = if previous_len < haystack.len() {
            previous_len
        } else {
            haystack.len()
        };
        proof {
            lemma_count_set(self.matched@);
        }
        let mut i: usize = 0;
        while i < self.needles.len()
            invariant
                i <= self.needles@.len(),
                self.wf(),
                self.needles@ == old(self).needles@,
                seen <= haystack@.len(),
                seen == if previous_len < haystack@.len() {
                    previous_len as int
                } else {
                    haystack@.len() as int
                },
                self.matched@.len() == old(self).matched@.len(),
                self.matched_count <= self.matched@.len(),
                forall|k: int|
                    i <= k < self.matched@.len() ==> #[trigger] self.matched@[k]
                        == old(self).matched@[k],
                forall|k: int|
                    0 <= k < i ==> (#[trigger] self.matched@[k] <==> {
                        ||| old(self).matched@[k]
                        ||| contains(
                            haystack@.skip(
                                search_start(
                                    self.needles@[k]@,
                                    haystack@.len() as int,
                                    previous_len as int,
                                ),
                            ),
                            self.needles@[k]@,
                        )
                    }),
            decreases self.needles.len() - i,
        {
            if !self.matched[i] {
                let needle = self.needles[i].as_slice();
                let overlap: usize = needle.len().saturating_sub(1);
                let start: usize = seen.saturating_sub(overlap);
                let part = vstd::slice::slice_subrange(haystack, start, haystack.len());
                assert(part@ =~= haystack@.skip(start as int));
                if contains_slice(part, needle) {
                    proof {
                        lemma_count_update(self.matched@, i as int);
                        lemma_count_set(self.matched@.update(i as int, true));
                    }
                    self.matched.set(i, true);
                    self.matched_count = self.matched_count + 1;
                }
            }
            i = i + 1;
        }
        proof {
            assert(self.needles() =~= old(self).needles());
            if previous_len <= haystack@.len() && old(self).tracks(
                haystack@.take(previous_len as int),
            ) {
                assert forall|k: int| 0 <= k < self.needles().len() implies (
                #[trigger] self.matched()[k] <==> contains(haystack@, self.needles()[k])) by {
                    let needle = self.needles()[k];
                    assert(old(self).matched()[k] <==> contains(
                        haystack@.take(previous_len as int),
                        old(self).needles()[k],
                    ));
                    if needle.len() == 0 {
                        lemma_contains_empty(haystack@, needle);
                        lemma_contains_empty(haystack@.take(previous_len as int), needle);
                    } else {
                        lemma_contains_across(
                            haystack@,
                            needle,
                            previous_len as int,
                            search_start(needle, haystack@.len() as int, previous_len as int),
                        );
                    }
                }
            }
        }
    }

    /// How many byte strings are looked for.
    pub fn count(&self) -> (r: usize)
        ensures
            r == self.needles().len(),
    {
        self.needles.len()
    }

    /// Whether every byte string has been found.
    pub fn all_matched(&self) -> (r: bool)
        requires
            self.wf(),
        ensures
            r <==> forall|i: int| 0 <= i < self.matched().len() ==> self.matched()[i],
            self.matched().len() == self.needles().len(),
    {
        proof {
            lemma_count_set(self.matched@);
        }
        self.matched_count == self.needles.len()
    }

    /// Whether any byte string has been found.
    pub fn any_matched(&self) -> (r: bool)
        requires
            self.wf(),
        ensures
            r <==> exists|i: int| 0 <= i < self.matched().len() && self.matched()[i],
            self.matched().len() == self.needles().len(),
    {
        proof {
            lemma_count_set(self.matched@);
        }
        self.matched_count > 0
    }
}

/// Where the search for `needle` begins in data of `len` bytes whose first `previous_len` have
/// been searched.
pub open spec fn search_start(needle: Seq<u8>, len: int, previous_len: int) -> int {
    let seen = if previous_len < len {
        previous_len
    } else {
        len
    };
    if needle.len() <= 1 {
        seen
    } else if seen >= needle.len() - 1 {
        seen - (needle.len() - 1)
    } else {
        0
    }
}

} // verus!
