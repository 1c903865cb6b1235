//! The TCP probe: one of the addresses behind a name must accept a connection.

use crate::authority;
use crate::authority::{PortPolicy, RawFormat};
use crate::cli::TcpArgs;
use crate::error;
use crate::error::{AppError, ErrorView, Result};
use crate::probe::{ProbeOptions, ProbeReport};
use crate::timing::Span;
use crate::validation;
use vstd::prelude::*;

verus! {

/// The error of a TCP address.
pub open spec fn addr_fault(raw: Seq<char>) -> Option<ErrorView> {
    authority::authority_fault(
        raw,
        "TCP address"@,
        PortPolicy::Required,
        RawFormat::Display,
        authority::parsed_authority(raw),
    )
}

/// A TCP address must be a host with a port.
pub fn validate_tcp_addr(raw: &str) -> (r: Result<()>)
    ensures
        error::fault(r) == addr_fault(raw@),
{
    match authority::validate_authority(
        raw,
        "TCP address",
        PortPolicy::Required,
        RawFormat::Display,
    ) {
        Ok(_) => Ok(()),
        Err(e) => Err(e),
    }
}

/// The address of the probe must not be empty and must be a host with a port.
pub fn validate_tcp_args(args: &TcpArgs) -> (r: Result<()>)
    ensures
        error::fault(r) == error::first_fault(
            validation::non_empty_fault("--addr"@, args.addr@.len()),
            addr_fault(args.addr@),
        ),
{
    validation::validate_non_empty_str("--addr", args.addr.as_str())?;
    validate_tcp_addr(args.addr.as_str())
}

/// How many nanoseconds one attempt may take: an equal share of what is left, and at least a
/// millisecond. The number of attempts counts in 32 bits.
pub open spec fn attempt_nanos(remaining: nat, attempts_left: nat) -> nat {
    let share = (if attempts_left == 0 {
        1
    } else {
        attempts_left
    }) % 0x1_0000_0000;
    if share == 0 || remaining / share < 1_000_000 {
        1_000_000
    } else {
        remaining / share
    }
}

/// How long one attempt may take.
pub fn per_attempt_timeout(remaining: Span, attempts_left: usize) -> (r: Span)
    ensures
        r@ == attempt_nanos(remaining@, attempts_left as nat),
{
    let attempts: u64 = if attempts_left == 0 {
        1
    } else {
        attempts_left as u64
    };
    let share: u64 = attempts % 0x1_0000_0000;
    let nanos: u128 = remaining.as_nanos();
    if share == 0 {
        return Span::from_millis(1);
    }
    let part: u128 = nanos / share as u128;
    assert(part <= nanos) by (nonlinear_arith)
        requires
            part == nanos / share as u128,
            share > 0,
    ;
    if part < 1_000_000 {
        Span::from_millis(1)
    } else {
        Span::from_nanos(part)
    }
}

/// An attempt always gets at least a millisecond; a single one gets all that is left beyond that,
/// and no attempt gets more than that.
pub proof fn lemma_attempt_share(remaining: nat, attempts_left: nat)
    requires
        attempts_left < 0x1_0000_0000,
    ensures
        attempt_nanos(remaining, attempts_left) >= 1_000_000,
        remaining >= 1_000_000 ==> attempt_nanos(remaining, attempts_left) <= remaining,
        attempts_left <= 1 && remaining >= 1_000_000 ==> attempt_nanos(remaining, attempts_left)
            == remaining,
        attempts_left > 0 && remaining / attempts_left >= 1_000_000 ==> attempt_nanos(
            remaining,
            attempts_left,
        ) * attempts_left <= remaining,
{
    let share = if attempts_left == 0 {
        1nat
    } else {
        attempts_left
    };
    assert(remaining / share <= remaining) by (nonlinear_arith)
        requires
            share > 0,
    ;
    if share == 1 {
        assert(remaining / share == remaining) by (nonlinear_arith)
            requires
                share == 1,
        ;
    }
    assert((remaining / share) * share <= remaining) by (nonlinear_arith)
        requires
            share > 0,
    ;
}

/// The attempts to connect to the addresses behind a name, one after the other.
#[derive(Debug)]
pub struct Attempts {
    count: usize,
    index: usize,
    last_error: Option<String>,
    connected: bool,
}

/// How far the attempts have come.
pub struct AttemptsView {
    /// How many addresses there are.
    pub count: nat,
    /// How many of them have been tried.
    pub index: nat,
    /// Why the last one that failed did.
    pub last_error: Option<Seq<char>>,
    /// Whether one of them accepted a connection.
    pub connected: bool,
}

impl AttemptsView {
    /// No attempt has been made.
    pub open spec fn start(count: nat) -> AttemptsView {
        AttemptsView { count, index: 0, last_error: None, connected: false }
    }

    /// Whether there is a reason to try the next address, and one to try.
    pub open spec fn goes_on(self) -> bool {
        !self.connected && self.index < self.count
    }
}

/// How an attempt ends.
pub enum Outcome {
    Connected,
    Failed(Seq<char>),
}

/// How far the attempts have come after one more.
pub open spec fn after_attempt(view: AttemptsView, outcome: Outcome) -> AttemptsView {
    match outcome {
        Outcome::Connected => AttemptsView { index: view.index + 1, connected: true, ..view },
        Outcome::Failed(reason) => AttemptsView {
            index: view.index + 1,
            last_error: Some(reason),
            ..view
        },
    }
}

/// How far the attempts have come after these.
pub open spec fn after_attempts(count: nat, outcomes: Seq<Outcome>) -> AttemptsView
    decreases outcomes.len(),
{
    if outcomes.len() == 0 {
        AttemptsView::start(count)
    } else {
        after_attempt(after_attempts(count, outcomes.drop_last()), outcomes.last())
    }
}

/// Whether each of these attempts was made where the ones before it left a reason to.
pub open spec fn is_run(count: nat, outcomes: Seq<Outcome>) -> bool {
    forall|i: int|
        0 <= i < outcomes.len() ==> (#[trigger] after_attempts(count, outcomes.take(i))).goes_on()
}

/// The error of the attempts once no more are made: none exactly when an address accepted a
/// connection.
pub open spec fn attempts_fault(view: AttemptsView, addr: Seq<char>) -> Option<ErrorView> {
    if view.connected {
        None
    } else {
        error::failure_fault(
            match view.last_error {
                Some(reason) => "failed to connect to "@ + addr + ": "@ + reason,
                None => "timed out connecting to "@ + addr,
            },
        )
    }
}

/// The target is healthy exactly when some address accepts a connection, and no address is tried
/// after that one. The addresses are tried in their order, each at most once, and a failure names
/// the reason of the last attempt.
pub proof fn lemma_healthy_when_connected(count: nat, outcomes: Seq<Outcome>, addr: Seq<char>)
    requires
        is_run(count, outcomes),
    ensures
        ({
            let view = after_attempts(count, outcomes);
            &&& attempts_fault(view, addr) is None <==> exists|i: int|
                0 <= i < outcomes.len() && #[trigger] outcomes[i] is Connected
            &&& forall|i: int|
                0 <= i < outcomes.len() - 1 ==> !(#[trigger] outcomes[i] is Connected)
            &&& view.connected ==> !view.goes_on()
            &&& view.count == count
            &&& view.index == outcomes.len() <= count
            &&& !view.connected && outcomes.len() > 0 ==> view.last_error == Some(
                outcomes.last()->Failed_0,
            )
        }),
    decreases outcomes.len(),
{
    if outcomes.len() > 0 {
        let before = outcomes.drop_last();
        let k = before.len() as int;
        assert(outcomes.take(k) =~= before);
        assert(after_attempts(count, outcomes.take(k)).goes_on());
        assert forall|i: int| 0 <= i < before.len() implies (#[trigger] after_attempts(
            count,
            before.take(i),
        )).goes_on() by {
            assert(before.take(i) =~= outcomes.take(i));
            assert(after_attempts(count, outcomes.take(i)).goes_on());
        }
        lemma_healthy_when_connected(count, before, addr);
        assert forall|i: int| 0 <= i < k implies !(#[trigger] outcomes[i] is Connected) by {
            assert(before[i] == outcomes[i]);
        }
        if outcomes.last() is Connected {
            assert(outcomes[k] is Connected);
        }
    }
}

impl View for Attempts {
    type V = AttemptsView;

    closed spec fn view(&self) -> AttemptsView {
        AttemptsView {
            count: self.count as nat,
            index: self.index as nat,
            last_error: match self.last_error {
                Some(reason) => Some(reason@),
                None => None,
            },
            connected: self.connected,
        }
    }
}

impl Attempts {
    /// No more addresses have been tried than there are.
    pub closed spec fn wf(&self) -> bool {
        self.index <= self.count
    }

    /// No attempt has been made; there must be an address to try.
    pub fn new(addr: &str, count: usize) -> (r: Result<Attempts>)
        ensures
            error::fault(r) == if count == 0 {
                error::failure_fault("no TCP addresses resolved for "@ + addr@)
            } else {
                None
            },
            r matches Ok(attempts) ==> attempts.wf() && attempts@ == AttemptsView::start(count as nat),
    {
        if count == 0 {
            let mut message = "no TCP addresses resolved for ".to_owned();
            message.append(addr);
            return Err(AppError::failure(message));
        }
        Ok(Attempts { count, index: 0, last_error: None, connected: false })
    }

    /// The index of the next address to try and how long that may take; nothing once one has
    /// accepted a connection, all have been tried or no time is left.
    pub fn next(&self, remaining: Span) -> (r: Option<(usize, Span)>)
        requires
            self.wf(),
        ensures
            r is Some <==> self@.goes_on() && remaining@ > 0,
            r matches Some((index, timeout)) ==> index == self@.index && timeout@ == attempt_nanos(
                remaining@,
                (self@.count - self@.index) as nat,
            ),
    {
        if self.connected || self.index >= self.count || remaining.is_zero() {
            return None;
        }
        Some((self.index, per_attempt_timeout(remaining, self.count - self.index)))
    }

    /// The address accepted the connection.
    pub fn connected(&mut self)
        requires
            old(self).wf(),
            old(self)@.goes_on(),
        ensures
            final(self).wf(),
            final(self)@ == after_attempt(old(self)@, Outcome::Connected),
            !final(self)@.goes_on(),
    {
        self.index = self.index + 1;
        self.connected = true;
    }

    /// The attempt failed.
    pub fn failed(&mut self, reason: String)
        requires
            old(self).wf(),
            old(self)@.goes_on(),
        ensures
            final(self).wf(),
            final(self)@ == after_attempt(old(self)@, Outcome::Failed(reason@)),
    {
        self.index = self.index + 1;
        self.last_error = Some(reason);
    }

    /// The attempt took too long.
    pub fn timed_out(&mut self, address: &str)
        requires
            old(self).wf(),
            old(self)@.goes_on(),
        ensures
            final(self).wf(),
            final(self)@ == after_attempt(
                old(self)@,
                Outcome::Failed("connection to "@ + address@ + " timed out"@),
            ),
    {
        let mut reason = "connection to ".to_owned();
        reason.append(address);
        reason.append(" timed out");
        self.failed(reason);
    }

    /// The verdict once no more attempts are made.
    pub fn finish(&self, args: &TcpArgs, elapsed: Span, options: ProbeOptions) -> (r: Result<
        ProbeReport,
    >)
        ensures
            error::fault(r) == attempts_fault(self@, args.addr@),
            r matches Ok(found) ==> is_report(found, *args, elapsed, options),
    {
        if self.connected {
            return Ok(report(args, elapsed, options));
        }
        let mut message = match &self.last_error {
            Some(_) => "failed to connect to ".to_owned(),
            None => "timed out connecting to ".to_owned(),
        };
        message.append(args.addr.as_str());
        if let Some(reason) = &self.last_error {
            message.append(": ");
            message.append(reason.as_str());
        }
        Err(AppError::failure(message))
    }
}

/// The error of a name that cannot be resolved: the configuration's fault where the address itself
/// is refused, else the target's.
pub fn resolve_error(addr: &str, invalid_input: bool, reason: &str) -> (r: AppError)
    ensures
        r@ == if invalid_input {
            ErrorView::InvalidConfig("invalid TCP address "@ + addr@ + ": "@ + reason@)
        } else {
            ErrorView::Failure("failed to resolve "@ + addr@ + ": "@ + reason@)
        },
{
    let mut message = if invalid_input {
        "invalid TCP address ".to_owned()
    } else {
        "failed to resolve ".to_owned()
    };
    message.append(addr);
    message.append(": ");
    message.append(reason);
    if invalid_input {
        AppError::invalid_config(message)
    } else {
        AppError::failure(message)
    }
}

/// Whether `report` tells of a target that accepts connections.
pub open spec fn is_report(
    report: ProbeReport,
    args: TcpArgs,
    elapsed: Span,
    options: ProbeOptions,
) -> bool {
    &&& report.mode@ == "tcp"@
    &&& report.target@ == args.addr@
    &&& report.detail matches Some(detail) && detail@ == "connected"@
    &&& report.elapsed == elapsed
    &&& report.options == options
}

/// A target that accepts connections.
pub fn report(args: &TcpArgs, elapsed: Span, options: ProbeOptions) -> (r: ProbeReport)
    ensures
        is_report(r, *args, elapsed, options),
{
    ProbeReport::new(
        "tcp",
        args.addr.clone(),
        Some("connected".to_owned()),
        elapsed,
        options,
    )
}

} // verus!
