//! Laws of the TCP connection.

use crate::authority;
use crate::authority::PortPolicy;
use crate::probes::tcp;
use crate::probes::tcp::Outcome;
use vstd::prelude::*;

verus! {

/// The time that is left is shared evenly among the addresses that are left, rounded down to a
/// nanosecond; but an address gets a millisecond at the least.
pub proof fn lemma_time_is_shared(remaining: nat, attempts_left: nat, share: nat)
    requires
        attempts_left < 0x1_0000_0000,
        share == tcp::attempt_nanos(remaining, attempts_left),
    ensures
        attempts_left > 0 && remaining >= attempts_left * 1_000_000 ==> share * attempts_left
            <= remaining && remaining < (share + 1) * attempts_left,
        attempts_left > 0 && remaining < attempts_left * 1_000_000 ==> share == 1_000_000,
        attempts_left == 0 && remaining >= 1_000_000 ==> share == remaining,
        attempts_left == 0 && remaining < 1_000_000 ==> share == 1_000_000,
{
    if attempts_left > 0 {
        let n = attempts_left as int;
        let r = remaining as int;
        let q = r / n;
        assert(attempts_left % 0x1_0000_0000 == attempts_left);
        vstd::arithmetic::div_mod::lemma_fundamental_div_mod(r, n);
        assert(0 <= r % n < n) by {
            vstd::arithmetic::div_mod::lemma_mod_bound(r, n);
        }
        assert(n * q == q * n) by (nonlinear_arith);
        assert((q + 1) * n == q * n + n) by (nonlinear_arith);
        if r >= n * 1_000_000 {
            assert(q >= 1_000_000) by (nonlinear_arith)
                requires
                    r >= n * 1_000_000,
                    r < q * n + n,
                    n > 0,
            ;
        } else {
            assert(q < 1_000_000) by (nonlinear_arith)
                requires
                    r < n * 1_000_000,
                    q * n <= r,
                    n > 0,
            ;
        }
    }
}

/// Addresses are tried one after the other until one connects or all have been tried. The target is
/// healthy exactly where the last of them connected; and where none did, it is a failure that gives
/// the reason of the last, or that time ran out where none was tried.
pub proof fn lemma_tried_until_connected(count: nat, outcomes: Seq<Outcome>, addr: Seq<char>)
    requires
        tcp::is_run(count, outcomes),
    ensures
        ({
            let view = tcp::after_attempts(count, outcomes);
            let fault = tcp::attempts_fault(view, addr);
            &&& view.goes_on() <==> outcomes.len() < count && (outcomes.len() > 0
                ==> !(outcomes.last() is Connected))
            &&& fault is None <==> outcomes.len() > 0 && outcomes.last() is Connected
            &&& fault matches Some(e) ==> e is Failure
            &&& fault matches Some(e) ==> outcomes.len() > 0 ==> e.message()
                == "failed to connect to "@ + addr + ": "@ + outcomes.last()->Failed_0
            &&& fault matches Some(e) ==> outcomes.len() == 0 ==> e.message()
                == "timed out connecting to "@ + addr
        }),
{
    tcp::lemma_healthy_when_connected(count, outcomes, addr);
    if outcomes.len() > 0 {
        let before = outcomes.drop_last();
        assert(outcomes[outcomes.len() - 1] == outcomes.last());
        assert(before =~= outcomes.take(outcomes.len() - 1));
        assert(tcp::after_attempts(count, outcomes.take(outcomes.len() - 1)).goes_on());
    }
}

/// An address can be tried exactly where it is one with a port. Else the configuration is at fault.
pub proof fn lemma_usable_address(raw: Seq<char>)
    ensures
        tcp::addr_fault(raw) is None <==> authority::authority_reason(
            raw,
            PortPolicy::Required,
            authority::parsed_authority(raw),
        ) is None,
        tcp::addr_fault(raw) matches Some(e) ==> e is InvalidConfig,
{
}

} // verus!
