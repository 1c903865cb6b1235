//! The text form of IPv6 addresses.

use crate::number;
use crate::text;
use vstd::prelude::*;

verus! {

/// One to four hexadecimal digits.
pub open spec fn is_hextet(s: Seq<char>) -> bool {
    1 <= s.len() <= 4 && forall|i: int| 0 <= i < s.len() ==> text::is_hex(#[trigger] s[i])
}

/// A decimal number from 0 to 255 without leading zeros.
pub open spec fn is_octet(s: Seq<char>) -> bool {
    &&& 1 <= s.len() <= 3
    &&& number::all_digits(s)
    &&& s[0] == '0' ==> s.len() == 1
    &&& number::value_of(s) <= 255
}

/// So many octets with a dot between any two.
pub open spec fn are_octets(s: Seq<char>, count: nat) -> bool
    decreases count,
{
    if count <= 1 {
        count == 1 && is_octet(s)
    } else {
        match text::split_once(s, '.') {
            Some((first, rest)) => is_octet(first) && are_octets(rest, (count - 1) as nat),
            None => false,
        }
    }
}

/// An IPv4 address: four octets with dots between them.
pub open spec fn is_ipv4(s: Seq<char>) -> bool {
    are_octets(s, 4)
}

/// How many 16-bit groups a list of groups with colons between them writes, if it is one. Where
/// `v4` allows it, the last two may be written as an IPv4 address.
pub open spec fn group_count(s: Seq<char>, v4: bool) -> Option<nat>
    decreases s.len(),
    via group_count_shrinks
{
    match text::split_once(s, ':') {
        Some((first, rest)) => if is_hextet(first) {
            match group_count(rest, v4) {
                Some(n) => Some(n + 1),
                None => None,
            }
        } else {
            None
        },
        None => if is_hextet(s) {
            Some(1)
        } else if v4 && is_ipv4(s) {
            Some(2)
        } else {
            None
        },
    }
}

#[via_fn]
proof fn group_count_shrinks(s: Seq<char>, v4: bool) {
    text::lemma_find(s, ':');
}

/// How many groups one side of the `::` writes: none when it is empty.
pub open spec fn side_count(s: Seq<char>, v4: bool) -> Option<nat> {
    if s.len() == 0 {
        Some(0)
    } else {
        group_count(s, v4)
    }
}

/// The text form of an IPv6 address: eight groups, or at most seven with a `::` that stands for
/// the missing ones.
pub open spec fn is_ipv6(s: Seq<char>) -> bool {
    match text::split_pair(s, ':', ':') {
        Some((head, tail)) => match (side_count(head, false), side_count(tail, true)) {
            (Some(m), Some(n)) => m + n <= 7,
            _ => false,
        },
        None => group_count(s, true) == Some(8nat),
    }
}

/// Whether the text is one to four hexadecimal digits.
fn hextet(s: &str) -> (r: bool)
    ensures
        r == is_hextet(s@),
{
    let n: usize = s.unicode_len();
    if n < 1 || n > 4 {
        return false;
    }
    for ch in it: s.chars()
        invariant
            it.seq() == s@,
            forall|j: int| 0 <= j < it.index() ==> text::is_hex(#[trigger] s@[j]),
    {
        if !text::is_hex_digit(ch) {
            assert(!text::is_hex(s@[it.index()]));
            return false;
        }
    }
    true
}

/// Whether the text is a decimal number from 0 to 255 without leading zeros.
fn octet(s: &str) -> (r: bool)
    ensures
        r == is_octet(s@),
{
    let n: usize = s.unicode_len();
    if n < 1 || n > 3 || !number::only_digits(s) {
        return false;
    }
    if s.get_char(0) == '0' && n != 1 {
        return false;
    }
    match number::digits_u16(s) {
        Some(value) => value <= 255,
        None => false,
    }
}

/// Whether the text is so many octets with dots between them.
fn octets(s: &str, count: u8) -> (r: bool)
    ensures
        r == are_octets(s@, count as nat),
    decreases count,
{
    if count <= 1 {
        return count == 1 && octet(s);
    }
    match text::split_once_char(s, '.') {
        Some((first, rest)) => octet(first) && octets(rest, count - 1),
        None => false,
    }
}

/// How many groups the list writes; a list of more than `limit` may be given up.
fn count_groups(s: &str, v4: bool, limit: u8) -> (r: Option<u8>)
    requires
        limit <= 9,
    ensures
        r matches Some(n) ==> group_count(s@, v4) == Some(n as nat) && n <= limit + 2,
        r is None ==> match group_count(s@, v4) {
            Some(n) => n > limit,
            None => true,
        },
    decreases limit,
{
    match text::split_once_char(s, ':') {
        Some((first, rest)) => {
            if limit == 0 {
                proof {
                    lemma_count_positive(rest@, v4);
                }
                return None;
            }
            if !hextet(first) {
                return None;
            }
            match count_groups(rest, v4, limit - 1) {
                Some(n) => Some(n + 1),
                None => None,
            }
        },
        None => if hextet(s) {
            Some(1)
        } else if v4 && octets(s, 4) {
            Some(2)
        } else {
            None
        },
    }
}

proof fn lemma_count_positive(s: Seq<char>, v4: bool)
    ensures
        group_count(s, v4) matches Some(n) ==> n >= 1,
    decreases s.len(),
{
    text::lemma_find(s, ':');
    if let Some((first, rest)) = text::split_once(s, ':') {
        lemma_count_positive(rest, v4);
    }
}

/// Whether the text is the text form of an IPv6 address.
pub fn is_ipv6_text(s: &str) -> (r: bool)
    ensures
        r == is_ipv6(s@),
{
    match text::split_once_pair(s, ':', ':') {
        Some((head, tail)) => {
            let before: u8 = if head.is_empty() {
                0
            } else {
                match count_groups(head, false, 8) {
                    Some(n) => n,
                    None => {
                        return false;
                    },
                }
            };
            let after: u8 = if tail.is_empty() {
                0
            } else {
                match count_groups(tail, true, 8) {
                    Some(n) => n,
                    None => {
                        return false;
                    },
                }
            };
            before + after <= 7
        },
        None => match count_groups(s, true, 8) {
            Some(n) => n == 8,
            None => false,
        },
    }
}

} // verus!
