//! Laws of the texts and the checks that everything else is built on.

use crate::error;
use crate::error::ErrorView;
use crate::text;
use crate::text_match;
use vstd::prelude::*;
use vstd::utf8;

verus! {

/// Whether every text is in the bytes.
pub open spec fn has_texts(bytes: Seq<u8>, texts: Seq<String>) -> bool {
    forall|i: int|
        0 <= i < texts.len() ==> text_match::contains(
            bytes,
            utf8::encode_utf8((#[trigger] texts[i])@),
        )
}

/// Bytes contain a needle exactly where they are the needle with something before and after it.
pub proof fn lemma_contains_is_a_middle(bytes: Seq<u8>, needle: Seq<u8>)
    ensures
        text_match::contains(bytes, needle) <==> exists|before: Seq<u8>, after: Seq<u8>|
            bytes == #[trigger] (before + needle + after),
{
    if text_match::contains(bytes, needle) {
        let i = choose|i: int| text_match::occurs_at(bytes, needle, i);
        let before = bytes.take(i);
        let after = bytes.skip(i + needle.len());
        assert(bytes =~= before + needle + after) by {
            assert forall|j: int| 0 <= j < bytes.len() implies bytes[j] == (before + needle
                + after)[j] by {
                if i <= j < i + needle.len() {
                    assert(bytes.subrange(i, i + needle.len())[j - i] == needle[j - i]);
                }
            }
        }
    }
    if exists|before: Seq<u8>, after: Seq<u8>| bytes == #[trigger] (before + needle + after) {
        let (before, after) = choose|before: Seq<u8>, after: Seq<u8>|
            bytes == #[trigger] (before + needle + after);
        assert(bytes.subrange(before.len() as int, (before.len() + needle.len()) as int) =~= needle);
        assert(text_match::occurs_at(bytes, needle, before.len() as int));
    }
}

proof fn lemma_trim_start_is_suffix(s: Seq<char>)
    ensures
        exists|i: int|
            0 <= i <= s.len() && text::trim_start(s) == #[trigger] s.skip(i) && (forall|j: int|
                0 <= j < i ==> text::is_white(#[trigger] s[j])),
        text::trim_start(s).len() > 0 ==> !text::is_white(text::trim_start(s)[0]),
    decreases s.len(),
{
    if s.len() > 0 && text::is_white(s[0]) {
        let t = s.skip(1);
        lemma_trim_start_is_suffix(t);
        let i = choose|i: int|
            0 <= i <= t.len() && text::trim_start(t) == #[trigger] t.skip(i) && (forall|j: int|
                0 <= j < i ==> text::is_white(#[trigger] t[j]));
        assert(t.skip(i) =~= s.skip(i + 1));
        assert forall|j: int| 0 <= j < i + 1 implies text::is_white(#[trigger] s[j]) by {
            if j > 0 {
                assert(t[j - 1] == s[j]);
            }
        }
    } else {
        assert(s.skip(0) =~= s);
    }
}

proof fn lemma_trim_end_is_prefix(s: Seq<char>)
    ensures
        exists|i: int|
            0 <= i <= s.len() && text::trim_end(s) == #[trigger] s.take(i) && (forall|j: int|
                i <= j < s.len() ==> text::is_white(#[trigger] s[j])),
        text::trim_end(s).len() > 0 ==> !text::is_white(text::trim_end(s).last()),
    decreases s.len(),
{
    if s.len() > 0 && text::is_white(s.last()) {
        let t = s.drop_last();
        lemma_trim_end_is_prefix(t);
        let i = choose|i: int|
            0 <= i <= t.len() && text::trim_end(t) == #[trigger] t.take(i) && (forall|j: int|
                i <= j < t.len() ==> text::is_white(#[trigger] t[j]));
        assert(t.take(i) =~= s.take(i));
        assert forall|j: int| i <= j < s.len() implies text::is_white(#[trigger] s[j]) by {
            if j < t.len() {
                assert(t[j] == s[j]);
            }
        }
    } else {
        assert(s.take(s.len() as int) =~= s);
    }
}

/// Trimming takes white space from both ends, all of it, and nothing else.
pub proof fn lemma_trim_takes_white_ends(s: Seq<char>)
    ensures
        exists|i: int, k: int|
            0 <= i <= k <= s.len() && text::trim_spec(s) == #[trigger] s.subrange(i, k) && (forall|
                j: int,
            |
                0 <= j < i || k <= j < s.len() ==> text::is_white(#[trigger] s[j])),
        text::trim_spec(s).len() > 0 ==> !text::is_white(text::trim_spec(s)[0])
            && !text::is_white(text::trim_spec(s).last()),
{
    lemma_trim_start_is_suffix(s);
    let t = text::trim_start(s);
    let i = choose|i: int|
        0 <= i <= s.len() && t == #[trigger] s.skip(i) && (forall|j: int|
            0 <= j < i ==> text::is_white(#[trigger] s[j]));
    lemma_trim_end_is_prefix(t);
    let m = choose|m: int|
        0 <= m <= t.len() && text::trim_end(t) == #[trigger] t.take(m) && (forall|j: int|
            m <= j < t.len() ==> text::is_white(#[trigger] t[j]));
    assert(t.take(m) =~= s.subrange(i, i + m));
    assert forall|j: int| 0 <= j < i || i + m <= j < s.len() implies text::is_white(
        #[trigger] s[j],
    ) by {
        if j >= i {
            assert(t[j - i] == s[j]);
        }
    }
}

/// A text is split at the first place of a character, which neither part keeps.
pub proof fn lemma_split_is_at_the_first(s: Seq<char>, c: char)
    ensures
        text::split_once(s, c) is None <==> !s.contains(c),
        text::split_once(s, c) matches Some((before, after)) ==> s == before + seq![c] + after
            && !before.contains(c),
{
    text::lemma_find(s, c);
    let i = text::find(s, c);
    if s.contains(c) {
        assert(s =~= s.take(i) + seq![c] + s.skip(i + 1));
        assert(!s.take(i).contains(c));
    }
}

proof fn lemma_find_last(s: Seq<char>, c: char)
    ensures
        -1 <= text::find_last(s, c) < s.len(),
        text::find_last(s, c) >= 0 ==> s[text::find_last(s, c)] == c,
        forall|j: int| text::find_last(s, c) < j < s.len() ==> s[j] != c,
    decreases s.len(),
{
    if s.len() > 0 && s.last() != c {
        let t = s.drop_last();
        lemma_find_last(t, c);
        assert forall|j: int| text::find_last(s, c) < j < s.len() implies s[j] != c by {
            if j < t.len() {
                assert(t[j] == s[j]);
            }
        }
    }
}

/// A text is split at the last place of a character, which neither part keeps.
pub proof fn lemma_split_is_at_the_last(s: Seq<char>, c: char)
    ensures
        text::split_last(s, c) is None <==> !s.contains(c),
        text::split_last(s, c) matches Some((before, after)) ==> s == before + seq![c] + after
            && !after.contains(c),
{
    lemma_find_last(s, c);
    let i = text::find_last(s, c);
    if i >= 0 {
        assert(s[i] == c);
        assert(s =~= s.take(i) + seq![c] + s.skip(i + 1));
        assert(!s.skip(i + 1).contains(c));
    }
}

proof fn lemma_find_pair(s: Seq<char>, a: char, b: char)
    ensures
        0 <= text::find_pair(s, a, b) <= s.len(),
        text::find_pair(s, a, b) < s.len() ==> text::find_pair(s, a, b) + 1 < s.len()
            && s[text::find_pair(s, a, b)] == a && s[text::find_pair(s, a, b) + 1] == b,
        forall|j: int|
            0 <= j < text::find_pair(s, a, b) && j + 1 < s.len() ==> s[j] != a || #[trigger] s[j
                + 1] != b,
    decreases s.len(),
{
    if s.len() >= 2 && !(s[0] == a && s[1] == b) {
        let t = s.skip(1);
        lemma_find_pair(t, a, b);
        assert forall|j: int| 0 <= j < text::find_pair(s, a, b) && j + 1 < s.len() implies s[j] != a
            || #[trigger] s[j + 1] != b by {
            if j > 0 {
                assert(t[j - 1] == s[j]);
                assert(t[(j - 1) + 1] == s[j + 1]);
            }
        }
    }
}

/// A text is split at the first place of two characters, which neither part keeps.
pub proof fn lemma_pair_split_is_at_the_first(s: Seq<char>, a: char, b: char)
    ensures
        text::split_pair(s, a, b) is None <==> forall|j: int|
            0 <= j && j + 1 < s.len() ==> s[j] != a || #[trigger] s[j + 1] != b,
        text::split_pair(s, a, b) matches Some((before, after)) ==> {
            &&& s == before + seq![a, b] + after
            &&& forall|j: int|
                0 <= j < before.len() && j + 1 < s.len() ==> s[j] != a || #[trigger] s[j + 1] != b
        },
{
    lemma_find_pair(s, a, b);
    let i = text::find_pair(s, a, b);
    if i < s.len() {
        assert(s[i] == a && s[i + 1] == b);
        assert(s =~= s.take(i) + seq![a, b] + s.skip(i + 2));
    }
}

/// Lower case keeps the length and every character but `A` to `Z`, which become `a` to `z`.
pub proof fn lemma_lower_changes_capitals(s: Seq<char>)
    ensures
        text::lower_text(s).len() == s.len(),
        forall|i: int|
            0 <= i < s.len() ==> if 'A' <= s[i] && s[i] <= 'Z' {
                text::lower_text(s)[i] as u32 == s[i] as u32 + 32
            } else {
                #[trigger] text::lower_text(s)[i] == s[i]
            },
        text::lower_text(text::lower_text(s)) == text::lower_text(s),
{
    assert(text::lower_text(text::lower_text(s)) =~= text::lower_text(s));
}

/// Texts that differ in the case of letters only are the same in lower case and in upper case.
pub proof fn lemma_case_does_not_matter(s: Seq<char>)
    ensures
        text::lower_text(text::upper_text(s)) == text::lower_text(s),
        text::upper_text(text::lower_text(s)) == text::upper_text(s),
        text::upper_text(s).len() == s.len(),
{
    assert(text::lower_text(text::upper_text(s)) =~= text::lower_text(s));
    assert(text::upper_text(text::lower_text(s)) =~= text::upper_text(s));
}

/// Of two checks the first error counts, and there is none only where neither has one.
pub proof fn lemma_first_error_counts(a: Option<ErrorView>, b: Option<ErrorView>)
    ensures
        error::first_fault(a, b) is None <==> a is None && b is None,
        a is Some ==> error::first_fault(a, b) == a,
        a is None ==> error::first_fault(a, b) == b,
{
}

/// Of a list the first element with an error counts, and there is none only where no element has
/// one.
pub proof fn lemma_first_element_counts<T>(s: Seq<T>, check: spec_fn(T) -> Option<ErrorView>)
    ensures
        error::first_of(s, check) is None <==> forall|i: int|
            0 <= i < s.len() ==> check(#[trigger] s[i]) is None,
        error::first_of(s, check) is Some ==> exists|i: int|
            0 <= i < s.len() && check(#[trigger] s[i]) == error::first_of(s, check) && (forall|
                j: int,
            |
                0 <= j < i ==> check(#[trigger] s[j]) is None),
    decreases s.len(),
{
    if s.len() > 0 {
        let t = s.skip(1);
        lemma_first_element_counts(t, check);
        if check(s[0]) is None {
            assert forall|i: int|
                0 <= i < s.len() && (forall|k: int|
                    0 <= k < t.len() ==> check(#[trigger] t[k]) is None) implies check(
                #[trigger] s[i],
            ) is None by {
                if i > 0 {
                    assert(t[i - 1] == s[i]);
                }
            }
            if error::first_of(t, check) is Some {
                let i = choose|i: int|
                    0 <= i < t.len() && check(#[trigger] t[i]) == error::first_of(t, check)
                        && (forall|j: int| 0 <= j < i ==> check(#[trigger] t[j]) is None);
                assert(s[i + 1] == t[i]);
                assert forall|j: int| 0 <= j < i + 1 implies check(#[trigger] s[j]) is None by {
                    if j > 0 {
                        assert(t[j - 1] == s[j]);
                    }
                }
            } else {
                assert forall|i: int| 0 <= i < s.len() implies check(#[trigger] s[i]) is None by {
                    if i > 0 {
                        assert(t[i - 1] == s[i]);
                    }
                }
            }
        } else {
            assert(check(s[0]) == error::first_of(s, check));
        }
    }
}

/// White space is what Unicode calls so, and a control character is one below the space or from
/// 127 to 159. A hexadecimal digit is a digit or one of the first six letters.
pub proof fn lemma_kinds_of_characters(c: char)
    ensures
        text::is_white(c) <==> {
            let n = c as u32;
            ||| 9 <= n <= 13
            ||| n == 32 || n == 133 || n == 160 || n == 5760
            ||| 8192 <= n <= 8202
            ||| n == 8232 || n == 8233 || n == 8239 || n == 8287 || n == 12288
        },
        text::is_ctl(c) <==> c as u32 <= 31 || 127 <= c as u32 <= 159,
        text::is_digit(c) <==> 48 <= c as u32 <= 57,
        text::is_hex(c) <==> text::is_digit(c) || 97 <= text::lower(c) as u32 <= 102,
        text::is_letter(c) <==> 97 <= text::lower(c) as u32 <= 122,
{
}

} // verus!
