//! Unsigned decimal numbers as they stand in a text.

use crate::tokens::{span_bytes, Span};
use vstd::prelude::*;

verus! {

/// `0` to `9`.
pub open spec fn is_digit(b: u8) -> bool {
    48 <= b && b <= 57
}

/// Every byte of `s` is a digit.
pub open spec fn all_digits(s: Seq<u8>) -> bool {
    forall|i: int| 0 <= i < s.len() ==> is_digit(#[trigger] s[i])
}

/// The number that the digits `s` spell, the most significant first.
pub open spec fn digits_value(s: Seq<u8>) -> nat
    decreases s.len(),
{
    if s.len() == 0 {
        0
    } else {
        10 * digits_value(s.drop_last()) + (s.last() - 48) as nat
    }
}

/// `s` without the plus sign that may stand in front of a number.
pub open spec fn unsigned_part(s: Seq<u8>) -> Seq<u8> {
    if s.len() > 0 && s[0] == 43 {
        s.skip(1)
    } else {
        s
    }
}

/// The 32-bit number that `s` spells: an optional plus sign and then one or
/// more digits, no more than `u32::MAX` in value. Anything else spells none.
pub open spec fn decimal_u32(s: Seq<u8>) -> Option<u32> {
    let digits = unsigned_part(s);
    if digits.len() > 0 && all_digits(digits) && digits_value(digits) <= u32::MAX {
        Some(digits_value(digits) as u32)
    } else {
        None
    }
}

/// The digits read so far never spell more than all of them do.
proof fn lemma_prefix_value(s: Seq<u8>, k: int)
    requires
        all_digits(s),
        0 <= k <= s.len(),
    ensures
        digits_value(s.take(k)) <= digits_value(s),
    decreases s.len() - k,
{
    if k == s.len() {
        assert(s.take(k) =~= s);
    } else {
        lemma_prefix_value(s.drop_last(), k);
        assert(s.drop_last().take(k) =~= s.take(k));
    }
}

/// Reads the number that the bytes of `span` spell.
pub fn parse_decimal(text: &[u8], span: Span) -> (value: Option<u32>)
    requires
        span.start <= span.end <= text@.len(),
    ensures
        value == decimal_u32(span_bytes(text@, span)),
{
    let ghost word = span_bytes(text@, span);
    let mut first: usize = span.start;
    if first < span.end && text[first] == 43 {
        first = first + 1;
    }
    let ghost digits = unsigned_part(word);
    assert(digits =~= text@.subrange(first as int, span.end as int));
    if first == span.end {
        return None;
    }
    let mut acc: u64 = 0;
    let mut i: usize = first;
    while i < span.end
        invariant
            first <= i <= span.end <= text@.len(),
            digits == text@.subrange(first as int, span.end as int),
            digits == unsigned_part(span_bytes(text@, span)),
            all_digits(digits.take(i - first)),
            acc == digits_value(digits.take(i - first)),
            acc <= u32::MAX,
        decreases span.end - i,
    {
        let b: u8 = text[i];
        if b < 48 || b > 57 {
            assert(!is_digit(digits[i - first]));
            return None;
        }
        let ghost before = digits.take(i - first);
        let ghost now = digits.take(i - first + 1);
        assert(now.drop_last() =~= before);
        assert(now.last() == b);
        acc = acc * 10 + (b - 48) as u64;
        i = i + 1;
        assert forall|k: int| 0 <= k < now.len() implies is_digit(#[trigger] now[k]) by {
            if k < before.len() {
                assert(now[k] == before[k]);
            }
        }
        if acc > 0xFFFF_FFFF {
            proof {
                if all_digits(digits) {
                    lemma_prefix_value(digits, i - first);
                }
            }
            return None;
        }
    }
    assert(digits.take(i - first) =~= digits);
    Some(acc as u32)
}

} // verus!
