//! Unsigned decimal numbers as they appear in a header value.
//!
//! A value counts as a number when it is an optional `+` followed by one or
//! more ASCII digits and the number fits in `usize`. Anything else (an empty
//! value, a sign alone, blanks, a minus sign, bytes outside ASCII, a number
//! that is too large) is no number.

use vstd::prelude::*;

verus! {

/// Whether `byte` is one of the ASCII digits `0` to `9`.
pub open spec fn is_digit(byte: u8) -> bool {
    0x30 <= byte <= 0x39
}

/// The number that the digit `byte` stands for; 0 for any other byte.
pub open spec fn digit_of(byte: u8) -> nat {
    if is_digit(byte) {
        (byte - 0x30) as nat
    } else {
        0
    }
}

/// The number written by `digits` in base ten, most significant digit first.
pub open spec fn decimal(digits: Seq<u8>) -> nat
    decreases digits.len(),
{
    if digits.len() == 0 {
        0
    } else {
        10 * decimal(digits.drop_last()) + digit_of(digits.last())
    }
}

/// `text` without its leading `+`, if it has one.
pub open spec fn unsigned_part(text: Seq<u8>) -> Seq<u8> {
    if text.len() > 0 && text[0] == 0x2b {
        text.skip(1)
    } else {
        text
    }
}

/// Whether `text` is an optional `+` followed by at least one digit and
/// nothing else.
pub open spec fn is_unsigned_decimal(text: Seq<u8>) -> bool {
    let digits = unsigned_part(text);
    digits.len() > 0 && forall|i: int| 0 <= i < digits.len() ==> is_digit(#[trigger] digits[i])
}

/// The number that `text` denotes, if it denotes one that fits in `usize`.
pub open spec fn length_value(text: Seq<u8>) -> Option<usize> {
    if is_unsigned_decimal(text) && decimal(unsigned_part(text)) <= usize::MAX {
        Some(decimal(unsigned_part(text)) as usize)
    } else {
        None
    }
}

/// A longer run of digits never denotes a smaller number than its prefix.
pub proof fn lemma_decimal_prefix(digits: Seq<u8>, k: int)
    requires
        0 <= k <= digits.len(),
    ensures
        decimal(digits.take(k)) <= decimal(digits),
    decreases digits.len(),
{
    if k == digits.len() {
        assert(digits.take(k) =~= digits);
    } else {
        lemma_decimal_prefix(digits.drop_last(), k);
        assert(digits.drop_last().take(k) =~= digits.take(k));
    }
}

/// Reads `text` as an unsigned decimal number.
pub fn parse_length(text: &[u8]) -> (value: Option<usize>)
    ensures
        value == length_value(text@),
{
    let start: usize = if text.len() > 0 && text[0] == 0x2b {
        1
    } else {
        0
    };
    if start == text.len() {
        return None;
    }
    let ghost digits = unsigned_part(text@);
    let mut total: usize = 0;
    let mut i: usize = start;
    proof {
        assert(digits.take(0) =~= Seq::<u8>::empty());
    }
    while i < text.len()
        invariant
            start <= i <= text.len(),
            digits == text@.skip(start as int),
            digits == unsigned_part(text@),
            forall|k: int| 0 <= k < i - start ==> is_digit(#[trigger] digits[k]),
            total == decimal(digits.take(i - start)),
        decreases text.len() - i,
    {
        let byte = text[i];
        if byte < 0x30 || byte > 0x39 {
            assert(!is_digit(digits[i - start]));
            return None;
        }
        proof {
            let longer = digits.take(i - start + 1);
            assert(longer.drop_last() =~= digits.take(i - start));
            assert(longer.last() == byte);
            lemma_decimal_prefix(digits, i - start + 1);
        }
        let scaled = match total.checked_mul(10) {
            Some(scaled) => scaled,
            None => {
                return None;
            },
        };
        total = match scaled.checked_add((byte - 0x30) as usize) {
            Some(sum) => sum,
            None => {
                return None;
            },
        };
        i += 1;
    }
    proof {
        assert(digits.take(i - start) =~= digits);
    }
    Some(total)
}

} // verus!
