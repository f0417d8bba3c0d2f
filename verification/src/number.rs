//! Numbers as the grammar writes them: unsigned integers in decimal digits,
//! and decimal literals with an optional fraction.

use crate::error::ParseFailure;
use crate::text::{
    is_digit, leaves_rest, lemma_run_length, mismatch, run, run_length, skip, yields, ByteClass,
    ParseResult, Parsed,
};
use vstd::prelude::*;
use vstd::slice::slice_subrange;

verus! {

/// The full stop that parts a decimal literal.
pub const FULL_STOP: u8 = 0x2e;

/// The value of one ASCII digit.
pub open spec fn digit_value(b: u8) -> nat {
    (b - 0x30) as nat
}

/// The number that a sequence of ASCII digits writes in base ten; 0 for the
/// empty sequence.
pub open spec fn decimal_value(digits: Seq<u8>) -> nat
    decreases digits.len(),
{
    if digits.len() == 0 {
        0
    } else {
        10 * decimal_value(digits.drop_last()) + digit_value(digits.last())
    }
}

/// An unsigned integer at the start of `s`: the longest run of digits, which
/// must not be empty and must write a number that fits in 32 bits.
pub open spec fn spec_u32_str(s: Seq<u8>) -> Parsed<u32> {
    let n = run_length(s, ByteClass::Digit);
    let value = decimal_value(s.take(n as int));
    if n == 0 || value > u32::MAX {
        Err(ParseFailure::mismatch(s.len()))
    } else {
        Ok((s.skip(n as int), value as u32))
    }
}

/// Reads an unsigned integer: as many digits as there are, leading zeros
/// included. Fails, with all of `input` left, where `input` does not begin
/// with a digit and where the number is above `u32::MAX`.
pub fn u32_str(input: &[u8]) -> (r: ParseResult<'_, u32>)
    ensures
        yields(r, spec_u32_str(input@)),
{
    let n = run(input, ByteClass::Digit);
    if n == 0 {
        return mismatch(input);
    }
    proof {
        lemma_run_length(input@, ByteClass::Digit);
    }
    // `value` is the number read so far, or 2^32 once that is passed.
    let mut value: u64 = 0;
    let mut i: usize = 0;
    while i < n
        invariant
            i <= n <= input.len(),
            forall|k: int| 0 <= k < n ==> is_digit(#[trigger] input@[k]),
            value <= 0x1_0000_0000,
            value == if decimal_value(input@.take(i as int)) < 0x1_0000_0000 {
                decimal_value(input@.take(i as int))
            } else {
                0x1_0000_0000
            },
        decreases n - i,
    {
        proof {
            assert(input@.take(i + 1).drop_last() =~= input@.take(i as int));
            assert(is_digit(input@[i as int]));
        }
        value = value * 10 + (input[i] - 0x30) as u64;
        if value > 0xffff_ffff {
            value = 0x1_0000_0000;
        }
        i += 1;
    }
    if value > 0xffff_ffff {
        mismatch(input)
    } else {
        Ok((skip(input, n), value as u32))
    }
}

/// How many full stops `s` holds.
pub open spec fn full_stops(s: Seq<u8>) -> nat
    decreases s.len(),
{
    if s.len() == 0 {
        0
    } else if s.last() == FULL_STOP {
        full_stops(s.drop_last()) + 1
    } else {
        full_stops(s.drop_last())
    }
}

/// Whether `text` is a decimal literal: digits with at most one full stop
/// among them, before them or after them, and at least one digit.
pub open spec fn is_decimal(text: Seq<u8>) -> bool {
    &&& forall|i: int| 0 <= i < text.len() ==> ByteClass::Decimal.holds(#[trigger] text[i])
    &&& full_stops(text) <= 1
    &&& full_stops(text) < text.len()
}

/// A decimal literal at the start of `s`: the longest run of digits and full
/// stops, which must be a decimal literal.
pub open spec fn spec_f32_str(s: Seq<u8>) -> Parsed<Seq<u8>> {
    let n = run_length(s, ByteClass::Decimal);
    if n == 0 || !is_decimal(s.take(n as int)) {
        Err(ParseFailure::mismatch(s.len()))
    } else {
        Ok((s.skip(n as int), s.take(n as int)))
    }
}

/// Reads a decimal literal and hands it on as written. Fails, with all of
/// `input` left, where the run of digits and full stops that `input` begins
/// with is empty, holds no digit, or holds two full stops.
pub fn f32_str(input: &[u8]) -> (r: ParseResult<'_, &[u8]>)
    ensures
        yields(r, spec_f32_str(input@)),
{
    let n = run(input, ByteClass::Decimal);
    proof {
        lemma_run_length(input@, ByteClass::Decimal);
    }
    let mut stops: usize = 0;
    let mut i: usize = 0;
    while i < n
        invariant
            i <= n <= input.len(),
            stops <= i,
            stops == full_stops(input@.take(i as int)),
        decreases n - i,
    {
        proof {
            assert(input@.take(i + 1).drop_last() =~= input@.take(i as int));
        }
        if input[i] == FULL_STOP {
            stops += 1;
        }
        i += 1;
    }
    if n == 0 || stops > 1 || stops == n {
        mismatch(input)
    } else {
        Ok((skip(input, n), slice_subrange(input, 0, n)))
    }
}

/// A number leaves a rest of its input, and less than its input.
pub proof fn lemma_number_rest(s: Seq<u8>)
    ensures
        leaves_rest(spec_u32_str(s), s),
        leaves_rest(spec_f32_str(s), s),
        spec_u32_str(s) matches Ok((rest, _)) ==> rest.len() < s.len(),
        spec_f32_str(s) matches Ok((rest, _)) ==> rest.len() < s.len(),
{
    lemma_run_length(s, ByteClass::Digit);
    lemma_run_length(s, ByteClass::Decimal);
}

} // verus!
