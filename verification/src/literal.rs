//! Number literals, which are read by the `nom` crate's recognisers of
//! floating point numbers and of integers.

use vstd::prelude::*;
use crate::number::Binary64;

verus! {

/// What the recogniser of floating point literals finds at the head of a text.
pub ghost enum Scanned {
    /// A literal of `len` characters that denotes the binary64 value `bits`.
    Literal { len: int, bits: u64 },
    /// No literal.
    Error,
    /// The head of a literal that breaks off: an exponent mark without digits.
    Failure,
}

/// What `nom::number::complete::double` answers on a text: which literal it
/// reads at the head, with the bits of the value that it gives for it, in
/// canonical form.
pub uninterp spec fn double(text: Seq<char>) -> Scanned;

/// The answer of the recogniser on an input.
#[derive(Debug, Clone, Copy, PartialEq)]
pub enum Scan<'a> {
    /// A literal with the value `bits`; `rest` is the input behind it.
    Literal { rest: &'a str, bits: u64 },
    /// No literal at the head of the input.
    Error,
    /// A literal that breaks off, reported for the input `at`.
    Failure { at: &'a str },
}

/// Calls `nom::number::complete::double` on `input`, with `nom`'s plain
/// error type. Believed of it: its answer is a function of the characters of
/// the input, but for the sign and the payload where the value is a NaN; a
/// literal that it reads is a nonempty head of the input, and the rest that it
/// hands back is the input behind that head; and a failure that is final is
/// reported for the whole input.
#[verifier::external_body]
pub(crate) fn scan_double<'a>(input: &'a str) -> (scan: Scan<'a>)
    ensures
        (match scan {
            Scan::Literal { rest, bits } => {
                &&& double(input@) matches Scanned::Literal { len, bits: value }
                &&& value == (Binary64 { bits }).canonical().bits
                &&& 0 < len <= input@.len()
                &&& rest@ == input@.skip(len)
            },
            Scan::Error => double(input@) == Scanned::Error,
            Scan::Failure { at } => double(input@) == Scanned::Failure && at@ == input@,
        }),
{
    match nom::number::complete::double::<&str, nom::error::Error<&str>>(input) {
        Ok((rest, value)) => Scan::Literal { rest, bits: value.to_bits() },
        Err(nom::Err::Failure(error)) => Scan::Failure { at: error.input },
        Err(nom::Err::Error(_)) => Scan::Error,
        Err(nom::Err::Incomplete(_)) => Scan::Error,
    }
}

/// The decimal digits.
pub open spec fn is_digit(c: char) -> bool {
    '0' <= c && c <= '9'
}

/// The number of decimal digits at the head of the text.
pub open spec fn digits_len(text: Seq<char>) -> nat
    decreases text.len(),
{
    if text.len() > 0 && is_digit(text[0]) {
        1 + digits_len(text.drop_first())
    } else {
        0
    }
}

/// The number that a run of decimal digits spells.
pub open spec fn decimal(digits: Seq<char>) -> nat
    decreases digits.len(),
{
    if digits.len() == 0 {
        0
    } else {
        (decimal(digits.drop_last()) * 10 + (digits.last() as u32 - '0' as u32)) as nat
    }
}

/// What the recogniser of integers finds at the head of a text.
pub ghost enum Integral {
    /// A literal of `len` characters that spells `value`.
    Literal { len: int, value: i64 },
    /// No literal, or one whose value 64 bits do not hold.
    Error,
}

/// The integer at the head of a text: a sign or none, then the longest run
/// of decimal digits, which is not empty.
pub open spec fn integer(text: Seq<char>) -> Integral {
    let negative = text.len() > 0 && text[0] == '-';
    let start: int = if text.len() > 0 && (text[0] == '+' || text[0] == '-') {
        1
    } else {
        0
    };
    let count = digits_len(text.skip(start)) as int;
    let magnitude = decimal(text.subrange(start, start + count)) as int;
    let value = if negative {
        -magnitude
    } else {
        magnitude
    };
    if count == 0 || value < i64::MIN || value > i64::MAX {
        Integral::Error
    } else {
        Integral::Literal { len: start + count, value: value as i64 }
    }
}

/// Calls `nom::character::complete::i64` on `input`, with `nom`'s plain error
/// type. Believed of it: it reads a sign or none and then decimal digits as
/// far as they go; it answers with their value and the input behind them; and
/// it fails where no digit stands there or the value does not fit in 64 bits.
#[verifier::external_body]
pub(crate) fn scan_i64<'a>(input: &'a str) -> (scan: Option<(&'a str, i64)>)
    ensures
        (match scan {
            Some((rest, value)) => {
                &&& integer(input@) matches Integral::Literal { len, value: spelled }
                &&& spelled == value
                &&& rest@ == input@.skip(len)
            },
            None => integer(input@) == Integral::Error,
        }),
{
    match nom::character::complete::i64::<&str, nom::error::Error<&str>>(input) {
        Ok((rest, value)) => Some((rest, value)),
        Err(_) => None,
    }
}

/// A run of digits is no longer than the text that it heads.
pub proof fn lemma_digits_len(text: Seq<char>)
    ensures
        digits_len(text) <= text.len(),
    decreases text.len(),
{
    if text.len() > 0 && is_digit(text[0]) {
        lemma_digits_len(text.drop_first());
    }
}

} // verus!
