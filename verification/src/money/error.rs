//! What can go wrong when an amount or an asset id is built.

use crate::money::{MAX_ASSET_ID_LEN, MAX_DIGITS, MAX_INPUT_LEN, MAX_SCALE};
use crate::text::{decimal, push_decimal};
use vstd::prelude::*;

verus! {

/// Everything that can go wrong constructing an `Amount` or an `AssetId`.
///
/// An error never carries the rejected text: only a class, and a byte offset
/// or a count.
#[derive(Debug, Clone, Copy, PartialEq, Eq, Structural)]
pub enum MoneyError {
    Empty,
    InputTooLong { len: usize },
    InvalidByte { at: usize },
    LeadingZero { at: usize },
    SignOnZero,
    MissingIntegerPart,
    MissingFractionDigits,
    ExponentNotation { at: usize },
    TooManyDigits { digits: usize },
    ScaleTooLarge { scale: usize },
    CoefficientOverflow,
    AssetMismatch,
    AssetIdEmpty,
    AssetIdTooLong { len: usize },
    AssetIdInvalidByte { at: usize },
}

/// `before`, the numeral of `n`, `between`, the numeral of `limit`, `after`.
fn with_numbers(before: &str, n: usize, between: &str, limit: usize, after: &str) -> (r: String)
    ensures
        r@ == before@ + decimal(n as nat) + between@ + decimal(limit as nat) + after@,
{
    let mut out = with_number(before, n, between);
    push_decimal(&mut out, limit as u64);
    out.append(after);
    out
}

/// `before`, then the numeral of `n`.
fn ending_in_number(before: &str, n: usize) -> (r: String)
    ensures
        r@ == before@ + decimal(n as nat),
{
    let mut out = before.to_owned();
    push_decimal(&mut out, n as u64);
    out
}

/// `before`, the numeral of `n`, `after`.
fn with_number(before: &str, n: usize, after: &str) -> (r: String)
    ensures
        r@ == before@ + decimal(n as nat) + after@,
{
    let mut out = ending_in_number(before, n);
    out.append(after);
    out
}

impl MoneyError {
    /// The message of an error.
    pub open spec fn message(self) -> Seq<char> {
        match self {
            MoneyError::Empty => "amount string is empty"@,
            MoneyError::InputTooLong { len } => "amount string is "@ + decimal(len as nat)
                + " bytes, exceeds the "@ + decimal(MAX_INPUT_LEN as nat) + "-byte input limit"@,
            MoneyError::InvalidByte { at } => "invalid byte at offset "@ + decimal(at as nat),
            MoneyError::LeadingZero { at } => "leading zero not allowed at offset "@ + decimal(at as nat),
            MoneyError::SignOnZero => "sign not allowed on a zero value"@,
            MoneyError::MissingIntegerPart => "missing integer part before the decimal point"@,
            MoneyError::MissingFractionDigits => "missing fraction digits after the decimal point"@,
            MoneyError::ExponentNotation { at } => "exponent notation at offset "@ + decimal(
                at as nat,
            )
                + " is not allowed; format the decimal as plain digits before encoding it (Python: format(d, 'f'), not str(d); Java: toPlainString(), not toString(); Go: Text('f', -1); JS decimal.js: .toFixed())"@,
            MoneyError::TooManyDigits { digits } => "coefficient has "@ + decimal(digits as nat)
                + " significant digits, exceeds the "@ + decimal(MAX_DIGITS as nat)
                + "-digit limit"@,
            MoneyError::ScaleTooLarge { scale } => "scale "@ + decimal(scale as nat)
                + " exceeds the maximum scale of "@ + decimal(MAX_SCALE as nat),
            MoneyError::CoefficientOverflow => "coefficient overflow: result exceeds the "@
                + decimal(MAX_DIGITS as nat) + "-digit limit"@,
            MoneyError::AssetMismatch => "asset mismatch between operands"@,
            MoneyError::AssetIdEmpty => "asset id is empty"@,
            MoneyError::AssetIdTooLong { len } => "asset id is "@ + decimal(len as nat)
                + " bytes, exceeds the "@ + decimal(MAX_ASSET_ID_LEN as nat) + "-byte limit"@,
            MoneyError::AssetIdInvalidByte { at } => "asset id has invalid byte at offset "@
                + decimal(at as nat),
        }
    }

    /// Writes the message.
    pub fn to_string(&self) -> (r: String)
        ensures
            r@ == self.message(),
    {
        match *self {
            MoneyError::Empty => "amount string is empty".to_owned(),
            MoneyError::InputTooLong { len } => with_numbers(
                "amount string is ",
                len,
                " bytes, exceeds the ",
                MAX_INPUT_LEN,
                "-byte input limit",
            ),
            MoneyError::InvalidByte { at } => ending_in_number("invalid byte at offset ", at),
            MoneyError::LeadingZero { at } => ending_in_number(
                "leading zero not allowed at offset ",
                at,
            ),
            MoneyError::SignOnZero => "sign not allowed on a zero value".to_owned(),
            MoneyError::MissingIntegerPart =>
                "missing integer part before the decimal point".to_owned(),
            MoneyError::MissingFractionDigits =>
                "missing fraction digits after the decimal point".to_owned(),
            MoneyError::ExponentNotation { at } => with_number(
                "exponent notation at offset ",
                at,
                " is not allowed; format the decimal as plain digits before encoding it (Python: format(d, 'f'), not str(d); Java: toPlainString(), not toString(); Go: Text('f', -1); JS decimal.js: .toFixed())",
            ),
            MoneyError::TooManyDigits { digits } => with_numbers(
                "coefficient has ",
                digits,
                " significant digits, exceeds the ",
                MAX_DIGITS,
                "-digit limit",
            ),
            MoneyError::ScaleTooLarge { scale } => {
                let mut out = with_number("scale ", scale, " exceeds the maximum scale of ");
                push_decimal(&mut out, MAX_SCALE as u64);
                out
            },
            MoneyError::CoefficientOverflow => with_number(
                "coefficient overflow: result exceeds the ",
                MAX_DIGITS,
                "-digit limit",
            ),
            MoneyError::AssetMismatch => "asset mismatch between operands".to_owned(),
            MoneyError::AssetIdEmpty => "asset id is empty".to_owned(),
            MoneyError::AssetIdTooLong { len } => with_numbers(
                "asset id is ",
                len,
                " bytes, exceeds the ",
                MAX_ASSET_ID_LEN,
                "-byte limit",
            ),
            MoneyError::AssetIdInvalidByte { at } => ending_in_number(
                "asset id has invalid byte at offset ",
                at,
            ),
        }
    }
}

} // verus!
