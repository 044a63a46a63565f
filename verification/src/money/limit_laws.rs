//! The limits of an amount, and what is said of one that breaks them.

use crate::money::amount::{
    compared, int_end, int_start, limit_fault, parse_fault, same_value, stray_byte, value,
    AmountView,
};
use crate::money::asset::asset_id_fault;
use crate::money::error::MoneyError;
use crate::money::numeral::pow10;
use crate::money::{MAX_ASSET_ID_LEN, MAX_DIGITS, MAX_INPUT_LEN, MAX_SCALE};
use crate::text::decimal;
use std::cmp::Ordering;
use vstd::prelude::*;
use vstd::utf8::encode_utf8;

verus! {

/// The limits.
pub proof fn law_the_limits()
    ensures
        MAX_SCALE == 38,
        MAX_DIGITS == 128,
        MAX_ASSET_ID_LEN == 128,
        MAX_INPUT_LEN == 192,
{
}

/// What is wrong with a text comes out by its kind and its place. A text that is too long
/// is not looked at; of the rest the leftmost fault counts, then a sign on zero, then the
/// limits.
pub proof fn law_what_is_wrong_with_a_text(b: Seq<u8>)
    ensures
        b.len() > 192 ==> parse_fault(b) == Some(MoneyError::InputTooLong { len: b.len() as usize }),
        b.len() == 0 ==> parse_fault(b) == Some(MoneyError::Empty),
        0 < b.len() <= 192 ==> {
            let start = if b[0] == 45 {
                1int
            } else {
                0
            };
            &&& int_start(b) == start
            &&& b.len() == start || b[start] == 46 ==> parse_fault(b) == Some(
                MoneyError::MissingIntegerPart,
            )
            &&& b.len() > start && b[start] != 46 && !(48 <= b[start] <= 57) ==> parse_fault(b)
                == Some(MoneyError::InvalidByte { at: start as usize })
            &&& b.len() > start + 1 && b[start] == 48 && 48 <= b[start + 1] <= 57 && int_end(b)
                > start + 1 ==> parse_fault(b) == Some(MoneyError::LeadingZero { at: start as usize })
        },
{
}

/// A byte that no amount has where it stands is refused by its place; an exponent is told
/// apart.
pub proof fn law_an_exponent_is_told_apart(b: Seq<u8>, at: int)
    requires
        0 <= at < b.len(),
    ensures
        b[at] == 101 || b[at] == 69 ==> stray_byte(b, at) == (MoneyError::ExponentNotation {
            at: at as usize,
        }),
        b[at] != 101 && b[at] != 69 ==> stray_byte(b, at) == (MoneyError::InvalidByte {
            at: at as usize,
        }),
{
}

/// A number breaks the limits by its digits first, and by its scale only then.
pub proof fn law_what_breaks_the_limits(units: int, scale: nat)
    ensures
        ({
            let digits = decimal(
                (if units < 0 {
                    -units
                } else {
                    units
                }) as nat,
            ).len();
            &&& digits > 128 ==> limit_fault(units, scale) == Some(
                MoneyError::TooManyDigits { digits: digits as usize },
            )
            &&& digits <= 128 && scale > 38 ==> limit_fault(units, scale) == Some(
                MoneyError::ScaleTooLarge { scale: scale as usize },
            )
            &&& digits <= 128 && scale <= 38 ==> limit_fault(units, scale) is None
        }),
{
}

/// Amounts of one asset are equal exactly if their values are, whatever their scales: the
/// smaller scale is brought to the larger.
pub proof fn law_amounts_are_equal_by_value(a: AmountView, b: AmountView)
    requires
        a.scale <= b.scale <= 38,
    ensures
        same_value(a, b) <==> a.asset == b.asset && a.units * pow10((b.scale - a.scale) as nat)
            == b.units,
{
    lemma_values_at_one_scale(a, b, (b.scale - a.scale) as nat);
}

/// Amounts of one asset are ordered by their values: with the smaller scale brought to the
/// larger, as their units are.
pub proof fn law_amounts_are_ordered_by_value(a: AmountView, b: AmountView, k: nat)
    requires
        a.asset == b.asset,
        b.scale == a.scale + k,
        b.scale <= 38,
    ensures
        a.units * pow10(k) < b.units ==> compared(a, b) == Ok::<Ordering, MoneyError>(
            Ordering::Less,
        ) && compared(b, a) == Ok::<Ordering, MoneyError>(Ordering::Greater),
        a.units * pow10(k) == b.units ==> compared(a, b) == Ok::<Ordering, MoneyError>(
            Ordering::Equal,
        ) && compared(b, a) == Ok::<Ordering, MoneyError>(Ordering::Equal),
        a.units * pow10(k) > b.units ==> compared(a, b) == Ok::<Ordering, MoneyError>(
            Ordering::Greater,
        ) && compared(b, a) == Ok::<Ordering, MoneyError>(Ordering::Less),
{
    lemma_values_at_one_scale(a, b, k);
}

proof fn lemma_values_at_one_scale(a: AmountView, b: AmountView, k: nat)
    requires
        b.scale == a.scale + k,
        b.scale <= 38,
    ensures
        value(a) < value(b) <==> a.units * pow10(k) < b.units,
        value(a) == value(b) <==> a.units * pow10(k) == b.units,
{
    let m = (38 - b.scale) as nat;
    crate::money::numeral::lemma_pow10_sum(k, m);
    crate::money::numeral::lemma_pow10_monotone(0, m);
    crate::money::numeral::lemma_pow10_zero();
    let (x, y, p, q) = (a.units, b.units, pow10(k), pow10(m));
    assert((x * p) * q == x * (p * q)) by (nonlinear_arith);
    assert((x * p) * q < y * q <==> x * p < y) by (nonlinear_arith)
        requires
            q >= 1,
    ;
    assert((x * p) * q == y * q <==> x * p == y) by (nonlinear_arith)
        requires
            q >= 1,
    ;
}

/// An asset's id is refused if it is empty, longer than 128 bytes, or has a byte that is no
/// printable ASCII character, the first of which is named.
pub proof fn law_what_is_wrong_with_an_asset(s: Seq<char>, fault: Option<MoneyError>, k: int)
    requires
        asset_id_fault(s, fault),
    ensures
        ({
            let b = encode_utf8(s);
            let printable = forall|i: int| 0 <= i < b.len() ==> 33 <= #[trigger] b[i] <= 126;
            &&& fault is None <==> 0 < b.len() <= 128 && printable
            &&& b.len() > 128 ==> fault == Some(
                MoneyError::AssetIdTooLong { len: b.len() as usize },
            )
            &&& 0 < b.len() <= 128 && 0 <= k < b.len() && !(33 <= b[k] <= 126) && (forall|i: int|
                0 <= i < k ==> 33 <= #[trigger] b[i] <= 126) ==> fault == Some(
                MoneyError::AssetIdInvalidByte { at: k as usize },
            )
        }),
{
    if s.len() == 0 {
        vstd::utf8::is_ascii_chars_encode_utf8(s);
    }
}

} // verus!
