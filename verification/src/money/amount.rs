//! Exact decimal amounts: an asset, a coefficient and a scale.

use crate::money::asset::{asset_id_fault, AssetId};
use crate::money::error::MoneyError;
use crate::money::integer::{magnitude, BigInteger};
use crate::money::numeral::{
    all_digits, digit_run, digits_value, is_digit, lemma_decimal, lemma_decimal_len,
    lemma_digit_run, pow10,
};
use crate::money::{MAX_DIGITS, MAX_INPUT_LEN, MAX_SCALE};
use crate::text::decimal;
use std::cmp::Ordering;
use vstd::prelude::*;
use vstd::utf8::{encode_utf8, is_ascii_chars_encode_utf8};

verus! {

/// What an amount is: `units * 10^-scale` of `asset`.
pub struct AmountView {
    pub asset: Seq<char>,
    pub units: int,
    pub scale: nat,
}

impl AmountView {
    /// The limits that every amount keeps.
    pub open spec fn within_limits(self) -> bool {
        magnitude(self.units) < pow10(MAX_DIGITS as nat) && self.scale <= MAX_SCALE
    }
}

/// Where the integer part of `b` starts: after the sign, if there is one.
pub open spec fn int_start(b: Seq<u8>) -> int {
    if b.len() > 0 && b[0] == 45 {
        1
    } else {
        0
    }
}

/// Where the integer part of `b` ends.
pub open spec fn int_end(b: Seq<u8>) -> int {
    int_start(b) + digit_run(b, int_start(b))
}

/// The digits before the point.
pub open spec fn int_digits(b: Seq<u8>) -> Seq<u8> {
    b.subrange(int_start(b), int_end(b))
}

/// The digits after the point.
pub open spec fn frac_digits(b: Seq<u8>) -> Seq<u8> {
    if int_end(b) < b.len() && b[int_end(b)] == 46 {
        b.subrange(int_end(b) + 1, int_end(b) + 1 + digit_run(b, int_end(b) + 1))
    } else {
        Seq::empty()
    }
}

/// The coefficient that `b` spells.
pub open spec fn numeral_units(b: Seq<u8>) -> int {
    let n = digits_value(int_digits(b) + frac_digits(b)) as int;
    if int_start(b) == 1 {
        -n
    } else {
        n
    }
}

/// The fault of the byte at `at`, which no numeral has there.
pub open spec fn stray_byte(b: Seq<u8>, at: int) -> MoneyError {
    if b[at] == 101 || b[at] == 69 {
        MoneyError::ExponentNotation { at: at as usize }
    } else {
        MoneyError::InvalidByte { at: at as usize }
    }
}

/// What the limits have against a coefficient and a scale. The digits are
/// reported before the scale.
pub open spec fn limit_fault(units: int, scale: nat) -> Option<MoneyError> {
    if decimal(magnitude(units)).len() > MAX_DIGITS {
        Some(MoneyError::TooManyDigits { digits: decimal(magnitude(units)).len() as usize })
    } else if scale > MAX_SCALE {
        Some(MoneyError::ScaleTooLarge { scale: scale as usize })
    } else {
        None
    }
}

/// What is wrong with `b` as an amount, `None` when nothing is.
///
/// The grammar is `-?(0|[1-9][0-9]*)(\.[0-9]+)?`. Of several faults the
/// length comes first, then the leftmost fault of the text, then a sign on
/// zero, then the limits.
pub open spec fn parse_fault(b: Seq<u8>) -> Option<MoneyError> {
    let start = int_start(b);
    let end = int_end(b);
    let last = end + 1 + frac_digits(b).len();
    if b.len() > MAX_INPUT_LEN {
        Some(MoneyError::InputTooLong { len: b.len() as usize })
    } else if b.len() == 0 {
        Some(MoneyError::Empty)
    } else if start == b.len() || b[start] == 46 {
        Some(MoneyError::MissingIntegerPart)
    } else if !is_digit(b[start]) {
        Some(MoneyError::InvalidByte { at: start as usize })
    } else if b[start] == 48 && end > start + 1 {
        Some(MoneyError::LeadingZero { at: start as usize })
    } else if end < b.len() && b[end] != 46 {
        Some(stray_byte(b, end))
    } else if end + 1 == b.len() {
        Some(MoneyError::MissingFractionDigits)
    } else if end < b.len() && last < b.len() {
        Some(stray_byte(b, last))
    } else if start == 1 && numeral_units(b) == 0 {
        Some(MoneyError::SignOnZero)
    } else {
        limit_fault(numeral_units(b), frac_digits(b).len())
    }
}

/// The canonical text of `units * 10^-scale`.
pub open spec fn format_text(units: int, scale: nat) -> Seq<char> {
    let m = decimal(magnitude(units));
    let sign = if units < 0 {
        seq!['-']
    } else {
        Seq::empty()
    };
    if scale == 0 {
        sign + m
    } else if m.len() > scale {
        let split = m.len() - scale;
        sign + m.subrange(0, split) + seq!['.'] + m.subrange(split, m.len() as int)
    } else {
        sign + seq!['0', '.'] + Seq::new((scale - m.len()) as nat, |i: int| '0') + m
    }
}

/// Counts the significant decimal digits of `n`: one for zero.
pub fn digit_count(n: &BigInteger) -> (r: usize)
    ensures
        r == decimal(magnitude(n@)).len(),
{
    let text = n.magnitude_decimal();
    proof {
        lemma_decimal(magnitude(n@));
        is_ascii_chars_encode_utf8(text@);
    }
    text.as_str().as_bytes().len()
}

/// `10^exp`.
pub fn pow_ten(exp: u8) -> (r: BigInteger)
    ensures
        r@ == pow10(exp as nat),
{
    BigInteger::from_u8(10).to_power(exp)
}

/// The coefficient of `units * 10^-from_scale` at the scale `to_scale`. A
/// smaller `to_scale` leaves the coefficient as it is.
pub fn rescale_units(units: &BigInteger, from_scale: u8, to_scale: u8) -> (r: BigInteger)
    ensures
        from_scale <= to_scale ==> r@ == units@ * pow10((to_scale - from_scale) as nat),
        from_scale > to_scale ==> r@ == units@,
{
    proof {
        crate::money::numeral::lemma_pow10_zero();
    }
    if from_scale == to_scale {
        return units.clone();
    }
    let diff = to_scale.saturating_sub(from_scale);
    let r = units.times(&pow_ten(diff));
    proof {
        assert(units@ * 1 == units@);
    }
    r
}

/// The number that a run of ASCII digits spells.
pub fn digits_to_integer(digits: &[u8]) -> (r: BigInteger)
    requires
        all_digits(digits@),
    ensures
        r@ == digits_value(digits@),
{
    let ten = BigInteger::from_u8(10);
    let mut acc = BigInteger::from_u8(0);
    let mut i: usize = 0;
    while i < digits.len()
        invariant
            i <= digits.len(),
            all_digits(digits@),
            ten@ == 10,
            acc@ == digits_value(digits@.subrange(0, i as int)),
        decreases digits.len() - i,
    {
        proof {
            assert(is_digit(digits@[i as int]));
            let next = digits@.subrange(0, i + 1);
            assert(next.drop_last() =~= digits@.subrange(0, i as int));
            assert(next.last() == digits@[i as int]);
        }
        let d = BigInteger::from_u8(digits[i] - 48);
        acc = acc.times(&ten).plus(&d);
        i = i + 1;
    }
    proof {
        assert(digits@.subrange(0, digits.len() as int) =~= digits@);
    }
    acc
}

/// Renders `units * 10^-scale`. This is the one formatting function, so the
/// wire text and the printed text are always the same.
pub fn format_decimal(units: &BigInteger, scale: u8) -> (r: String)
    ensures
        r@ == format_text(units@, scale as nat),
{
    let text = units.magnitude_decimal();
    proof {
        lemma_decimal(magnitude(units@));
        is_ascii_chars_encode_utf8(text@);
    }
    let ghost m = text@;
    let len = text.as_str().as_bytes().len();
    let scale = scale as usize;
    let mut out = String::new();
    if units.is_negative() {
        out.push('-');
    }
    let ghost sign = out@;
    proof {
        assert(sign =~= if units@ < 0 {
            seq!['-']
        } else {
            Seq::empty()
        });
    }
    if scale == 0 {
        out.append(text.as_str());
    } else if len > scale {
        let split = len - scale;
        out.append(text.as_str().substring_ascii(0, split));
        out.push('.');
        out.append(text.as_str().substring_ascii(split, len));
        proof {
            assert(out@ =~= sign + m.subrange(0, split as int) + seq!['.'] + m.subrange(
                split as int,
                len as int,
            ));
        }
    } else {
        out.push('0');
        out.push('.');
        let ghost head = sign + seq!['0', '.'];
        proof {
            assert(out@ =~= head);
        }
        let pad = scale - len;
        let mut i: usize = 0;
        while i < pad
            invariant
                i <= pad,
                out@ == head + Seq::new(i as nat, |k: int| '0'),
            decreases pad - i,
        {
            out.push('0');
            i = i + 1;
            proof {
                assert(out@ =~= head + Seq::new(i as nat, |k: int| '0'));
            }
        }
        out.append(text.as_str());
    }
    out
}

/// How many digits stand in a row in `bytes`, starting at `from`.
fn count_digits(bytes: &[u8], from: usize) -> (r: usize)
    requires
        from <= bytes.len(),
    ensures
        r == digit_run(bytes@, from as int),
        from + r <= bytes.len(),
{
    let mut to = from;
    proof {
        lemma_digit_run(bytes@, from as int);
    }
    while to < bytes.len() && 48 <= bytes[to] && bytes[to] <= 57
        invariant
            from <= to <= bytes.len(),
            forall|i: int| from <= i < to ==> is_digit(#[trigger] bytes@[i]),
        decreases bytes.len() - to,
    {
        to = to + 1;
    }
    proof {
        crate::money::numeral::lemma_digit_run_is(bytes@, from as int, to as int);
    }
    to - from
}

/// The fault of the byte at `at`.
fn stray(bytes: &[u8], at: usize) -> (r: MoneyError)
    requires
        at < bytes.len(),
    ensures
        r == stray_byte(bytes@, at as int),
{
    if bytes[at] == 101 || bytes[at] == 69 {
        MoneyError::ExponentNotation { at }
    } else {
        MoneyError::InvalidByte { at }
    }
}

/// An exact decimal amount tied to an asset.
///
/// Every live amount keeps the limits on its coefficient and its scale, so it
/// always has a text that `Amount::parse` accepts.
#[derive(Debug)]
pub struct Amount {
    asset: AssetId,
    units: BigInteger,
    scale: u8,
}

impl View for Amount {
    type V = AmountView;

    closed spec fn view(&self) -> AmountView {
        AmountView { asset: self.asset@, units: self.units@, scale: self.scale as nat }
    }
}

impl Clone for Amount {
    fn clone(&self) -> (r: Self)
        ensures
            r@ == self@,
    {
        proof {
            use_type_invariant(self);
        }
        Amount { asset: self.asset.clone(), units: self.units.clone(), scale: self.scale }
    }
}

impl Amount {
    #[verifier::type_invariant]
    spec fn limited(self) -> bool {
        self@.within_limits()
    }

    /// The one validating constructor.
    fn checked(asset: AssetId, units: BigInteger, scale: u8) -> (r: Result<Amount, MoneyError>)
        ensures
            match (r, limit_fault(units@, scale as nat)) {
                (Ok(a), None) => a@ == (AmountView {
                    asset: asset@,
                    units: units@,
                    scale: scale as nat,
                }) && a@.within_limits(),
                (Err(e), Some(f)) => e == f,
                _ => false,
            },
    {
        let digits = digit_count(&units);
        proof {
            lemma_decimal_len(magnitude(units@), MAX_DIGITS as nat);
        }
        if digits > MAX_DIGITS {
            return Err(MoneyError::TooManyDigits { digits });
        }
        if scale > MAX_SCALE {
            return Err(MoneyError::ScaleTooLarge { scale: scale as usize });
        }
        Ok(Amount { asset, units, scale })
    }

    /// Parses the canonical grammar `-?(0|[1-9][0-9]*)(\.[0-9]+)?`, total on
    /// every text.
    pub fn parse(asset: AssetId, s: &str) -> (r: Result<Amount, MoneyError>)
        ensures
            match (r, parse_fault(encode_utf8(s@))) {
                (Ok(a), None) => a@ == (AmountView {
                    asset: asset@,
                    units: numeral_units(encode_utf8(s@)),
                    scale: frac_digits(encode_utf8(s@)).len(),
                }) && a@.within_limits(),
                (Err(e), Some(f)) => e == f,
                _ => false,
            },
    {
        let bytes = s.as_bytes();
        let ghost b = encode_utf8(s@);
        if bytes.len() > MAX_INPUT_LEN {
            return Err(MoneyError::InputTooLong { len: bytes.len() });
        }
        let total = bytes.len();
        if total == 0 {
            return Err(MoneyError::Empty);
        }
        let negative = bytes[0] == 45;
        let start: usize = if negative { 1 } else { 0 };
        if start == total || bytes[start] == 46 {
            return Err(MoneyError::MissingIntegerPart);
        }
        let int_len = count_digits(bytes, start);
        if int_len == 0 {
            return Err(MoneyError::InvalidByte { at: start });
        }
        if bytes[start] == 48 && int_len > 1 {
            return Err(MoneyError::LeadingZero { at: start });
        }
        let end = start + int_len;
        let mut digits: Vec<u8> = Vec::new();
        let mut scale: usize = 0;
        proof {
            lemma_digit_run(b, start as int);
        }
        digits.extend_from_slice(&bytes[start..end]);
        proof {
            assert(digits@ =~= int_digits(b));
        }
        if end < total {
            if bytes[end] != 46 {
                return Err(stray(bytes, end));
            }
            scale = count_digits(bytes, end + 1);
            proof {
                lemma_digit_run(b, end + 1);
            }
            let last = end + 1 + scale;
            if last < total {
                return Err(stray(bytes, last));
            }
            if scale == 0 {
                return Err(MoneyError::MissingFractionDigits);
            }
            digits.extend_from_slice(&bytes[end + 1..last]);
        }
        proof {
            assert(digits@ =~= int_digits(b) + frac_digits(b));
            assert forall|i: int| 0 <= i < digits@.len() implies is_digit(#[trigger] digits@[i]) by {
                if i < int_len {
                    assert(digits@[i] == b[start + i]);
                } else {
                    assert(digits@[i] == b[end + 1 + (i - int_len)]);
                }
            }
        }
        let coefficient = digits_to_integer(digits.as_slice());
        let units = if negative { coefficient.negated() } else { coefficient };
        if negative && units.equals(&BigInteger::from_u8(0)) {
            return Err(MoneyError::SignOnZero);
        }
        Amount::checked(asset, units, scale as u8)
    }

    /// The asset this amount is denominated in.
    pub fn asset(&self) -> (r: &AssetId)
        ensures
            r@ == self@.asset,
    {
        &self.asset
    }

    /// The number of fraction digits.
    pub fn scale(&self) -> (r: u8)
        ensures
            r == self@.scale,
            r <= MAX_SCALE,
    {
        proof {
            use_type_invariant(self);
        }
        self.scale
    }

    /// The coefficient.
    pub fn units(&self) -> (r: &BigInteger)
        ensures
            r@ == self@.units,
            self@.within_limits(),
    {
        proof {
            use_type_invariant(self);
        }
        &self.units
    }

    /// Whether this amount's value is exactly zero.
    pub fn is_zero(&self) -> (r: bool)
        ensures
            r == (self@.units == 0),
    {
        self.units.equals(&BigInteger::from_u8(0))
    }

    /// The exact sum, at the larger of the two scales. Amounts of different
    /// assets do not add; a sum with more digits than the limit overflows.
    pub fn add(&self, other: &Amount) -> (r: Result<Amount, MoneyError>)
        ensures
            match r {
                Ok(a) => self@.asset == other@.asset && a@ == sum_view(self@, other@)
                    && a@.within_limits(),
                Err(e) => {
                    ||| e == MoneyError::AssetMismatch && self@.asset != other@.asset
                    ||| e == MoneyError::CoefficientOverflow && self@.asset == other@.asset
                        && !sum_view(self@, other@).within_limits()
                },
            },
    {
        proof {
            use_type_invariant(self);
            use_type_invariant(other);
        }
        if self.asset != other.asset {
            return Err(MoneyError::AssetMismatch);
        }
        let scale = larger_scale(self.scale, other.scale);
        let a = rescale_units(&self.units, self.scale, scale);
        let b = rescale_units(&other.units, other.scale, scale);
        let total = a.plus(&b);
        proof {
            lemma_decimal_len(magnitude(total@), MAX_DIGITS as nat);
        }
        match Amount::checked(self.asset.clone(), total, scale) {
            Err(MoneyError::TooManyDigits { .. }) => Err(MoneyError::CoefficientOverflow),
            other_result => other_result,
        }
    }

    /// `self - other`, by the rules of `add`.
    pub fn sub(&self, other: &Amount) -> (r: Result<Amount, MoneyError>)
        ensures
            match r {
                Ok(a) => self@.asset == other@.asset && a@ == sum_view(
                    self@,
                    negated_view(other@),
                ) && a@.within_limits(),
                Err(e) => {
                    ||| e == MoneyError::AssetMismatch && self@.asset != other@.asset
                    ||| e == MoneyError::CoefficientOverflow && self@.asset == other@.asset
                        && !sum_view(self@, negated_view(other@)).within_limits()
                },
            },
    {
        self.add(&other.neg())
    }

    /// The negation. It cannot fail: neither the digits nor the scale change.
    pub fn neg(&self) -> (r: Amount)
        ensures
            r@ == negated_view(self@),
            r@.within_limits(),
    {
        proof {
            use_type_invariant(self);
        }
        Amount { asset: self.asset.clone(), units: self.units.negated(), scale: self.scale }
    }

    /// Compares the values of two amounts of one asset.
    pub fn cmp_same_asset(&self, other: &Amount) -> (r: Result<Ordering, MoneyError>)
        ensures
            r == compared(self@, other@),
    {
        proof {
            use_type_invariant(self);
            use_type_invariant(other);
            lemma_value_at(self@, max_scale(self@.scale, other@.scale));
            lemma_value_at(other@, max_scale(self@.scale, other@.scale));
            lemma_scaled_order(self@, other@);
        }
        if self.asset != other.asset {
            return Err(MoneyError::AssetMismatch);
        }
        let scale = larger_scale(self.scale, other.scale);
        let a = rescale_units(&self.units, self.scale, scale);
        let b = rescale_units(&other.units, other.scale, scale);
        Ok(a.compare(&b))
    }

    /// Whether the two have the same asset, the same coefficient and the same
    /// scale: `1.5` and `1.50` are equal in value and differ here.
    pub fn same_repr(&self, other: &Amount) -> (r: bool)
        ensures
            r == (self@ == other@),
    {
        self.asset == other.asset && self.units.equals(&other.units) && self.scale == other.scale
    }

    /// The coefficient without trailing zeros and the scale that goes with it:
    /// the form that all texts of one value share. Any zero gives `(0, 0)`.
    pub fn normalized(&self) -> (r: (BigInteger, u8))
        ensures
            normal_form(self@, r.0@, r.1 as nat),
    {
        let mut units = self.units.clone();
        let mut scale = self.scale;
        let ten = BigInteger::from_u8(10);
        let zero = BigInteger::from_u8(0);
        proof {
            crate::money::numeral::lemma_pow10_zero();
            assert(units@ * 1 == units@);
        }
        while scale > 0
            invariant
                ten@ == 10,
                zero@ == 0,
                scale <= self.scale,
                self.units@ == units@ * pow10((self.scale - scale) as nat),
            ensures
                scale <= self.scale,
                self.units@ == units@ * pow10((self.scale - scale) as nat),
                scale == 0 || units@ % 10 != 0,
            decreases scale,
        {
            let remainder = units.remainder(&ten);
            if !remainder.equals(&zero) {
                break;
            }
            let shorter = units.divided_by(&ten);
            proof {
                let k = (self.scale - scale) as nat;
                crate::money::numeral::lemma_pow10_step(k);
                let u = shorter@;
                let p = pow10(k);
                assert(units@ == 10 * u);
                assert((10 * u) * p == u * (10 * p)) by (nonlinear_arith);
                assert((self.scale - (scale - 1)) as nat == k + 1);
            }
            units = shorter;
            scale = scale - 1;
        }
        (units, scale)
    }

    /// The decimal text, the same as the wire's.
    pub fn to_string(&self) -> (r: String)
        ensures
            r@ == format_text(self@.units, self@.scale),
    {
        format_decimal(&self.units, self.scale)
    }
}

/// The larger of two scales.
fn larger_scale(a: u8, b: u8) -> (r: u8)
    ensures
        r == max_scale(a as nat, b as nat),
{
    if a >= b {
        a
    } else {
        b
    }
}

/// The larger of two scales.
pub open spec fn max_scale(a: nat, b: nat) -> nat {
    if a >= b {
        a
    } else {
        b
    }
}

/// The coefficient of `a` at the scale `scale`, which is at least its own.
pub open spec fn units_at(a: AmountView, scale: nat) -> int {
    a.units * pow10((scale - a.scale) as nat)
}

/// The value of an amount, counted in `10^-MAX_SCALE`: exact for every amount.
pub open spec fn value(a: AmountView) -> int {
    units_at(a, MAX_SCALE as nat)
}

/// The exact sum of two amounts of one asset, at the larger scale.
pub open spec fn sum_view(a: AmountView, b: AmountView) -> AmountView {
    let scale = max_scale(a.scale, b.scale);
    AmountView { asset: a.asset, units: units_at(a, scale) + units_at(b, scale), scale }
}

/// The negation of an amount.
pub open spec fn negated_view(a: AmountView) -> AmountView {
    AmountView { asset: a.asset, units: -a.units, scale: a.scale }
}

/// Whether two amounts of one asset have the same value.
pub open spec fn same_value(a: AmountView, b: AmountView) -> bool {
    a.asset == b.asset && value(a) == value(b)
}

/// Whether two amounts are of one asset and the first has the lower value.
pub open spec fn lower_value(a: AmountView, b: AmountView) -> bool {
    a.asset == b.asset && value(a) < value(b)
}

/// The order of two amounts: that of their values within one asset, and a
/// mismatch across two.
pub open spec fn compared(a: AmountView, b: AmountView) -> Result<Ordering, MoneyError> {
    if a.asset != b.asset {
        Err(MoneyError::AssetMismatch)
    } else if lower_value(a, b) {
        Ok(Ordering::Less)
    } else if same_value(a, b) {
        Ok(Ordering::Equal)
    } else {
        Ok(Ordering::Greater)
    }
}

/// A coefficient at a larger scale counts the same value.
proof fn lemma_value_at(a: AmountView, scale: nat)
    requires
        a.scale <= scale <= MAX_SCALE,
    ensures
        value(a) == units_at(a, scale) * pow10((MAX_SCALE - scale) as nat),
{
    let j = (scale - a.scale) as nat;
    let k = (MAX_SCALE - scale) as nat;
    crate::money::numeral::lemma_pow10_sum(j, k);
    assert((MAX_SCALE - a.scale) as nat == j + k);
    let (u, p, q) = (a.units, pow10(j), pow10(k));
    assert(u * (p * q) == (u * p) * q) by (nonlinear_arith);
}

/// Two coefficients at one scale are ordered as the values are.
proof fn lemma_scaled_order(a: AmountView, b: AmountView)
    requires
        a.scale <= MAX_SCALE,
        b.scale <= MAX_SCALE,
    ensures
        ({
            let m = max_scale(a.scale, b.scale);
            &&& units_at(a, m) < units_at(b, m) <==> value(a) < value(b)
            &&& units_at(a, m) == units_at(b, m) <==> value(a) == value(b)
        }),
{
    let m = max_scale(a.scale, b.scale);
    lemma_value_at(a, m);
    lemma_value_at(b, m);
    crate::money::numeral::lemma_pow10_step((MAX_SCALE - m) as nat);
    let (x, y, p) = (units_at(a, m), units_at(b, m), pow10((MAX_SCALE - m) as nat));
    assert(x < y <==> x * p < y * p) by (nonlinear_arith)
        requires
            p > 0,
    ;
    assert(x == y <==> x * p == y * p) by (nonlinear_arith)
        requires
            p > 0,
    ;
}

impl PartialEq for Amount {
    /// Equality of value: `1.5 == 1.50`. Amounts of two assets are never equal.
    fn eq(&self, other: &Self) -> (r: bool) {
        match self.cmp_same_asset(other) {
            Ok(Ordering::Equal) => true,
            _ => false,
        }
    }
}

impl vstd::std_specs::cmp::PartialEqSpecImpl for Amount {
    open spec fn obeys_eq_spec() -> bool {
        true
    }

    open spec fn eq_spec(&self, other: &Self) -> bool {
        same_value(self@, other@)
    }
}

impl Eq for Amount {

}

/// Whether `(units, scale)` is the normalized form of `a`.
pub open spec fn normal_form(a: AmountView, units: int, scale: nat) -> bool {
    &&& scale <= a.scale
    &&& a.units == units * pow10((a.scale - scale) as nat)
    &&& scale == 0 || units % 10 != 0
}

/// Whether a text is that of an amount's normalized form.
pub open spec fn is_normal_text(a: AmountView, text: Seq<char>) -> bool {
    exists|units: int, scale: nat|
        #[trigger] normal_form(a, units, scale) && text == format_text(units, scale)
}

impl Amount {
    /// The text of the normalized form: what a hash is taken of, beside the
    /// asset.
    pub fn normal_text(&self) -> (r: String)
        ensures
            is_normal_text(self@, r@),
    {
        let (units, scale) = self.normalized();
        format_decimal(&units, scale)
    }
}

impl std::hash::Hash for Amount {
    /// Hashes the asset and the text of the normalized form, so that amounts
    /// that are equal in value hash alike.
    fn hash<H: std::hash::Hasher>(&self, state: &mut H) {
        self.asset.as_str().hash(state);
        self.normal_text().as_str().hash(state);
    }
}

impl PartialOrd for Amount {
    /// The order of value; `None` when the assets differ.
    fn partial_cmp(&self, other: &Self) -> (r: Option<Ordering>) {
        match self.cmp_same_asset(other) {
            Ok(order) => Some(order),
            Err(_) => None,
        }
    }
}

impl vstd::std_specs::cmp::PartialOrdSpecImpl for Amount {
    open spec fn obeys_partial_cmp_spec() -> bool {
        true
    }

    open spec fn partial_cmp_spec(&self, other: &Self) -> Option<Ordering> {
        match compared(self@, other@) {
            Ok(order) => Some(order),
            Err(_) => None,
        }
    }
}

/// The wire shape of an amount: two strings.
#[derive(Debug)]
pub struct AmountWire {
    pub asset: String,
    pub amount: String,
}

impl Amount {
    /// Reads the wire shape: the asset is checked first, then the amount.
    pub fn from_wire(wire: &AmountWire) -> (r: Result<Amount, MoneyError>)
        ensures
            match r {
                Ok(a) => asset_id_fault(wire.asset@, None) && parse_fault(
                    encode_utf8(wire.amount@),
                ) is None && a@ == (AmountView {
                    asset: wire.asset@,
                    units: numeral_units(encode_utf8(wire.amount@)),
                    scale: frac_digits(encode_utf8(wire.amount@)).len(),
                }),
                Err(e) => {
                    ||| asset_id_fault(wire.asset@, Some(e))
                    ||| asset_id_fault(wire.asset@, None) && parse_fault(encode_utf8(wire.amount@))
                        == Some(e)
                },
            },
    {
        match AssetId::new(wire.asset.as_str()) {
            Ok(asset) => Amount::parse(asset, wire.amount.as_str()),
            Err(e) => Err(e),
        }
    }

    /// Writes the wire shape. It is always one that `from_wire` reads back to
    /// the same amount.
    pub fn to_wire(&self) -> (r: AmountWire)
        ensures
            r.asset@ == self@.asset,
            r.amount@ == format_text(self@.units, self@.scale),
            asset_id_fault(r.asset@, None),
            parse_fault(encode_utf8(r.amount@)) is None,
            numeral_units(encode_utf8(r.amount@)) == self@.units,
            frac_digits(encode_utf8(r.amount@)).len() == self@.scale,
    {
        proof {
            use_type_invariant(self);
            crate::money::laws::law_printed_amount_parses_to_itself(self@);
        }
        AmountWire { asset: self.asset.as_str().to_owned(), amount: self.to_string() }
    }
}

} // verus!
