//! What holds of amounts as a whole: text and amount determine each other,
//! and arithmetic, order and equality are those of the exact values.

use crate::money::amount::{
    compared, format_text, frac_digits, int_digits, int_end, int_start, is_normal_text, lower_value,
    max_scale, negated_view, normal_form, numeral_units, parse_fault, same_value, sum_view, units_at,
    value, AmountView,
};
use crate::money::error::MoneyError;
use crate::money::integer::magnitude;
use crate::money::numeral::{
    all_digits, ascii, digit_run, digits_value, is_digit, lemma_decimal, lemma_decimal_len,
    lemma_digit_run, lemma_digit_run_is, lemma_digits_concat, lemma_digits_padded, lemma_pow10_step,
    lemma_pow10_sum, lemma_pow10_zero, lemma_zeros_value, pow10, zeros,
};
use crate::money::{MAX_DIGITS, MAX_INPUT_LEN, MAX_SCALE};
use crate::text::decimal;
use std::cmp::Ordering;
use vstd::prelude::*;
use vstd::utf8::{
    encode_utf8, encode_utf8_decode_utf8, is_ascii_chars, is_ascii_chars_encode_utf8,
};

verus! {

/// The text of a sign, the digits before the point and the digits after it.
pub open spec fn numeral_text(negative: bool, whole: Seq<u8>, frac: Seq<u8>) -> Seq<u8> {
    let sign = if negative {
        seq![45u8]
    } else {
        Seq::empty()
    };
    if frac.len() == 0 {
        sign + whole
    } else {
        sign + whole + seq![46u8] + frac
    }
}

/// Whether the parts make a numeral: at least one digit before the point, and
/// no zero in front of another digit there.
pub open spec fn numeral_parts(whole: Seq<u8>, frac: Seq<u8>) -> bool {
    &&& whole.len() > 0
    &&& all_digits(whole)
    &&& all_digits(frac)
    &&& whole[0] == 48 ==> whole.len() == 1
}

/// Parts that make a numeral are found again in its text.
proof fn lemma_parts_found(negative: bool, whole: Seq<u8>, frac: Seq<u8>)
    requires
        numeral_parts(whole, frac),
    ensures
        ({
            let b = numeral_text(negative, whole, frac);
            &&& int_start(b) == if negative {
                1int
            } else {
                0int
            }
            &&& int_end(b) == int_start(b) + whole.len()
            &&& int_digits(b) == whole
            &&& frac_digits(b) == frac
            &&& b.len() == int_end(b) + if frac.len() == 0 {
                0
            } else {
                1 + frac.len()
            }
            &&& b[int_start(b)] == whole[0]
            &&& frac.len() > 0 ==> b[int_end(b)] == 46
        }),
{
    let b = numeral_text(negative, whole, frac);
    let s: int = if negative {
        1
    } else {
        0
    };
    let e = s + whole.len();
    assert(is_digit(whole[0]));
    assert(b[s] == whole[0]);
    assert forall|i: int| s <= i < e implies is_digit(#[trigger] b[i]) by {
        assert(b[i] == whole[i - s]);
    }
    if frac.len() > 0 {
        assert(b[e] == 46);
        assert forall|i: int| e + 1 <= i < b.len() implies is_digit(#[trigger] b[i]) by {
            assert(b[i] == frac[i - e - 1]);
        }
        lemma_digit_run_is(b, e + 1, b.len() as int);
    }
    lemma_digit_run_is(b, s, e);
    assert(int_digits(b) =~= whole);
    assert(frac_digits(b) =~= frac);
}

/// An accepted text is the numeral of its own parts.
proof fn lemma_parts_of_accepted(b: Seq<u8>)
    requires
        parse_fault(b) is None,
    ensures
        numeral_parts(int_digits(b), frac_digits(b)),
        b == numeral_text(int_start(b) == 1, int_digits(b), frac_digits(b)),
{
    let s = int_start(b);
    let e = int_end(b);
    lemma_digit_run(b, s);
    let whole = int_digits(b);
    let frac = frac_digits(b);
    assert(digit_run(b, s) >= 1);
    assert(whole[0] == b[s]);
    assert forall|i: int| 0 <= i < whole.len() implies is_digit(#[trigger] whole[i]) by {
        assert(whole[i] == b[s + i]);
    }
    if e < b.len() {
        lemma_digit_run(b, e + 1);
        assert forall|i: int| 0 <= i < frac.len() implies is_digit(#[trigger] frac[i]) by {
            assert(frac[i] == b[e + 1 + i]);
        }
    }
    assert(b =~= numeral_text(s == 1, whole, frac));
}

/// The grammar: a text is accepted exactly when it is a sign, an integer part
/// without a redundant zero and an optional fraction, it is no signed zero,
/// and its length, digits and scale keep the limits.
pub proof fn law_accepted_is_the_grammar(b: Seq<u8>)
    ensures
        parse_fault(b) is None <==> exists|negative: bool, whole: Seq<u8>, frac: Seq<u8>|
            {
                &&& b == #[trigger] numeral_text(negative, whole, frac)
                &&& numeral_parts(whole, frac)
                &&& !(negative && digits_value(whole + frac) == 0)
                &&& b.len() <= MAX_INPUT_LEN
                &&& digits_value(whole + frac) < pow10(MAX_DIGITS as nat)
                &&& frac.len() <= MAX_SCALE
            },
{
    if parse_fault(b) is None {
        lemma_parts_of_accepted(b);
        lemma_decimal_len(magnitude(numeral_units(b)), MAX_DIGITS as nat);
        let (negative, whole, frac) = (int_start(b) == 1, int_digits(b), frac_digits(b));
        assert(magnitude(numeral_units(b)) == digits_value(whole + frac));
        assert(b == numeral_text(negative, whole, frac));
    }
    if exists|negative: bool, whole: Seq<u8>, frac: Seq<u8>|
        {
            &&& b == #[trigger] numeral_text(negative, whole, frac)
            &&& numeral_parts(whole, frac)
            &&& !(negative && digits_value(whole + frac) == 0)
            &&& b.len() <= MAX_INPUT_LEN
            &&& digits_value(whole + frac) < pow10(MAX_DIGITS as nat)
            &&& frac.len() <= MAX_SCALE
        } {
        let (negative, whole, frac) = choose|negative: bool, whole: Seq<u8>, frac: Seq<u8>|
            {
                &&& b == #[trigger] numeral_text(negative, whole, frac)
                &&& numeral_parts(whole, frac)
                &&& !(negative && digits_value(whole + frac) == 0)
                &&& b.len() <= MAX_INPUT_LEN
                &&& digits_value(whole + frac) < pow10(MAX_DIGITS as nat)
                &&& frac.len() <= MAX_SCALE
            };
        lemma_parts_found(negative, whole, frac);
        assert(is_digit(whole[0]));
        lemma_decimal_len(digits_value(whole + frac), MAX_DIGITS as nat);
        assert(magnitude(numeral_units(b)) == digits_value(whole + frac));
    }
}

/// The canonical text, as bytes, is the numeral of these parts.
proof fn lemma_format_parts(units: int, scale: nat) -> (parts: (Seq<u8>, Seq<u8>))
    ensures
        is_ascii_chars(format_text(units, scale)),
        encode_utf8(format_text(units, scale)) == ascii(format_text(units, scale)),
        ascii(format_text(units, scale)) == numeral_text(units < 0, parts.0, parts.1),
        numeral_parts(parts.0, parts.1),
        parts.1.len() == scale,
        digits_value(parts.0 + parts.1) == magnitude(units),
        parts.0.len() <= decimal(magnitude(units)).len(),
{
    let n = magnitude(units);
    let m = decimal(n);
    let f = format_text(units, scale);
    let d = ascii(m);
    lemma_decimal(n);
    assert forall|i: int| 0 <= i < f.len() implies (#[trigger] f[i]) as u32 <= 127 by {
        let off: int = if units < 0 {
            1
        } else {
            0
        };
        if i >= off {
            let j = i - off;
            if scale == 0 {
                assert(f[i] == m[j]);
            } else if m.len() > scale {
                let split = m.len() - scale;
                if j < split {
                    assert(f[i] == m[j]);
                } else if j > split {
                    assert(f[i] == m[j - 1]);
                }
            } else {
                if j >= 2 + scale - m.len() {
                    assert(f[i] == m[j - 2 - (scale - m.len())]);
                }
            }
        }
    }
    is_ascii_chars_encode_utf8(f);
    assert(encode_utf8(f) =~= ascii(f));
    if scale == 0 {
        let parts = (d, Seq::<u8>::empty());
        assert(parts.0 + parts.1 =~= d);
        assert(ascii(f) =~= numeral_text(units < 0, parts.0, parts.1));
        parts
    } else if m.len() > scale {
        let split = m.len() - scale;
        let parts = (d.subrange(0, split), d.subrange(split, d.len() as int));
        assert(parts.0 + parts.1 =~= d);
        assert forall|i: int| 0 <= i < parts.0.len() implies is_digit(#[trigger] parts.0[i]) by {
            assert(parts.0[i] == d[i]);
        }
        assert forall|i: int| 0 <= i < parts.1.len() implies is_digit(#[trigger] parts.1[i]) by {
            assert(parts.1[i] == d[split + i]);
        }
        assert(ascii(f) =~= numeral_text(units < 0, parts.0, parts.1));
        assert(n > 0);
        parts
    } else {
        let pad = (scale - m.len()) as nat;
        let parts = (seq![48u8], zeros(pad) + d);
        lemma_zeros_value(pad, d);
        lemma_zeros_value(pad + 1, d);
        assert(parts.0 + parts.1 =~= zeros(pad + 1) + d);
        assert(ascii(f) =~= numeral_text(units < 0, parts.0, parts.1));
        parts
    }
}

/// What is printed is read back: the text of every amount parses, to the same
/// coefficient and the same scale.
pub proof fn law_printed_amount_parses_to_itself(a: AmountView)
    requires
        a.within_limits(),
    ensures
        parse_fault(encode_utf8(format_text(a.units, a.scale))) is None,
        numeral_units(encode_utf8(format_text(a.units, a.scale))) == a.units,
        frac_digits(encode_utf8(format_text(a.units, a.scale))).len() == a.scale,
{
    let (whole, frac) = lemma_format_parts(a.units, a.scale);
    let b = encode_utf8(format_text(a.units, a.scale));
    lemma_parts_found(a.units < 0, whole, frac);
    lemma_decimal_len(magnitude(a.units), MAX_DIGITS as nat);
    assert(b.len() <= 1 + whole.len() + 1 + frac.len());
    law_accepted_is_the_grammar(b);
    assert(b == numeral_text(a.units < 0, whole, frac));
}

/// What is read is printed back: a text that parses is byte for byte the text
/// of the amount it parses to.
pub proof fn law_parsed_text_prints_as_itself(s: Seq<char>)
    requires
        parse_fault(encode_utf8(s)) is None,
    ensures
        format_text(numeral_units(encode_utf8(s)), frac_digits(encode_utf8(s)).len()) == s,
{
    let b = encode_utf8(s);
    let u = numeral_units(b);
    let whole = int_digits(b);
    let frac = frac_digits(b);
    lemma_parts_of_accepted(b);
    let (fi, ff) = lemma_format_parts(u, frac.len());
    let f = format_text(u, frac.len());
    assert(magnitude(u) == digits_value(whole + frac));
    // Both are splits, at the same place, of digit strings that spell the same number.
    lemma_same_parts(whole, frac, fi, ff);
    assert((u < 0) == (int_start(b) == 1));
    assert(encode_utf8(f) == b);
    encode_utf8_decode_utf8(s);
    encode_utf8_decode_utf8(f);
}

/// Two numerals with one value and one scale have the same parts.
proof fn lemma_same_parts(i1: Seq<u8>, f1: Seq<u8>, i2: Seq<u8>, f2: Seq<u8>)
    requires
        numeral_parts(i1, f1),
        numeral_parts(i2, f2),
        f1.len() == f2.len(),
        digits_value(i1 + f1) == digits_value(i2 + f2),
    ensures
        i1 == i2,
        f1 == f2,
{
    lemma_digits_concat(i1, f1);
    lemma_digits_concat(i2, f2);
    lemma_value_below(f1);
    lemma_value_below(f2);
    let (x1, y1) = (digits_value(i1) as int, digits_value(f1) as int);
    let (x2, y2) = (digits_value(i2) as int, digits_value(f2) as int);
    let p = pow10(f1.len());
    assert(x1 == x2 && y1 == y2) by (nonlinear_arith)
        requires
            x1 * p + y1 == x2 * p + y2,
            0 <= y1 < p,
            0 <= y2 < p,
            0 <= x1,
            0 <= x2,
    ;
    lemma_no_redundant_zero(i1);
    lemma_no_redundant_zero(i2);
    if f1.len() > 0 {
        lemma_digits_padded(f1);
        lemma_digits_padded(f2);
    } else {
        assert(f1 =~= f2);
    }
}

/// An integer part is the canonical numeral of its number.
proof fn lemma_no_redundant_zero(whole: Seq<u8>)
    requires
        numeral_parts(whole, Seq::empty()),
    ensures
        whole == ascii(decimal(digits_value(whole))),
{
    lemma_digits_padded(whole);
    let d = ascii(decimal(digits_value(whole)));
    let pad = (whole.len() - d.len()) as nat;
    lemma_decimal(digits_value(whole));
    if pad > 0 {
        assert(whole[0] == zeros(pad)[0]);
    }
    assert(whole =~= d);
}

/// `k` digits spell a number below `10^k`.
proof fn lemma_value_below(s: Seq<u8>)
    requires
        all_digits(s),
    ensures
        digits_value(s) < pow10(s.len()),
    decreases s.len(),
{
    lemma_pow10_zero();
    if s.len() > 0 {
        let t = s.drop_last();
        assert forall|i: int| 0 <= i < t.len() implies is_digit(#[trigger] t[i]) by {
            assert(t[i] == s[i]);
        }
        lemma_value_below(t);
        lemma_pow10_step(t.len());
        assert(is_digit(s.last()));
    }
}

/// `units_at` a larger scale, in two steps.
proof fn lemma_units_at_steps(a: AmountView, j: nat, k: nat)
    requires
        a.scale <= j <= k,
    ensures
        units_at(a, k) == units_at(a, j) * pow10((k - j) as nat),
{
    lemma_pow10_sum((j - a.scale) as nat, (k - j) as nat);
    assert((k - a.scale) as nat == (j - a.scale) as nat + (k - j) as nat);
    let (u, p, q) = (a.units, pow10((j - a.scale) as nat), pow10((k - j) as nat));
    assert(u * (p * q) == (u * p) * q) by (nonlinear_arith);
}

/// The coefficient of a sum at a scale that neither operand exceeds.
proof fn lemma_sum_units_at(a: AmountView, b: AmountView, k: nat)
    requires
        max_scale(a.scale, b.scale) <= k,
    ensures
        units_at(sum_view(a, b), k) == units_at(a, k) + units_at(b, k),
{
    let m = max_scale(a.scale, b.scale);
    lemma_units_at_steps(a, m, k);
    lemma_units_at_steps(b, m, k);
    let (x, y, p) = (units_at(a, m), units_at(b, m), pow10((k - m) as nat));
    assert((x + y) * p == x * p + y * p) by (nonlinear_arith);
}

/// A sum has the sum of the values: nothing is rounded.
pub proof fn law_sum_is_exact(a: AmountView, b: AmountView)
    requires
        a.scale <= MAX_SCALE,
        b.scale <= MAX_SCALE,
    ensures
        value(sum_view(a, b)) == value(a) + value(b),
        sum_view(a, b).scale <= MAX_SCALE,
{
    lemma_sum_units_at(a, b, MAX_SCALE as nat);
}

/// The order of two operands of one asset does not matter.
pub proof fn law_sum_is_commutative(a: AmountView, b: AmountView)
    requires
        a.asset == b.asset,
    ensures
        sum_view(a, b) == sum_view(b, a),
{
}

/// How three operands are grouped does not matter, down to the representation.
pub proof fn law_sum_is_associative(a: AmountView, b: AmountView, c: AmountView)
    ensures
        sum_view(sum_view(a, b), c) == sum_view(a, sum_view(b, c)),
{
    let m = max_scale(max_scale(a.scale, b.scale), c.scale);
    lemma_sum_units_at(a, b, m);
    lemma_sum_units_at(b, c, m);
}

/// Subtracting what was added gives the value back.
pub proof fn law_subtraction_undoes_addition(a: AmountView, b: AmountView)
    requires
        a.asset == b.asset,
        a.scale <= MAX_SCALE,
        b.scale <= MAX_SCALE,
    ensures
        same_value(sum_view(sum_view(a, b), negated_view(b)), a),
{
    law_sum_is_exact(a, b);
    law_sum_is_exact(sum_view(a, b), negated_view(b));
    law_negation_is_exact(b);
}

/// Negation turns the value's sign around, undoes itself, and cancels.
pub proof fn law_negation_is_exact(a: AmountView)
    ensures
        value(negated_view(a)) == -value(a),
        negated_view(negated_view(a)) == a,
        sum_view(a, negated_view(a)).units == 0,
        a.within_limits() ==> negated_view(a).within_limits(),
{
    let (u, p) = (a.units, pow10((MAX_SCALE - a.scale) as nat));
    assert((-u) * p == -(u * p)) by (nonlinear_arith);
    let q = pow10(0);
    assert((-u) * q == -(u * q)) by (nonlinear_arith);
}

/// Within one asset the order is total, antisymmetric up to value and
/// transitive, and it agrees with the sign of the difference.
pub proof fn law_order_is_total(a: AmountView, b: AmountView, c: AmountView)
    requires
        a.asset == b.asset,
        b.asset == c.asset,
        a.scale <= MAX_SCALE,
        b.scale <= MAX_SCALE,
    ensures
        lower_value(a, b) || lower_value(b, a) || same_value(a, b),
        !(lower_value(a, b) && (lower_value(b, a) || same_value(a, b))),
        lower_value(a, b) && lower_value(b, c) ==> lower_value(a, c),
        same_value(a, b) && same_value(b, c) ==> same_value(a, c),
        lower_value(a, b) <==> sum_view(a, negated_view(b)).units < 0,
        same_value(a, b) <==> sum_view(a, negated_view(b)).units == 0,
{
    law_sum_is_exact(a, negated_view(b));
    law_negation_is_exact(b);
    let d = sum_view(a, negated_view(b));
    lemma_pow10_step((MAX_SCALE - d.scale) as nat);
    let (u, p) = (d.units, pow10((MAX_SCALE - d.scale) as nat));
    assert(u < 0 <==> u * p < 0) by (nonlinear_arith)
        requires
            p > 0,
    ;
    assert(u == 0 <==> u * p == 0) by (nonlinear_arith)
        requires
            p > 0,
    ;
}

/// Amounts of two assets never compare, whatever they hold.
pub proof fn law_assets_do_not_mix(a: AmountView, b: AmountView)
    requires
        a.asset != b.asset,
    ensures
        compared(a, b) == Err::<Ordering, MoneyError>(MoneyError::AssetMismatch),
        !same_value(a, b),
        !lower_value(a, b),
{
}

/// Amounts are equal in value exactly when their normalized forms are the
/// same, so what is computed from the normalized form agrees with equality.
pub proof fn law_equal_values_share_one_normal_form(
    a: AmountView,
    ua: int,
    sa: nat,
    b: AmountView,
    ub: int,
    sb: nat,
)
    requires
        a.asset == b.asset,
        a.scale <= MAX_SCALE,
        b.scale <= MAX_SCALE,
        normal_form(a, ua, sa),
        normal_form(b, ub, sb),
    ensures
        same_value(a, b) <==> (ua == ub && sa == sb),
{
    let na = AmountView { asset: a.asset, units: ua, scale: sa };
    let nb = AmountView { asset: b.asset, units: ub, scale: sb };
    lemma_units_at_steps(na, a.scale, MAX_SCALE as nat);
    lemma_units_at_steps(nb, b.scale, MAX_SCALE as nat);
    assert(value(na) == value(a));
    assert(value(nb) == value(b));
    if value(na) == value(nb) {
        if sa < sb {
            lemma_shorter_divides(na, nb);
        } else if sb < sa {
            lemma_shorter_divides(nb, na);
        } else {
            lemma_pow10_step((MAX_SCALE - sa) as nat);
            let p = pow10((MAX_SCALE - sa) as nat);
            assert(ua == ub) by (nonlinear_arith)
                requires
                    ua * p == ub * p,
                    p > 0,
            ;
        }
    }
}

/// Amounts that are equal in value hash alike: a hash is taken of the asset and
/// of the text of the normalized form, and both are the same.
pub proof fn law_equal_amounts_hash_alike(
    a: AmountView,
    text_a: Seq<char>,
    b: AmountView,
    text_b: Seq<char>,
)
    requires
        a.scale <= MAX_SCALE,
        b.scale <= MAX_SCALE,
        same_value(a, b),
        is_normal_text(a, text_a),
        is_normal_text(b, text_b),
    ensures
        a.asset == b.asset,
        text_a == text_b,
{
    let (ua, sa) = choose|units: int, scale: nat|
        #[trigger] normal_form(a, units, scale) && text_a == format_text(units, scale);
    let (ub, sb) = choose|units: int, scale: nat|
        #[trigger] normal_form(b, units, scale) && text_b == format_text(units, scale);
    law_equal_values_share_one_normal_form(a, ua, sa, b, ub, sb);
}

/// Of two coefficients with one value, the one at the larger scale ends in a zero.
proof fn lemma_shorter_divides(a: AmountView, b: AmountView)
    requires
        a.scale < b.scale <= MAX_SCALE,
        value(a) == value(b),
    ensures
        b.units % 10 == 0,
{
    let k = (b.scale - a.scale) as nat;
    lemma_units_at_steps(a, b.scale, MAX_SCALE as nat);
    lemma_pow10_step((MAX_SCALE - b.scale) as nat);
    lemma_pow10_step((k - 1) as nat);
    let (u, v, p, q) = (
        units_at(a, b.scale),
        b.units,
        pow10((MAX_SCALE - b.scale) as nat),
        pow10((k - 1) as nat),
    );
    assert(u == v) by (nonlinear_arith)
        requires
            u * p == v * p,
            p > 0,
    ;
    let w = a.units;
    assert(w * (10 * q) == 10 * (w * q)) by (nonlinear_arith);
    assert(v == 10 * (w * q));
}

/// Every sum that is handed out can be printed and read back.
pub proof fn law_sum_survives_the_wire(a: AmountView, b: AmountView)
    requires
        sum_view(a, b).within_limits(),
    ensures
        parse_fault(
            encode_utf8(format_text(sum_view(a, b).units, sum_view(a, b).scale)),
        ) is None,
        numeral_units(encode_utf8(format_text(sum_view(a, b).units, sum_view(a, b).scale)))
            == sum_view(a, b).units,
{
    law_printed_amount_parses_to_itself(sum_view(a, b));
}

} // verus!
