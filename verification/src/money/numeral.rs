//! Decimal numerals as byte strings: what they spell, and how they relate to
//! the canonical numeral of a natural number.

use crate::text::{decimal, digit_char, padded};
use vstd::arithmetic::power::{lemma_pow1, lemma_pow_adds, lemma_pow_positive, pow};
use vstd::prelude::*;

verus! {

/// `10^k`.
pub open spec fn pow10(k: nat) -> int {
    pow(10, k)
}

/// Whether `b` is an ASCII decimal digit.
pub open spec fn is_digit(b: u8) -> bool {
    48 <= b <= 57
}

/// Whether every byte is an ASCII decimal digit.
pub open spec fn all_digits(s: Seq<u8>) -> bool {
    forall|i: int| 0 <= i < s.len() ==> is_digit(#[trigger] s[i])
}

/// The number that a run of ASCII digits spells, most significant first.
pub open spec fn digits_value(s: Seq<u8>) -> nat
    decreases s.len(),
{
    if s.len() == 0 {
        0
    } else {
        (digits_value(s.drop_last()) * 10 + (s.last() - 48)) as nat
    }
}

/// How many digits stand in a row in `s`, starting at index `from`.
pub open spec fn digit_run(s: Seq<u8>, from: int) -> nat
    decreases s.len() - from,
{
    if 0 <= from < s.len() && is_digit(s[from]) {
        1 + digit_run(s, from + 1)
    } else {
        0
    }
}

/// The bytes of a text made of ASCII characters.
pub open spec fn ascii(s: Seq<char>) -> Seq<u8> {
    Seq::new(s.len(), |i: int| s[i] as u8)
}

/// `n` zeros.
pub open spec fn zeros(n: nat) -> Seq<u8> {
    Seq::new(n, |i: int| 48u8)
}

pub proof fn lemma_pow10_step(k: nat)
    ensures
        pow10(k + 1) == 10 * pow10(k),
        pow10(k) > 0,
{
    lemma_pow_positive(10, k);
    lemma_pow_adds(10, 1, k);
    lemma_pow1(10);
    assert(1 + k == k + 1);
}

pub proof fn lemma_pow10_zero()
    ensures
        pow10(0) == 1,
{
    vstd::arithmetic::power::lemma_pow0(10);
}

pub proof fn lemma_pow10_sum(j: nat, k: nat)
    ensures
        pow10(j + k) == pow10(j) * pow10(k),
        pow10(k) > 0,
{
    lemma_pow_adds(10, j, k);
    lemma_pow_positive(10, k);
}

pub proof fn lemma_pow10_monotone(j: nat, k: nat)
    requires
        j <= k,
    ensures
        0 < pow10(j) <= pow10(k),
    decreases k,
{
    lemma_pow_positive(10, j);
    if j < k {
        lemma_pow10_step((k - 1) as nat);
        lemma_pow10_monotone(j, (k - 1) as nat);
    }
}

/// The canonical numeral is made of digits, does not start with a zero unless
/// it is `"0"`, and spells its number.
pub proof fn lemma_decimal(n: nat)
    ensures
        decimal(n).len() >= 1,
        all_digits(ascii(decimal(n))),
        forall|i: int| 0 <= i < decimal(n).len() ==> '0' <= #[trigger] decimal(n)[i] <= '9',
        vstd::utf8::is_ascii_chars(decimal(n)),
        n > 0 ==> ascii(decimal(n))[0] != 48,
        n == 0 ==> decimal(n) == seq!['0'],
        digits_value(ascii(decimal(n))) == n,
    decreases n,
{
    let d = ascii(decimal(n));
    if n < 10 {
        assert(decimal(n) =~= seq![digit_char(n)]);
        assert(d =~= seq![(48 + n) as u8]);
        assert(d.drop_last() =~= Seq::<u8>::empty());
        assert(digits_value(d.drop_last()) == 0);
    } else {
        lemma_decimal(n / 10);
        let init = decimal(n / 10);
        assert(decimal(n) == init.push(digit_char(n % 10)));
        assert(d =~= ascii(init).push((48 + n % 10) as u8));
        assert(d.drop_last() =~= ascii(init));
        assert(d[0] == ascii(init)[0]);
    }
    assert(vstd::utf8::is_ascii_chars(decimal(n))) by {
        assert forall|i: int| 0 <= i < decimal(n).len() implies '0' <= #[trigger] decimal(n)[i]
            <= '9' by {
            if n >= 10 && i < decimal(n / 10).len() {
                assert(decimal(n)[i] == decimal(n / 10)[i]);
            }
        }
    }
}

/// A numeral has at most `k` digits exactly when the number is below `10^k`.
pub proof fn lemma_decimal_len(n: nat, k: nat)
    requires
        k >= 1,
    ensures
        decimal(n).len() <= k <==> n < pow10(k),
    decreases k,
{
    lemma_pow10_zero();
    lemma_pow10_step(0);
    lemma_pow10_step((k - 1) as nat);
    lemma_pow10_monotone(1, k);
    lemma_decimal(n);
    if n >= 10 {
        lemma_decimal(n / 10);
        if k > 1 {
            lemma_decimal_len(n / 10, (k - 1) as nat);
        }
    }
}

/// A run of digits is the canonical numeral of its number, padded with zeros.
pub proof fn lemma_digits_padded(s: Seq<u8>)
    requires
        s.len() >= 1,
        all_digits(s),
    ensures
        ({
            let d = ascii(decimal(digits_value(s)));
            &&& d.len() <= s.len()
            &&& s == zeros((s.len() - d.len()) as nat) + d
        }),
    decreases s.len(),
{
    let t = s.drop_last();
    let last = (s.last() - 48) as nat;
    let n = digits_value(s);
    let d = ascii(decimal(n));
    if t.len() == 0 {
        assert(digits_value(t) == 0);
        assert(n == last);
        assert(decimal(n) =~= seq![digit_char(n)]);
        assert(s =~= zeros(0) + d);
    } else {
        assert(all_digits(t)) by {
            assert forall|i: int| 0 <= i < t.len() implies is_digit(#[trigger] t[i]) by {
                assert(t[i] == s[i]);
            }
        }
        lemma_digits_padded(t);
        let m = digits_value(t);
        let dt = ascii(decimal(m));
        assert(s =~= t.push(s.last()));
        if m == 0 {
            lemma_decimal(0);
            assert(decimal(n) =~= seq![digit_char(n)]);
            assert(dt =~= seq![48u8]);
            assert(s =~= zeros((s.len() - 1) as nat) + d);
        } else {
            assert(n / 10 == m && n % 10 == last);
            assert(d =~= dt.push(s.last()));
            assert(s =~= zeros((s.len() - d.len()) as nat) + d);
        }
    }
}

/// The number of two runs of digits written one after the other.
pub proof fn lemma_digits_concat(a: Seq<u8>, b: Seq<u8>)
    requires
        all_digits(a),
        all_digits(b),
    ensures
        digits_value(a + b) == digits_value(a) * pow10(b.len()) + digits_value(b),
        all_digits(a + b),
    decreases b.len(),
{
    lemma_pow10_zero();
    if b.len() == 0 {
        assert(a + b =~= a);
    } else {
        let c = b.drop_last();
        assert((a + b).drop_last() =~= a + c);
        assert(all_digits(c)) by {
            assert forall|i: int| 0 <= i < c.len() implies is_digit(#[trigger] c[i]) by {
                assert(c[i] == b[i]);
            }
        }
        lemma_digits_concat(a, c);
        lemma_pow10_step(c.len());
        let v = digits_value(a) as int;
        let p = pow10(c.len());
        assert((v * p) * 10 == v * (10 * p)) by (nonlinear_arith);
        assert(is_digit(b.last()));
    }
    assert forall|i: int| 0 <= i < (a + b).len() implies is_digit(#[trigger] (a + b)[i]) by {
        if i < a.len() {
            assert((a + b)[i] == a[i]);
        } else {
            assert((a + b)[i] == b[i - a.len()]);
        }
    }
}

/// Zero-padded digits spell the number that they were taken from.
pub proof fn lemma_padded(n: nat, width: nat)
    ensures
        padded(n, width).len() == width,
        all_digits(ascii(padded(n, width))),
        forall|i: int| 0 <= i < width ==> '0' <= #[trigger] padded(n, width)[i] <= '9',
        n < pow10(width) ==> digits_value(ascii(padded(n, width))) == n,
    decreases width,
{
    lemma_pow10_zero();
    if width > 0 {
        let init = padded(n / 10, (width - 1) as nat);
        lemma_padded(n / 10, (width - 1) as nat);
        lemma_pow10_step((width - 1) as nat);
        assert(ascii(padded(n, width)) =~= ascii(init).push((48 + n % 10) as u8));
        assert(ascii(padded(n, width)).drop_last() =~= ascii(init));
    }
}

/// Zeros in front do not change the number.
pub proof fn lemma_zeros_value(k: nat, s: Seq<u8>)
    requires
        all_digits(s),
    ensures
        digits_value(zeros(k) + s) == digits_value(s),
        all_digits(zeros(k) + s),
    decreases k,
{
    if k == 0 {
        assert(zeros(0) + s =~= s);
    } else {
        lemma_zeros_are_zero(k);
        assert(all_digits(zeros(k)));
        lemma_digits_concat(zeros(k), s);
        assert(0 * pow10(s.len()) == 0) by (nonlinear_arith);
    }
}

/// Each zero behind multiplies the number by ten.
pub proof fn lemma_zeros_behind(s: Seq<u8>, k: nat)
    requires
        all_digits(s),
    ensures
        digits_value(s + zeros(k)) == digits_value(s) * pow10(k),
{
    lemma_zeros_are_zero(k);
    assert(all_digits(zeros(k)));
    lemma_digits_concat(s, zeros(k));
}

proof fn lemma_zeros_are_zero(k: nat)
    ensures
        digits_value(zeros(k)) == 0,
    decreases k,
{
    if k > 0 {
        assert(zeros(k).drop_last() =~= zeros((k - 1) as nat));
        lemma_zeros_are_zero((k - 1) as nat);
    }
}

/// Where a run of digits ends.
pub proof fn lemma_digit_run(s: Seq<u8>, from: int)
    requires
        0 <= from <= s.len(),
    ensures
        from + digit_run(s, from) <= s.len(),
        forall|i: int| from <= i < from + digit_run(s, from) ==> is_digit(#[trigger] s[i]),
        from + digit_run(s, from) < s.len() ==> !is_digit(s[from + digit_run(s, from)]),
    decreases s.len() - from,
{
    if from < s.len() && is_digit(s[from]) {
        lemma_digit_run(s, from + 1);
    }
}

/// A run of digits that ends at `to` has the length that it looks to have.
pub proof fn lemma_digit_run_is(s: Seq<u8>, from: int, to: int)
    requires
        0 <= from <= to <= s.len(),
        forall|i: int| from <= i < to ==> is_digit(#[trigger] s[i]),
        to < s.len() ==> !is_digit(s[to]),
    ensures
        digit_run(s, from) == to - from,
    decreases to - from,
{
    if from < to {
        assert(is_digit(s[from]));
        lemma_digit_run_is(s, from + 1, to);
    }
}

} // verus!
