//! The host's clock, and the one way in which timestamps are ordered.

use crate::host::calendar::{civil_from_days, days_from_civil, epoch_days, is_date};
use crate::money::numeral::{
    all_digits, ascii, digits_value, is_digit, lemma_digit_run, lemma_padded, pow10, zeros,
};
use crate::text::{padded, push_padded};
use crate::wire::timestamp::{
    clock_end, field, find_clock_end, fraction, is_timestamp, read_field, Rfc3339,
};
use vstd::prelude::*;
use vstd::utf8::encode_utf8;

verus! {

/// The nanoseconds that the digits of a fraction name, `None` when the
/// fraction is finer than a nanosecond. Zeros at the end are no precision.
pub open spec fn fraction_nanos(f: Seq<u8>) -> Option<int> {
    if f.len() <= 9 {
        Some(digits_value(f) * pow10((9 - f.len()) as nat))
    } else if forall|i: int| 9 <= i < f.len() ==> #[trigger] f[i] == 48 {
        Some(digits_value(f.subrange(0, 9)) as int)
    } else {
        None
    }
}

/// The seconds that the zone at `at` is ahead of UTC.
pub open spec fn zone_offset(b: Seq<u8>, at: int) -> Option<int> {
    if at < b.len() && (b[at] == 90 || b[at] == 122) {
        Some(0)
    } else if at < b.len() && (b[at] == 43 || b[at] == 45) {
        match (field(b, at + 1, at + 3), field(b, at + 4, at + 6)) {
            (Some(hh), Some(mm)) => {
                let ahead = hh * 3600 + mm * 60;
                Some(
                    if b[at] == 43 {
                        ahead as int
                    } else {
                        -ahead
                    },
                )
            },
            _ => None,
        }
    } else {
        None
    }
}

/// The whole seconds from the Unix epoch to what `b` names, `None` when `b`
/// lacks a field, names a leap second, or a date that the calendar does not have.
pub open spec fn whole_seconds(b: Seq<u8>) -> Option<int> {
    match (
        (field(b, 0, 4), field(b, 5, 7), field(b, 8, 10)),
        (field(b, 11, 13), field(b, 14, 16), field(b, 17, 19)),
        zone_offset(b, clock_end(b)),
    ) {
        (
            (Some(year), Some(month), Some(day)),
            (Some(hour), Some(minute), Some(second)),
            Some(offset),
        ) => if second == 60 || !is_date(year as int, month as int, day as int) {
            None
        } else {
            Some(
                epoch_days(year as int, month as int, day as int) * 86_400 + hour * 3600 + minute
                    * 60 + second - offset,
            )
        },
        _ => None,
    }
}

/// The instant that `b` names: seconds since the Unix epoch and nanoseconds.
pub open spec fn instant_of(b: Seq<u8>) -> Option<(int, int)> {
    if b.len() > 19 && b[19] == 46 && clock_end(b) == 20 {
        None
    } else {
        match (whole_seconds(b), fraction_nanos(fraction(b))) {
            (Some(secs), Some(nanos)) => Some((secs, nanos)),
            _ => None,
        }
    }
}

/// The instant that a timestamp names, as seconds since the Unix epoch and
/// nanoseconds. `None` when it cannot be ordered: a date that the calendar
/// does not have, a leap second, or a fraction finer than a nanosecond.
pub fn instant(ts: &Rfc3339) -> (r: Option<(i64, u32)>)
    ensures
        match (r, instant_of(encode_utf8(ts@))) {
            (Some(i), Some(j)) => i.0 == j.0 && i.1 == j.1,
            (None, None) => true,
            _ => false,
        },
{
    let b = ts.as_str().as_bytes();
    let end = find_clock_end(b);
    let secs = match seconds(b, end) {
        Some(secs) => secs,
        None => return None,
    };
    if end == 20 {
        return None;
    }
    let from: usize = if end > 20 { 20 } else { end };
    proof {
        lemma_digit_run(b@, 20);
        assert(b@.subrange(from as int, end as int) =~= fraction(b@));
    }
    match nanos(&b[from..end]) {
        Some(nanos) => Some((secs, nanos)),
        None => None,
    }
}

/// Reads the whole seconds.
fn seconds(b: &[u8], end: usize) -> (r: Option<i64>)
    requires
        b.len() >= 20,
        end == clock_end(b@),
        end <= b.len(),
    ensures
        match (r, whole_seconds(b@)) {
            (Some(n), Some(m)) => n == m,
            (None, None) => true,
            _ => false,
        },
{
    let year = match read_field(b, 0, 4) {
        Some(n) => n,
        None => return None,
    };
    let month = match read_field(b, 5, 7) {
        Some(n) => n,
        None => return None,
    };
    let day = match read_field(b, 8, 10) {
        Some(n) => n,
        None => return None,
    };
    let hour = match read_field(b, 11, 13) {
        Some(n) => n,
        None => return None,
    };
    let minute = match read_field(b, 14, 16) {
        Some(n) => n,
        None => return None,
    };
    let second = match read_field(b, 17, 19) {
        Some(n) => n,
        None => return None,
    };
    if second == 60 {
        return None;
    }
    let offset = match offset_seconds(b, end) {
        Some(n) => n,
        None => return None,
    };
    let days = days_from_civil(year, month, day);
    // A day count leads back to the date it came from exactly when the
    // calendar has that date.
    let civil = civil_from_days(days);
    if civil.0 != year || civil.1 != month || civil.2 != day {
        proof {
            if is_date(year as int, month as int, day as int) {
                crate::host::calendar::law_day_count_determines_the_date(
                    year as int,
                    month as int,
                    day as int,
                    civil.0 as int,
                    civil.1 as int,
                    civil.2 as int,
                );
            }
        }
        return None;
    }
    proof {
        crate::host::calendar::lemma_four_digit_years(year as int, month as int, day as int);
    }
    Some(days * 86_400 + hour * 3600 + minute * 60 + second - offset)
}

/// Reads the zone at `at`.
fn offset_seconds(b: &[u8], at: usize) -> (r: Option<i64>)
    requires
        at <= b.len(),
    ensures
        match (r, zone_offset(b@, at as int)) {
            (Some(n), Some(m)) => n == m && -36_600_000 <= n <= 36_600_000,
            (None, None) => true,
            _ => false,
        },
{
    if at >= b.len() {
        return None;
    }
    let mark = b[at];
    if mark == 90 || mark == 122 {
        return Some(0);
    }
    if mark != 43 && mark != 45 {
        return None;
    }
    if b.len() - at < 6 {
        return None;
    }
    match (read_field(b, at + 1, at + 3), read_field(b, at + 4, at + 6)) {
        (Some(hh), Some(mm)) => {
            let ahead = hh * 3600 + mm * 60;
            if mark == 43 {
                Some(ahead)
            } else {
                Some(-ahead)
            }
        },
        _ => None,
    }
}

/// Reads the digits of a fraction.
fn nanos(digits: &[u8]) -> (r: Option<u32>)
    requires
        all_digits(digits@),
    ensures
        match (r, fraction_nanos(digits@)) {
            (Some(n), Some(m)) => n == m && n < 1_000_000_000,
            (None, None) => true,
            _ => false,
        },
{
    let mut i: usize = 9;
    while i < digits.len()
        invariant
            9 <= i,
            forall|k: int| 9 <= k < i && k < digits.len() ==> #[trigger] digits@[k] == 48,
        decreases digits.len() - i,
    {
        if digits[i] != 48 {
            proof {
                assert(digits@[i as int] != 48);
            }
            return None;
        }
        i = i + 1;
    }
    let mut n: u32 = 0;
    let mut slot: usize = 0;
    let ghost padded = digits@ + zeros(9);
    proof {
        lemma_pow10_small();
    }
    while slot < 9
        invariant
            slot <= 9,
            all_digits(digits@),
            padded == digits@ + zeros(9),
            n == digits_value(padded.subrange(0, slot as int)),
            n < pow10(slot as nat),
            pow10(9) == 1_000_000_000,
        decreases 9 - slot,
    {
        let digit: u32 = if slot < digits.len() { (digits[slot] - 48) as u32 } else { 0 };
        proof {
            let next = padded.subrange(0, slot + 1);
            assert(next.drop_last() =~= padded.subrange(0, slot as int));
            assert(next.last() == padded[slot as int]);
            assert(slot < digits@.len() ==> is_digit(digits@[slot as int]));
            crate::money::numeral::lemma_pow10_step(slot as nat);
            crate::money::numeral::lemma_pow10_monotone(slot as nat + 1, 9);
        }
        n = n * 10 + digit;
        slot = slot + 1;
    }
    proof {
        if digits@.len() <= 9 {
            let k = (9 - digits@.len()) as nat;
            assert(padded.subrange(0, 9) =~= digits@ + zeros(k));
            crate::money::numeral::lemma_zeros_behind(digits@, k);
        } else {
            assert(padded.subrange(0, 9) =~= digits@.subrange(0, 9));
        }
    }
    Some(n)
}

/// The text of a date and a second of its day, in UTC.
pub open spec fn stamp_text(year: nat, month: nat, day: nat, second_of_day: nat) -> Seq<char> {
    padded(year, 4) + seq!['-'] + padded(month, 2) + seq!['-'] + padded(day, 2) + seq!['T']
        + padded(second_of_day / 3600, 2) + seq![':'] + padded((second_of_day % 3600) / 60, 2)
        + seq![':'] + padded(second_of_day % 60, 2) + seq!['Z']
}

/// The last second that four digits of a year can name.
pub const LAST_SECOND: i64 = 253_402_300_799;

/// The timestamp of a count of seconds since the Unix epoch, to second
/// precision: `YYYY-MM-DDThh:mm:ssZ`.
pub fn rfc3339_at(total_secs: i64) -> (r: Rfc3339)
    requires
        0 <= total_secs <= LAST_SECOND,
    ensures
        exists|year: nat, month: nat, day: nat|
            {
                &&& is_date(year as int, month as int, day as int)
                &&& epoch_days(year as int, month as int, day as int) == total_secs / 86_400
                &&& r@ == #[trigger] stamp_text(year, month, day, (total_secs % 86_400) as nat)
            },
        instant_of(encode_utf8(r@)) == Some((total_secs as int, 0int)),
{
    let days = total_secs / 86_400;
    let sod = total_secs % 86_400;
    let (year, month, day) = civil_from_days(days);
    proof {
        crate::host::calendar::lemma_epoch_to_9999(year as int, month as int, day as int);
    }
    let mut out = String::new();
    push_padded(&mut out, year as u64, 4);
    out.push('-');
    push_padded(&mut out, month as u64, 2);
    out.push('-');
    push_padded(&mut out, day as u64, 2);
    out.push('T');
    push_padded(&mut out, (sod / 3600) as u64, 2);
    out.push(':');
    push_padded(&mut out, ((sod % 3600) / 60) as u64, 2);
    out.push(':');
    push_padded(&mut out, (sod % 60) as u64, 2);
    out.push('Z');
    proof {
        assert(out@ =~= stamp_text(year as nat, month as nat, day as nat, sod as nat));
        lemma_stamp(year as nat, month as nat, day as nat, sod as nat);
    }
    match Rfc3339::new(out.as_str()) {
        Ok(ts) => ts,
        Err(_) => vstd::pervasive::unreached(),
    }
}

/// A stamp is a timestamp, and it names the second it was written for.
proof fn lemma_stamp(year: nat, month: nat, day: nat, sod: nat)
    requires
        year <= 9999,
        is_date(year as int, month as int, day as int),
        sod < 86_400,
    ensures
        is_timestamp(encode_utf8(stamp_text(year, month, day, sod))),
        instant_of(encode_utf8(stamp_text(year, month, day, sod))) == Some(
            (epoch_days(year as int, month as int, day as int) * 86_400 + sod, 0int),
        ),
{
    let t = stamp_text(year, month, day, sod);
    let (h, m, s) = (sod / 3600, (sod % 3600) / 60, sod % 60);
    lemma_padded(year, 4);
    lemma_padded(month, 2);
    lemma_padded(day, 2);
    lemma_padded(h, 2);
    lemma_padded(m, 2);
    lemma_padded(s, 2);
    lemma_pow10_small();
    assert(t.len() == 20);
    assert(t.subrange(0, 4) =~= padded(year, 4));
    assert(t.subrange(5, 7) =~= padded(month, 2));
    assert(t.subrange(8, 10) =~= padded(day, 2));
    assert(t.subrange(11, 13) =~= padded(h, 2));
    assert(t.subrange(14, 16) =~= padded(m, 2));
    assert(t.subrange(17, 19) =~= padded(s, 2));
    assert forall|i: int| 0 <= i < t.len() implies '\0' <= #[trigger] t[i] <= '\u{7f}' by {
        if 0 <= i < 4 {
            assert(t[i] == padded(year, 4)[i]);
        } else if 5 <= i < 7 {
            assert(t[i] == padded(month, 2)[i - 5]);
        } else if 8 <= i < 10 {
            assert(t[i] == padded(day, 2)[i - 8]);
        } else if 11 <= i < 13 {
            assert(t[i] == padded(h, 2)[i - 11]);
        } else if 14 <= i < 16 {
            assert(t[i] == padded(m, 2)[i - 14]);
        } else if 17 <= i < 19 {
            assert(t[i] == padded(s, 2)[i - 17]);
        }
    }
    vstd::utf8::is_ascii_chars_encode_utf8(t);
    let b = encode_utf8(t);
    assert(b =~= ascii(t));
    lemma_field_of(t, 0, 4, padded(year, 4));
    lemma_field_of(t, 5, 7, padded(month, 2));
    lemma_field_of(t, 8, 10, padded(day, 2));
    lemma_field_of(t, 11, 13, padded(h, 2));
    lemma_field_of(t, 14, 16, padded(m, 2));
    lemma_field_of(t, 17, 19, padded(s, 2));
    assert(t[4] == '-' && t[7] == '-' && t[10] == 'T' && t[13] == ':' && t[16] == ':' && t[19]
        == 'Z');
    assert(clock_end(b) == 19);
    assert(fraction(b) =~= Seq::<u8>::empty());
    assert(digits_value(fraction(b)) == 0);
    assert(h * 3600 + m * 60 + s == sod);
}

/// A stretch of a text that holds a number's digits is that number's field.
proof fn lemma_field_of(t: Seq<char>, from: int, to: int, digits: Seq<char>)
    requires
        0 <= from < to <= t.len(),
        t.subrange(from, to) == digits,
        all_digits(ascii(digits)),
    ensures
        field(ascii(t), from, to) == Some(digits_value(ascii(digits))),
{
    assert(ascii(t).subrange(from, to) =~= ascii(digits));
}

/// The host's clock, declared.
#[verifier::external_type_specification]
#[verifier::external_body]
pub struct ExSystemTime(std::time::SystemTime);

/// The error of a clock that stands before the epoch, declared.
#[verifier::external_type_specification]
#[verifier::external_body]
pub struct ExSystemTimeError(std::time::SystemTimeError);

/// `SystemTime::now`: what the clock shows. Nothing is claimed of it.
#[verifier::external_body]
fn clock_now() -> std::time::SystemTime {
    std::time::SystemTime::now()
}

/// `SystemTime::duration_since` the Unix epoch: the span, or an error when the
/// time is before it. Nothing more is claimed, for the clock's reading is not known.
#[verifier::external_body]
fn since_epoch(now: std::time::SystemTime) -> Result<
    std::time::Duration,
    std::time::SystemTimeError,
> {
    now.duration_since(std::time::UNIX_EPOCH)
}

/// `Duration::as_secs`: the whole seconds of a span. Nothing is claimed of them,
/// for the span is not known.
#[verifier::external_body]
fn span_seconds(span: &std::time::Duration) -> u64 {
    span.as_secs()
}

/// The host's own receipt-time stamp, to second precision. `None` when the
/// clock stands past the last second that a timestamp can name.
pub fn now_rfc3339() -> (r: Option<Rfc3339>)
    ensures
        exists|reading: Option<u64>| #[trigger] is_stamp(shown(reading), r),
{
    let reading: Option<u64> = match since_epoch(clock_now()) {
        Ok(span) => Some(span_seconds(&span)),
        Err(_) => None,
    };
    stamp_of_reading(reading)
}

/// The second that a clock's reading counts as: one before the Unix epoch counts
/// as the epoch.
pub open spec fn shown(reading: Option<u64>) -> nat {
    match reading {
        Some(secs) => secs as nat,
        None => 0,
    }
}

/// Whether this is the stamp of a second since the Unix epoch: the text that spells
/// the second's date and time of day in full, or none past the last second that a
/// timestamp can name.
pub open spec fn is_stamp(secs: nat, stamp: Option<Rfc3339>) -> bool {
    match stamp {
        None => secs > LAST_SECOND,
        Some(ts) => {
            &&& secs <= LAST_SECOND
            &&& instant_of(encode_utf8(ts@)) == Some((secs as int, 0int))
            &&& exists|year: nat, month: nat, day: nat|
                {
                    &&& is_date(year as int, month as int, day as int)
                    &&& epoch_days(year as int, month as int, day as int) == secs / 86_400
                    &&& ts@ == #[trigger] stamp_text(year, month, day, secs % 86_400)
                }
        },
    }
}

/// The stamp of a clock's reading, in seconds since the Unix epoch; `None` stands
/// for a clock before it.
pub fn stamp_of_reading(reading: Option<u64>) -> (r: Option<Rfc3339>)
    ensures
        is_stamp(shown(reading), r),
{
    match reading {
        Some(secs) => stamp_of_clock(secs),
        None => stamp_of_clock(0),
    }
}

/// The stamp of a clock that shows `secs` seconds since the Unix epoch.
pub fn stamp_of_clock(secs: u64) -> (r: Option<Rfc3339>)
    ensures
        is_stamp(secs as nat, r),
{
    if secs > LAST_SECOND as u64 {
        None
    } else {
        Some(rfc3339_at(secs as i64))
    }
}

/// Whether one instant lies before another.
pub open spec fn instant_before(a: (int, int), b: (int, int)) -> bool {
    a.0 < b.0 || a.0 == b.0 && a.1 < b.1
}

/// Whether the fraction `f` is smaller than `g`, each read as a decimal
/// fraction at its full length.
pub open spec fn fraction_below(f: Seq<u8>, g: Seq<u8>) -> bool {
    digits_value(f) * pow10(g.len()) < digits_value(g) * pow10(f.len())
}

/// Whether what `a` names lies before what `b` names, at full precision.
pub open spec fn exactly_before(a: Seq<u8>, b: Seq<u8>) -> bool {
    match (whole_seconds(a), whole_seconds(b)) {
        (Some(x), Some(y)) => x < y || x == y && fraction_below(fraction(a), fraction(b)),
        _ => false,
    }
}

/// A fraction that has nanoseconds has exactly its own value in them.
pub proof fn law_nanoseconds_are_exact(f: Seq<u8>)
    requires
        all_digits(f),
        fraction_nanos(f) is Some,
    ensures
        fraction_nanos(f)->0 * pow10(f.len()) == digits_value(f) * pow10(9),
{
    if f.len() <= 9 {
        let k = (9 - f.len()) as nat;
        crate::money::numeral::lemma_pow10_sum(k, f.len());
        let (v, p, q) = (digits_value(f) as int, pow10(k), pow10(f.len()));
        assert((v * p) * q == v * (p * q)) by (nonlinear_arith);
    } else {
        let k = (f.len() - 9) as nat;
        let head = f.subrange(0, 9);
        assert(f =~= head + zeros(k)) by {
            assert forall|i: int| 9 <= i < f.len() implies f[i] == (head + zeros(k))[i] by {
                assert(f[i] == 48);
            }
        }
        assert forall|i: int| 0 <= i < head.len() implies is_digit(#[trigger] head[i]) by {
            assert(head[i] == f[i]);
        }
        crate::money::numeral::lemma_zeros_behind(head, k);
        crate::money::numeral::lemma_pow10_sum(9, k);
        let (v, p, q) = (digits_value(head) as int, pow10(9), pow10(k));
        assert(v * (p * q) == (v * q) * p) by (nonlinear_arith);
    }
}

/// The digits of a fraction are digits.
proof fn lemma_fraction_digits(b: Seq<u8>)
    ensures
        all_digits(fraction(b)),
{
    if clock_end(b) > 20 {
        lemma_digit_run(b, 20);
        assert forall|i: int| 0 <= i < fraction(b).len() implies is_digit(
            #[trigger] fraction(b)[i],
        ) by {
            assert(fraction(b)[i] == b[20 + i]);
        }
    }
}

/// The order of instants is the order of what the timestamps name at full
/// precision: it never contradicts it, and it never calls two different
/// points of time equal.
pub proof fn law_instants_order_exactly(a: Seq<u8>, b: Seq<u8>)
    requires
        instant_of(a) is Some,
        instant_of(b) is Some,
    ensures
        instant_before(instant_of(a)->0, instant_of(b)->0) <==> exactly_before(a, b),
        instant_of(a) == instant_of(b) <==> !exactly_before(a, b) && !exactly_before(b, a),
{
    let (f, g) = (fraction(a), fraction(b));
    lemma_fraction_digits(a);
    lemma_fraction_digits(b);
    law_nanoseconds_are_exact(f);
    law_nanoseconds_are_exact(g);
    crate::money::numeral::lemma_pow10_step(f.len());
    crate::money::numeral::lemma_pow10_step(g.len());
    crate::money::numeral::lemma_pow10_step(9);
    let (m, n, x, y, p, q, t) = (
        fraction_nanos(f)->0,
        fraction_nanos(g)->0,
        digits_value(f) as int,
        digits_value(g) as int,
        pow10(f.len()),
        pow10(g.len()),
        pow10(9),
    );
    lemma_cross_order(m, n, x, y, p, q, t);
}

proof fn lemma_cross_order(m: int, n: int, x: int, y: int, p: int, q: int, t: int)
    requires
        m * p == x * t,
        n * q == y * t,
        p > 0,
        q > 0,
        t > 0,
    ensures
        m < n <==> x * q < y * p,
        m == n <==> x * q == y * p,
{
    // Multiplied by p * q, the left-hand sides are the right-hand sides times t.
    assert(m * (p * q) == (x * q) * t) by (nonlinear_arith)
        requires
            m * p == x * t,
    ;
    assert(n * (p * q) == (y * p) * t) by (nonlinear_arith)
        requires
            n * q == y * t,
    ;
    assert(p * q > 0) by (nonlinear_arith)
        requires
            p > 0,
            q > 0,
    ;
    let (s, u, v) = (p * q, x * q, y * p);
    assert(m < n <==> m * s < n * s) by (nonlinear_arith)
        requires
            s > 0,
    ;
    assert(u < v <==> u * t < v * t) by (nonlinear_arith)
        requires
            t > 0,
    ;
    assert(m > n <==> m * s > n * s) by (nonlinear_arith)
        requires
            s > 0,
    ;
    assert(u > v <==> u * t > v * t) by (nonlinear_arith)
        requires
            t > 0,
    ;
}

/// Of the timestamps that the wire admits, exactly three sorts cannot be
/// ordered: a date that the calendar does not have, a leap second, and a
/// fraction finer than a nanosecond.
pub proof fn law_what_cannot_be_ordered(b: Seq<u8>)
    requires
        is_timestamp(b),
    ensures
        instant_of(b) is None <==> {
            ||| !is_date(field(b, 0, 4)->0 as int, field(b, 5, 7)->0 as int, field(b, 8, 10)->0 as int)
            ||| field(b, 17, 19) == Some(60nat)
            ||| exists|i: int| 9 <= i < fraction(b).len() && #[trigger] fraction(b)[i] != 48
        },
{
    let f = fraction(b);
    if fraction_nanos(f) is None {
        assert(exists|i: int| 9 <= i < f.len() && #[trigger] f[i] != 48);
    }
}

proof fn lemma_pow10_small()
    ensures
        pow10(0) == 1,
        pow10(2) == 100,
        pow10(4) == 10_000,
        pow10(9) == 1_000_000_000,
{
    reveal_with_fuel(vstd::arithmetic::power::pow, 11);
}

} // verus!
