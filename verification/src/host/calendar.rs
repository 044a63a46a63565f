//! The proleptic Gregorian calendar, and the conversion between dates and day
//! counts in both directions.

use vstd::prelude::*;

verus! {

/// Whether `year` has a 29 February.
pub open spec fn is_leap(year: int) -> bool {
    (year % 4 == 0 && year % 100 != 0) || year % 400 == 0
}

/// How many days `year` has.
pub open spec fn year_length(year: int) -> int {
    if is_leap(year) {
        366
    } else {
        365
    }
}

/// How many days `month` has in `year`.
pub open spec fn month_length(year: int, month: int) -> int {
    if month == 2 {
        if is_leap(year) {
            29
        } else {
            28
        }
    } else if month == 4 || month == 6 || month == 9 || month == 11 {
        30
    } else {
        31
    }
}

/// Whether the calendar has this date.
pub open spec fn is_date(year: int, month: int, day: int) -> bool {
    1 <= month <= 12 && 1 <= day <= month_length(year, month)
}

/// Days from 1 January 1970 to 1 January of `year`, counted year by year.
pub open spec fn days_before_year(year: int) -> int
    decreases
            (if year >= 1970 {
                year - 1970
            } else {
                1970 - year
            }),
{
    if year == 1970 {
        0
    } else if year > 1970 {
        days_before_year(year - 1) + year_length(year - 1)
    } else {
        days_before_year(year + 1) - year_length(year)
    }
}

/// Days from 1 January to the first of `month`, counted month by month.
pub open spec fn days_before_month(year: int, month: int) -> int
    decreases month,
{
    if month <= 1 {
        0
    } else {
        days_before_month(year, month - 1) + month_length(year, month - 1)
    }
}

/// Days from 1 January 1970 to a date.
pub open spec fn epoch_days(year: int, month: int, day: int) -> int {
    days_before_year(year) + days_before_month(year, month) + day - 1
}

/// Days from the start of a 400-year era to the start of its year `yoe`, when
/// years start in March.
pub open spec fn era_days(yoe: int) -> int {
    365 * yoe + yoe / 4 - yoe / 100
}

/// Days from 1 March to the first of the month `mp` months later, with the
/// fraction cut off.
pub open spec fn march_days(mp: int) -> int {
    if 153 * mp + 2 >= 0 {
        (153 * mp + 2) / 5
    } else {
        -((-(153 * mp + 2)) / 5)
    }
}

/// The count that years starting in March give for a date. For a day number
/// that the month does not have it goes on counting.
pub open spec fn march_count(year: int, month: int, day: int) -> int {
    let y = if month <= 2 {
        year - 1
    } else {
        year
    };
    let mp = if month > 2 {
        month - 3
    } else {
        month + 9
    };
    (y / 400) * 146_097 + era_days(y % 400) + march_days(mp) + day - 1 - 719_468
}

/// Whether a number is one of `i64`.
pub open spec fn in_i64(n: int) -> bool {
    i64::MIN <= n <= i64::MAX
}

/// Whether every step of the count for a date is a number of `i64`.
pub open spec fn counts_in_i64(year: int, month: int, day: int) -> bool {
    let y = if month <= 2 {
        year - 1
    } else {
        year
    };
    let mp = if month > 2 {
        month - 3
    } else {
        month + 9
    };
    let doy = march_days(mp) + day - 1;
    let doe = era_days(y % 400) + doy;
    let era = y / 400;
    &&& in_i64(y)
    &&& in_i64(era * 400)
    &&& in_i64(153 * mp)
    &&& in_i64(153 * mp + 2)
    &&& in_i64(march_days(mp) + day)
    &&& in_i64(doy)
    &&& in_i64(doe)
    &&& in_i64(era * 146_097)
    &&& in_i64(era * 146_097 + doe)
    &&& in_i64(march_count(year, month, day))
}

/// The days before a year, in closed form.
proof fn lemma_days_before_year(year: int)
    ensures
        days_before_year(year) == 365 * (year - 1970) + (year - 1) / 4 - (year - 1) / 100 + (year
            - 1) / 400 - 477,
    decreases
            (if year >= 1970 {
                year - 1970
            } else {
                1970 - year
            }),
{
    if year > 1970 {
        lemma_days_before_year(year - 1);
        lemma_leap_step(year - 1);
    } else if year < 1970 {
        lemma_days_before_year(year + 1);
        lemma_leap_step(year);
    }
}

/// One more leap year is counted exactly when `year` is one.
proof fn lemma_leap_step(year: int)
    ensures
        year / 4 - year / 100 + year / 400 - ((year - 1) / 4 - (year - 1) / 100 + (year - 1) / 400)
            == (if is_leap(year) {
            1int
        } else {
            0int
        }),
{
    lemma_multiples_step(year, 4);
    lemma_multiples_step(year, 100);
    lemma_multiples_step(year, 400);
    lemma_nested_multiples(year);
}

/// One more multiple of `n` is counted exactly at a multiple.
proof fn lemma_multiples_step(year: int, n: int)
    requires
        n > 1,
    ensures
        year / n - (year - 1) / n == (if year % n == 0 {
            1int
        } else {
            0int
        }),
{
    let q = year / n;
    let r = year % n;
    vstd::arithmetic::div_mod::lemma_fundamental_div_mod(year, n);
    vstd::arithmetic::div_mod::lemma_mod_bound(year, n);
    if r == 0 {
        assert(year - 1 == n * (q - 1) + (n - 1)) by (nonlinear_arith)
            requires
                year == n * q,
        ;
        vstd::arithmetic::div_mod::lemma_fundamental_div_mod_converse(year - 1, n, q - 1, n - 1);
    } else {
        vstd::arithmetic::div_mod::lemma_fundamental_div_mod_converse(year - 1, n, q, r - 1);
    }
}

/// A multiple of 400 is one of 100, and a multiple of 100 is one of 4.
proof fn lemma_nested_multiples(year: int)
    ensures
        year % 400 == 0 ==> year % 100 == 0,
        year % 100 == 0 ==> year % 4 == 0,
{
}

/// The days before a month, in closed form from March on.
proof fn lemma_days_before_month(year: int, month: int)
    requires
        1 <= month <= 12,
    ensures
        month > 2 ==> days_before_month(year, month) == march_days(month - 3) + 59 + (if is_leap(
            year,
        ) {
            1int
        } else {
            0int
        }),
        month <= 2 ==> days_before_month(year, month) == march_days(month + 9) - 306,
{
    reveal_with_fuel(days_before_month, 13);
}

/// Counting from March gives the day count of the calendar.
proof fn lemma_march_count(year: int, month: int, day: int)
    requires
        1 <= month <= 12,
    ensures
        march_count(year, month, day) == epoch_days(year, month, day),
{
    lemma_days_before_month(year, month);
    lemma_days_before_year(year);
    let y = if month <= 2 {
        year - 1
    } else {
        year
    };
    let era = y / 400;
    let yoe = y % 400;
    assert(y == 400 * era + yoe);
    assert(y / 4 == 100 * era + yoe / 4);
    assert(y / 100 == 4 * era + yoe / 100);
    lemma_leap_step(year);
}

/// Dates with a four-digit year lie within four million days of the epoch.
pub proof fn lemma_four_digit_years(year: int, month: int, day: int)
    requires
        0 <= year <= 9999,
        is_date(year, month, day),
    ensures
        -4_000_000 <= epoch_days(year, month, day) <= 4_000_000,
{
    lemma_days_before_year(year);
    reveal_with_fuel(days_before_month, 13);
}

/// The days from the epoch to the end of the year 9999 have years of four digits.
pub proof fn lemma_epoch_to_9999(year: int, month: int, day: int)
    requires
        is_date(year, month, day),
        0 <= epoch_days(year, month, day) <= 2_932_896,
    ensures
        1970 <= year <= 9999,
{
    lemma_date_in_year(year, month, day);
    lemma_days_before_year(10_000);
    if year < 1970 {
        lemma_years_apart(year, 1970);
    }
    if year > 9999 {
        lemma_years_apart(9999, year);
    }
}

/// The year of an era in which a day of the era falls, and the day's place in
/// that year.
proof fn lemma_year_of_era(doe: int)
    requires
        0 <= doe <= 146_096,
    ensures
        ({
            let yoe = (doe - doe / 1460 + doe / 36_524 - doe / 146_096) / 365;
            let doy = doe - era_days(yoe);
            &&& 0 <= yoe <= 399
            &&& 0 <= doy <= 365
            &&& doy == 365 ==> is_leap(yoe + 1)
        }),
{
    let c: int = if doe / 36_524 > 3 {
        3
    } else {
        doe / 36_524
    };
    let in_century = doe - 36_524 * c;
    let q: int = if in_century / 1461 > 24 {
        24
    } else {
        in_century / 1461
    };
    let in_four = in_century - 1461 * q;
    let r: int = if in_four / 365 > 3 {
        3
    } else {
        in_four / 365
    };
    let doy = in_four - 365 * r;
    let n = 100 * c + 4 * q + r;
    assert(0 <= c <= 3 && 0 <= q <= 24 && 0 <= r <= 3);
    assert(0 <= in_century <= 36_524);
    assert(0 <= in_four <= 1460);
    assert(0 <= doy <= 365);
    assert(n / 4 == 25 * c + q);
    assert(n / 100 == c);
    assert(era_days(n) == 36_524 * c + 1461 * q + 365 * r);
    let t = 24 * c + q + 365 * r + doy;
    assert(doe == 1460 * (25 * c + q) + t);
    assert(doe / 1460 == 25 * c + q + if t >= 1460 {
        1int
    } else {
        0int
    });
    let top = doe - doe / 1460 + doe / 36_524 - doe / 146_096;
    assert(doe / 146_096 == if doe == 146_096 {
        1int
    } else {
        0int
    });
    assert(doe / 36_524 == c + if doe == 146_096 {
        1int
    } else {
        0int
    });
    assert(365 * n <= top < 365 * n + 365);
    assert(top / 365 == n);
    if doy == 365 {
        assert(r == 3);
        assert((n + 1) % 4 == 0);
        if (n + 1) % 100 == 0 {
            assert(q == 24);
            assert(c == 3);
            assert(n + 1 == 400);
        }
    }
}

/// The month in which a day of a March year falls, and the day's place in it.
proof fn lemma_month_of_year(doy: int)
    requires
        0 <= doy <= 365,
    ensures
        ({
            let mp = (5 * doy + 2) / 153;
            let d = doy - march_days(mp) + 1;
            &&& 0 <= mp <= 11
            &&& 1 <= d <= 31
            &&& mp == 1 || mp == 3 || mp == 6 || mp == 8 ==> d <= 30
            &&& mp == 11 ==> d <= 29
            &&& mp == 11 && d == 29 ==> doy == 365
        }),
{
    let mp = (5 * doy + 2) / 153;
    assert(0 <= mp <= 11);
    assert(153 * mp <= 5 * doy + 2 < 153 * mp + 153);
}

/// Two dates with one day count are one date.
pub proof fn law_day_count_determines_the_date(
    y1: int,
    m1: int,
    d1: int,
    y2: int,
    m2: int,
    d2: int,
)
    requires
        is_date(y1, m1, d1),
        is_date(y2, m2, d2),
        epoch_days(y1, m1, d1) == epoch_days(y2, m2, d2),
    ensures
        y1 == y2,
        m1 == m2,
        d1 == d2,
{
    lemma_date_in_year(y1, m1, d1);
    lemma_date_in_year(y2, m2, d2);
    if y1 < y2 {
        lemma_years_apart(y1, y2);
    } else if y2 < y1 {
        lemma_years_apart(y2, y1);
    } else {
        reveal_with_fuel(days_before_month, 13);
    }
}

/// A date falls inside its year.
proof fn lemma_date_in_year(year: int, month: int, day: int)
    requires
        is_date(year, month, day),
    ensures
        days_before_year(year) <= epoch_days(year, month, day) < days_before_year(year + 1),
{
    reveal_with_fuel(days_before_month, 13);
    lemma_year_step(year);
}

proof fn lemma_year_step(year: int)
    ensures
        days_before_year(year + 1) == days_before_year(year) + year_length(year),
{
    lemma_days_before_year(year);
    lemma_days_before_year(year + 1);
    lemma_leap_step(year);
}

proof fn lemma_years_apart(y1: int, y2: int)
    requires
        y1 < y2,
    ensures
        days_before_year(y1 + 1) <= days_before_year(y2),
    decreases y2 - y1,
{
    if y1 + 1 < y2 {
        lemma_years_apart(y1, y2 - 1);
        lemma_year_step(y2 - 1);
    }
}

/// A year of an era is leap exactly when the year it stands for is.
proof fn lemma_leap_in_era(era: int, n: int)
    ensures
        is_leap(n) == is_leap(400 * era + n),
{
    vstd::arithmetic::div_mod::lemma_mod_multiples_vanish(100 * era, n, 4);
    vstd::arithmetic::div_mod::lemma_mod_multiples_vanish(4 * era, n, 100);
    vstd::arithmetic::div_mod::lemma_mod_multiples_vanish(era, n, 400);
    assert(4 * (100 * era) == 400 * era && 100 * (4 * era) == 400 * era);
}

/// Era, year, month and day put together are the date of the count they were
/// taken from.
proof fn lemma_civil(era: int, yoe: int, doy: int)
    requires
        0 <= yoe <= 399,
        0 <= doy <= 365,
        doy == 365 ==> is_leap(yoe + 1),
    ensures
        ({
            let mp = (5 * doy + 2) / 153;
            let d = doy - march_days(mp) + 1;
            let m = if mp < 10 {
                mp + 3
            } else {
                mp - 9
            };
            let base = yoe + era * 400;
            let y = if m <= 2 {
                base + 1
            } else {
                base
            };
            &&& is_date(y, m, d)
            &&& epoch_days(y, m, d) == era * 146_097 + era_days(yoe) + doy - 719_468
        }),
{
    lemma_month_of_year(doy);
    let mp = (5 * doy + 2) / 153;
    let d = doy - march_days(mp) + 1;
    let m = if mp < 10 {
        mp + 3
    } else {
        mp - 9
    };
    let base = yoe + era * 400;
    let y = if m <= 2 {
        base + 1
    } else {
        base
    };
    vstd::arithmetic::div_mod::lemma_fundamental_div_mod_converse(base, 400, era, yoe);
    lemma_leap_in_era(era, yoe + 1);
    lemma_march_count(y, m, d);
}

/// The date of a day count since 1 January 1970.
pub fn civil_from_days(days: i64) -> (r: (i64, i64, i64))
    requires
        days <= i64::MAX - 719_468,
    ensures
        is_date(r.0 as int, r.1 as int, r.2 as int),
        epoch_days(r.0 as int, r.1 as int, r.2 as int) == days,
{
    let z = days + 719_468;
    let era = floor_div(z, 146_097);
    let doe = z - era * 146_097;
    let (yoe, doy) = year_of_era(doe);
    proof {
        lemma_month_of_year(doy as int);
        lemma_civil(era as int, yoe as int, doy as int);
    }
    let mp = (5 * doy + 2) / 153;
    let d = doy - (153 * mp + 2) / 5 + 1;
    let m = if mp < 10 { mp + 3 } else { mp - 9 };
    let base = yoe + era * 400;
    let y = if m <= 2 { base + 1 } else { base };
    (y, m, d)
}

/// The year of an era, counted from March, in which a day of the era falls,
/// and the day's place in that year.
fn year_of_era(doe: i64) -> (r: (i64, i64))
    requires
        0 <= doe <= 146_096,
    ensures
        0 <= r.0 <= 399,
        0 <= r.1 <= 365,
        r.1 == 365 ==> is_leap(r.0 + 1),
        doe == era_days(r.0 as int) + r.1,
{
    proof {
        lemma_year_of_era(doe as int);
    }
    let yoe = (doe - doe / 1460 + doe / 36_524 - doe / 146_096) / 365;
    let doy = doe - (365 * yoe + yoe / 4 - yoe / 100);
    (yoe, doy)
}

/// The day count since 1 January 1970 of a date. A day number that the month
/// does not have goes on counting: `2026-02-30` gives the count of 2 March.
pub fn days_from_civil(year: i64, month: i64, day: i64) -> (r: i64)
    requires
        counts_in_i64(year as int, month as int, day as int),
    ensures
        r == march_count(year as int, month as int, day as int),
        1 <= month <= 12 ==> r == epoch_days(year as int, month as int, day as int),
{
    let y = if month <= 2 { year - 1 } else { year };
    let era = floor_div(y, 400);
    let yoe = y - era * 400;
    let mp = if month > 2 { month - 3 } else { month + 9 };
    let doy = (153 * mp + 2) / 5 + day - 1;
    let doe = yoe * 365 + yoe / 4 - yoe / 100 + doy;
    proof {
        assert(y / 400 == era && y % 400 == yoe);
        if 1 <= month <= 12 {
            lemma_march_count(year as int, month as int, day as int);
        }
    }
    era * 146_097 + doe - 719_468
}

/// `a / b`, rounded down.
fn floor_div(a: i64, b: i64) -> (r: i64)
    requires
        b > 1,
    ensures
        r == a as int / b as int,
{
    if a >= 0 {
        a / b
    } else {
        let k = -(a + 1);
        let q = k / b;
        proof {
            let (n, r) = (b as int, k as int % b as int);
            vstd::arithmetic::div_mod::lemma_fundamental_div_mod(k as int, n);
            vstd::arithmetic::div_mod::lemma_mod_bound(k as int, n);
            assert(a == n * (-q - 1) + (n - 1 - r)) by (nonlinear_arith)
                requires
                    -(a + 1) == n * q + r,
            ;
            vstd::arithmetic::div_mod::lemma_fundamental_div_mod_converse(
                a as int,
                n,
                -q - 1,
                n - 1 - r,
            );
        }
        -q - 1
    }
}

} // verus!
