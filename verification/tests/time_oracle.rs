//! Timestamps held against an independent count of the calendar: years and
//! months are counted one by one out of a table, and fractions are kept at the
//! full precision of the text.

use std::cmp::Ordering;

use sumer::host::time::{instant, now_rfc3339};
use sumer::wire::timestamp::Rfc3339;

const MONTH_LENGTHS: [i64; 12] = [31, 28, 31, 30, 31, 30, 31, 31, 30, 31, 30, 31];

fn is_leap(year: i64) -> bool {
    (year % 4 == 0 && year % 100 != 0) || year % 400 == 0
}

fn month_length(year: i64, month: usize) -> i64 {
    if month == 2 && is_leap(year) {
        29
    } else {
        MONTH_LENGTHS[month - 1]
    }
}

fn oracle_days(year: i64, month: i64, day: i64) -> Option<i64> {
    let month = usize::try_from(month).ok()?;
    if !(1..=12).contains(&month) {
        return None;
    }
    if day < 1 || day > month_length(year, month) {
        return None;
    }
    let mut days = 0i64;
    if year >= 1970 {
        for y in 1970..year {
            days += if is_leap(y) { 366 } else { 365 };
        }
    } else {
        for y in year..1970 {
            days -= if is_leap(y) { 366 } else { 365 };
        }
    }
    for m in 1..month {
        days += month_length(year, m);
    }
    Some(days + day - 1)
}

fn oracle_nanos(digits: &str) -> Option<u32> {
    let significant = digits.trim_end_matches('0');
    if significant.len() > 9 {
        return None;
    }
    let mut numerator: u128 = 0;
    for c in significant.chars() {
        numerator = numerator * 10 + u128::from(c.to_digit(10)?);
    }
    let scale = 10u128.checked_pow(u32::try_from(significant.len()).ok()?)?;
    let nanos = numerator * 1_000_000_000 / scale;
    u32::try_from(nanos).ok()
}

fn oracle_exact(text: &str) -> Option<(i64, String)> {
    let (body, offset_secs) = if let Some(rest) = text.strip_suffix(['Z', 'z']) {
        (rest.to_owned(), 0i64)
    } else {
        let sign_at = text.rfind(['+', '-']).filter(|at| *at > 10)?;
        let (body, offset) = text.split_at(sign_at);
        let (sign, hhmm) = offset.split_at(1);
        let (hh, mm) = hhmm.split_once(':')?;
        let magnitude = field(hh, 2)? * 3600 + field(mm, 2)? * 60;
        (
            body.to_owned(),
            if sign == "+" { magnitude } else { -magnitude },
        )
    };

    let (date, time) = body.split_once(['T', 't'])?;
    let mut date_fields = date.split('-');
    let year = field(date_fields.next()?, 4)?;
    let month = field(date_fields.next()?, 2)?;
    let day = field(date_fields.next()?, 2)?;
    if date_fields.next().is_some() {
        return None;
    }

    let (clock, fraction) = match time.split_once('.') {
        Some((clock, fraction)) => (clock, fraction),
        None => (time, ""),
    };
    if !fraction.chars().all(|c| c.is_ascii_digit()) {
        return None;
    }
    let mut clock_fields = clock.split(':');
    let hour = field(clock_fields.next()?, 2)?;
    let minute = field(clock_fields.next()?, 2)?;
    let second = field(clock_fields.next()?, 2)?;
    if clock_fields.next().is_some() {
        return None;
    }

    let days = oracle_days(year, month, day)?;
    let secs = days * 86_400 + hour * 3600 + minute * 60 + second - offset_secs;
    Some((secs, fraction.to_owned()))
}

fn oracle_instant(text: &str) -> Option<(i64, u32)> {
    let (secs, fraction) = oracle_exact(text)?;
    Some((secs, oracle_nanos(&fraction)?))
}

fn field(text: &str, width: usize) -> Option<i64> {
    if text.len() != width || !text.chars().all(|c| c.is_ascii_digit()) {
        return None;
    }
    text.parse().ok()
}

fn oracle_cmp(left: &str, right: &str) -> Option<Ordering> {
    let (left_secs, left_fraction) = oracle_exact(left)?;
    let (right_secs, right_fraction) = oracle_exact(right)?;
    let width = left_fraction.len().max(right_fraction.len());
    Some(
        left_secs
            .cmp(&right_secs)
            .then_with(|| pad(&left_fraction, width).cmp(&pad(&right_fraction, width))),
    )
}

fn pad(digits: &str, width: usize) -> String {
    let mut padded = digits.to_owned();
    while padded.len() < width {
        padded.push('0');
    }
    padded
}

fn corpus_years() -> Vec<i64> {
    let mut years: Vec<i64> = (1968..=2032).collect();
    years.extend([
        1, 4, 100, 400, 1582, 1600, 1699, 1700, 1899, 1900, 2100, 2400, 9999,
    ]);
    years
}

const FRACTIONS: [&str; 18] = [
    "0",
    "00",
    "000000000",
    "0000000000",
    "1",
    "5",
    "25",
    "50",
    "500",
    "999999999",
    "5000000000",
    "0000000001",
    "0000000002",
    "9999999999",
    "00000000010000000000",
    "1000000000000000000000000000000000000000",
    "0000000000000000000000000000000000000001",
    "123456789987654321",
];

fn fraction_corpus() -> Vec<String> {
    let mut out = Vec::new();
    for base in ["2026-01-01T00:00:00", "2026-06-30T23:59:59"] {
        out.push(format!("{base}Z"));
        for fraction in FRACTIONS {
            out.push(format!("{base}.{fraction}Z"));
            out.push(format!("{base}.{fraction}+02:00"));
        }
    }
    out
}

fn parse(text: &str) -> Option<Rfc3339> {
    Rfc3339::new(text).ok()
}

#[test]
fn oracle_matches_externally_known_epoch_days() {
    let anchors = [
        (1970, 1, 1, 0),
        (1969, 12, 31, -1),
        (2000, 1, 1, 10_957),
        (2038, 1, 19, 24_855),
        (1900, 1, 1, -25_567),
        (2016, 2, 29, 16_860),
        (2100, 3, 1, 47_541),
        (1600, 2, 29, -135_081),
        (1700, 3, 1, -98_556),
        (1, 1, 1, -719_162),
        (9999, 12, 31, 2_932_896),
    ];
    for (year, month, day, expected) in anchors {
        assert_eq!(
            oracle_days(year, month, day),
            Some(expected),
            "oracle disagrees with GNU date at {year:04}-{month:02}-{day:02}"
        );
    }
    for (year, month, day) in [(2026, 2, 29), (2026, 2, 30), (2026, 4, 31), (1900, 2, 29)] {
        assert_eq!(
            oracle_days(year, month, day),
            None,
            "{year:04}-{month:02}-{day:02} is not a date"
        );
    }
}

#[test]
fn corpus_is_not_hollow() {
    let impossible = corpus_years()
        .into_iter()
        .flat_map(|year| {
            (1..=12).flat_map(move |month| (1..=31).map(move |day| (year, month, day)))
        })
        .filter(|(year, month, day)| oracle_days(*year, *month, *day).is_none())
        .count();
    assert!(
        impossible >= 500,
        "the date corpus must contain dates the calendar does not have, found {impossible}"
    );

    let sub_nanosecond = FRACTIONS
        .iter()
        .filter(|fraction| oracle_nanos(fraction).is_none())
        .count();
    assert!(
        sub_nanosecond >= 4,
        "the fraction corpus must reach past nanosecond resolution, found {sub_nanosecond}"
    );
    let earlier = "2026-01-01T00:00:00.0000000001Z";
    let later = "2026-01-01T00:00:00.0000000002Z";
    assert_eq!(oracle_cmp(earlier, later), Some(Ordering::Less));
    assert!(parse(earlier).is_some() && parse(later).is_some());
}

#[test]
fn every_admissible_date_agrees_with_the_oracle() {
    let mut checked = 0usize;
    for year in corpus_years() {
        for month in 1..=12 {
            for day in 1..=31 {
                let text = format!("{year:04}-{month:02}-{day:02}T00:00:00Z");
                let Some(ts) = parse(&text) else {
                    continue;
                };
                checked += 1;
                let expected = oracle_days(year, month, day).map(|days| (days * 86_400, 0));
                assert_eq!(
                    instant(&ts),
                    expected,
                    "{text}: an impossible date must be unorderable, never silently rolled \
                     into a different one -- rolling it moves the record across history_start"
                );
            }
        }
    }
    assert!(checked > 20_000, "corpus shrank to {checked}");
}

#[test]
fn clock_fields_and_offsets_agree_with_the_oracle() {
    for date in [
        "1969-12-31",
        "1970-01-01",
        "2000-02-29",
        "2026-09-06",
        "2400-12-31",
    ] {
        for hour in [0, 1, 12, 23] {
            for minute in [0, 30, 59] {
                for second in [0, 1, 59] {
                    for offset in ["Z", "+00:00", "+02:00", "-02:00", "+23:59", "-23:59"] {
                        let text = format!("{date}T{hour:02}:{minute:02}:{second:02}{offset}");
                        let Some(ts) = parse(&text) else {
                            panic!("{text} should be a valid wire timestamp");
                        };
                        assert_eq!(instant(&ts), oracle_instant(&text), "{text}");
                    }
                }
            }
        }
    }
}

#[test]
fn fractions_agree_with_the_oracle() {
    for text in fraction_corpus() {
        let Some(ts) = parse(&text) else {
            panic!("{text} should be a valid wire timestamp");
        };
        assert_eq!(instant(&ts), oracle_instant(&text), "{text}");
    }
}

#[test]
fn sub_nanosecond_fractions_are_unorderable() {
    for fraction in ["0000000001", "9999999999", "123456789987654321"] {
        let text = format!("2026-01-01T00:00:00.{fraction}Z");
        let ts = parse(&text).unwrap();
        assert_eq!(
            instant(&ts),
            None,
            "{text} is finer than a nanosecond and has no (secs, nanos) that is right"
        );
    }
    for (fraction, nanos) in [("5000000000", 500_000_000), ("0000000000", 0)] {
        let text = format!("2026-01-01T00:00:00.{fraction}Z");
        let ts = parse(&text).unwrap();
        assert_eq!(instant(&ts).map(|i| i.1), Some(nanos), "{text}");
    }
}

#[test]
fn ordering_never_contradicts_the_exact_decimal_ordering() {
    let corpus = fraction_corpus();
    let mut compared = 0usize;
    for left in &corpus {
        for right in &corpus {
            let (Some(left_ts), Some(right_ts)) = (parse(left), parse(right)) else {
                continue;
            };
            let (Some(left_instant), Some(right_instant)) = (instant(&left_ts), instant(&right_ts))
            else {
                continue;
            };
            compared += 1;
            assert_eq!(
                left_instant.cmp(&right_instant),
                oracle_cmp(left, right).unwrap(),
                "{left} vs {right}"
            );
        }
    }
    assert!(compared > 1_000, "pair corpus shrank to {compared}");
}

#[test]
fn a_record_before_history_start_is_never_retraction_eligible() {
    let corpus = fraction_corpus();
    for at in &corpus {
        for start in &corpus {
            if oracle_cmp(at, start) != Some(Ordering::Less) {
                continue;
            }
            let (Some(at_ts), Some(start_ts)) = (parse(at), parse(start)) else {
                continue;
            };
            let eligible = match (instant(&at_ts), instant(&start_ts)) {
                (Some(at), Some(start)) => at >= start,
                _ => false,
            };
            assert!(
                !eligible,
                "{at} precedes {start} yet it would be retracted"
            );
        }
    }
}

#[test]
fn now_rfc3339_agrees_with_the_oracle() {
    let ts = now_rfc3339().unwrap();
    assert_eq!(instant(&ts), oracle_instant(ts.as_str()), "{}", ts.as_str());
    let (secs, nanos) = instant(&ts).unwrap();
    assert_eq!(nanos, 0, "second precision");
    assert!(secs > 1_750_000_000, "a plausibly current instant: {secs}");
}
