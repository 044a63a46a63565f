use sumer::host::calendar::{civil_from_days, days_from_civil};
use sumer::host::time::{instant, now_rfc3339, rfc3339_at, stamp_of_clock, stamp_of_reading};
use sumer::wire::timestamp::{MalformedTimestamp, Rfc3339};

fn at(text: &str) -> (i64, u32) {
    instant(&Rfc3339::new(text).unwrap()).expect("a validated timestamp is orderable")
}

#[test]
fn now_rfc3339_is_well_formed_and_recent() {
    let ts = now_rfc3339().unwrap();
    assert!(
        ts.as_str().starts_with("20"),
        "expected a 21st-century date, got {ts:?}"
    );
    assert!(ts.as_str().ends_with('Z'));
}

#[test]
fn civil_from_days_matches_known_dates() {
    assert_eq!(civil_from_days(0), (1970, 1, 1));
    assert_eq!(civil_from_days(11_017), (2000, 3, 1));
    assert_eq!(civil_from_days(20_702), (2026, 9, 6));
}

#[test]
fn days_from_civil_inverts_civil_from_days() {
    for days in [-100_000, -1, 0, 1, 11_017, 20_702, 100_000] {
        let (y, m, d) = civil_from_days(days);
        assert_eq!(days_from_civil(y, m, d), days, "round trip at {days}");
    }
}

#[test]
fn fractional_seconds_order_as_instants_not_as_text() {
    let plain = "2026-01-01T00:00:00Z";
    let frac = "2026-01-01T00:00:00.500Z";
    assert!(
        plain > frac,
        "the string comparison this replaces reads the earlier instant as LATER"
    );
    assert!(at(plain) < at(frac));
}

#[test]
fn a_numeric_offset_names_the_same_instant_as_z() {
    assert_eq!(at("2026-01-01T01:00:00+02:00"), at("2025-12-31T23:00:00Z"));
    assert_eq!(at("2025-12-31T22:00:00-02:00"), at("2026-01-01T00:00:00Z"));
}

#[test]
fn a_shorter_fraction_is_coarser_not_smaller() {
    assert!(at("2026-01-01T00:00:00.5Z") > at("2026-01-01T00:00:00.25Z"));
    assert_eq!(at("2026-01-01T00:00:00.5Z").1, 500_000_000);
}

#[test]
fn a_date_the_calendar_does_not_have_is_no_instant() {
    for text in ["2026-02-29T00:00:00Z", "2026-02-30T00:00:00Z", "2026-04-31T00:00:00Z"] {
        assert_eq!(instant(&Rfc3339::new(text).unwrap()), None, "{text}");
    }
    assert!(instant(&Rfc3339::new("2024-02-29T00:00:00Z").unwrap()).is_some());
}

#[test]
fn a_day_the_month_does_not_have_counts_on() {
    assert_eq!(days_from_civil(2026, 2, 30), days_from_civil(2026, 3, 2));
    assert_eq!(days_from_civil(1970, 1, 1), 0);
}

#[test]
fn stamps_are_second_precision_utc() {
    assert_eq!(rfc3339_at(0).as_str(), "1970-01-01T00:00:00Z");
    assert_eq!(rfc3339_at(951_782_399).as_str(), "2000-02-28T23:59:59Z");
    assert_eq!(rfc3339_at(951_782_400).as_str(), "2000-02-29T00:00:00Z");
    assert_eq!(
        stamp_of_clock(1_788_652_800).unwrap().as_str(),
        "2026-09-06T00:00:00Z"
    );
    assert_eq!(
        stamp_of_clock(253_402_300_799).unwrap().as_str(),
        "9999-12-31T23:59:59Z"
    );
    assert!(stamp_of_clock(253_402_300_800).is_none(), "no five-digit year");
    assert!(stamp_of_clock(u64::MAX).is_none());
}

#[test]
fn a_clock_before_the_epoch_counts_as_the_epoch() {
    assert_eq!(stamp_of_reading(None).unwrap().as_str(), "1970-01-01T00:00:00Z");
    assert_eq!(stamp_of_reading(Some(86_399)).unwrap().as_str(), "1970-01-01T23:59:59Z");
    assert!(stamp_of_reading(Some(253_402_300_800)).is_none());
}

#[test]
fn a_stamp_reads_back_as_the_second_it_was_made_from() {
    for secs in [0i64, 1, 59, 86_399, 86_400, 951_827_696, 4_102_444_800] {
        assert_eq!(instant(&rfc3339_at(secs)), Some((secs, 0)));
    }
}

#[test]
fn malformed_timestamps_are_refused() {
    for text in [
        "",
        "2026-01-01",
        "2026-01-01T00:00:00",
        "2026-13-01T00:00:00Z",
        "2026-01-01 00:00:00Z",
        "2026-01-01T25:00:00Z",
        "2026-01-01T00:00:00.Z",
        "2026-01-01T00:00:00+2:00",
    ] {
        assert_eq!(Rfc3339::new(text), Err(MalformedTimestamp), "{text:?}");
    }
}
