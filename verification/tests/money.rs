use std::collections::HashMap;

use sumer::money::amount::{
    digit_count, digits_to_integer, format_decimal, pow_ten, rescale_units, Amount, AmountWire,
};
use sumer::money::asset::AssetId;
use sumer::money::error::MoneyError;
use sumer::money::integer::BigInteger;
use sumer::money::{MAX_ASSET_ID_LEN, MAX_DIGITS, MAX_INPUT_LEN, MAX_SCALE};

fn must_ok<T, E: std::fmt::Debug>(r: Result<T, E>) -> T {
    match r {
        Ok(v) => v,
        Err(e) => panic!("expected Ok, got Err({e:?})"),
    }
}

fn must_err<T: std::fmt::Debug>(r: Result<T, MoneyError>) -> MoneyError {
    match r {
        Err(e) => e,
        Ok(v) => panic!("expected Err, got Ok({v:?})"),
    }
}

fn asset(s: &str) -> AssetId {
    must_ok(AssetId::new(s))
}

fn parse(asset_str: &str, amount: &str) -> Result<Amount, MoneyError> {
    Amount::parse(asset(asset_str), amount)
}

fn amt(asset: &str, s: &str) -> Amount {
    Amount::parse(AssetId::new(asset).unwrap(), s).unwrap()
}

fn whole(n: i64) -> BigInteger {
    let digits = n.unsigned_abs().to_string();
    let magnitude = digits_to_integer(digits.as_bytes());
    if n < 0 {
        magnitude.negated()
    } else {
        magnitude
    }
}

fn normal_form(a: &Amount) -> (String, bool, u8) {
    let (units, scale) = a.normalized();
    (units.magnitude_decimal(), units.is_negative(), scale)
}

// --- digit counting ---

#[test]
fn digit_count_of_zero_is_one() {
    assert_eq!(digit_count(&whole(0)), 1);
}

#[test]
fn digit_count_ignores_sign() {
    assert_eq!(digit_count(&whole(-12345)), 5);
    assert_eq!(digit_count(&whole(12345)), 5);
}

#[test]
fn digit_count_of_large_number() {
    let s = "9".repeat(200);
    let n = digits_to_integer(s.as_bytes());
    assert_eq!(digit_count(&n), 200);
}

// --- normalization ---

#[test]
fn normalizes_trailing_zeros() {
    let a = amt("USD", "1.50");
    assert_eq!(normal_form(&a), ("15".to_owned(), false, 1));
    let (units, scale) = a.normalized();
    assert!(units.equals(&whole(15)));
    assert_eq!(scale, 1);
}

#[test]
fn normalizes_zero_to_scale_zero() {
    let a = amt("USD", "0.000");
    let (units, scale) = a.normalized();
    assert!(units.equals(&whole(0)));
    assert_eq!(scale, 0);
}

#[test]
fn normalizes_integer_unchanged() {
    let a = amt("USD", "100");
    let (units, scale) = a.normalized();
    assert!(units.equals(&whole(100)));
    assert_eq!(scale, 0);
}

#[test]
fn different_assets_never_equal() {
    let a = amt("USD", "1.5");
    let b = amt("EUR", "1.5");
    assert_ne!(a, b);
    assert_eq!(a.partial_cmp(&b), None);
    assert_eq!(a.cmp_same_asset(&b), Err(MoneyError::AssetMismatch));
}

// --- rescaling ---

#[test]
fn rescale_multiplies_by_power_of_ten() {
    let units = whole(5);
    assert!(rescale_units(&units, 0, 2).equals(&whole(500)));
    assert!(rescale_units(&units, 2, 2).equals(&whole(5)));
}

#[test]
fn pow10_boundary() {
    assert!(pow_ten(0).equals(&whole(1)));
    assert!(pow_ten(3).equals(&whole(1000)));
}

// --- the digit limit ---

#[test]
fn accepts_exactly_max_digits() {
    let s = "9".repeat(MAX_DIGITS);
    assert!(Amount::parse(AssetId::new("USD").unwrap(), &s).is_ok());
}

#[test]
fn rejects_one_over_max_digits() {
    let s = "9".repeat(MAX_DIGITS + 1);
    let err = Amount::parse(AssetId::new("USD").unwrap(), &s).unwrap_err();
    assert_eq!(
        err,
        MoneyError::TooManyDigits {
            digits: MAX_DIGITS + 1
        }
    );
}

#[test]
fn add_within_bound_succeeds_even_with_many_digits() {
    let uint256_max_wei =
        "115792089237316195423570985008687907853269984665640564039457584007913129639935";
    assert_eq!(uint256_max_wei.len(), 78);
    let a = amt("USD", uint256_max_wei);
    let b = amt("USD", &format!("0.{}", "1".repeat(38)));
    let sum = a.add(&b).expect("116 digits is within MAX_DIGITS");
    assert_eq!(digit_count(sum.units()), 116);
}

// --- add, sub, neg ---

#[test]
fn add_rescales_to_max_scale() {
    let a = amt("USD", "5.0");
    let b = amt("USD", "-5.0");
    let sum = a.add(&b).unwrap();
    assert_eq!(sum.scale(), 1);
    assert!(sum.is_zero());
    assert_eq!(sum.to_string(), "0.0");
}

#[test]
fn sub_is_add_of_negation() {
    let a = amt("USD", "10.25");
    let b = amt("USD", "0.25");
    assert_eq!(a.sub(&b).unwrap(), amt("USD", "10.00"));
}

#[test]
fn neg_preserves_scale_and_digits() {
    let a = amt("USD", "10.25");
    let n = a.neg();
    assert_eq!(n.scale(), a.scale());
    assert_eq!(n.to_string(), "-10.25");
    assert_eq!(n.neg().to_string(), "10.25");
}

// --- asset ids ---

#[test]
fn an_asset_id_is_read_from_text() {
    let usd: AssetId = "USD".parse().unwrap();
    assert_eq!(usd.as_str(), "USD");
    assert_eq!("US D".parse::<AssetId>(), Err(MoneyError::AssetIdInvalidByte { at: 2 }));
}

#[test]
fn rejects_empty() {
    assert_eq!(AssetId::new(""), Err(MoneyError::AssetIdEmpty));
}

#[test]
fn rejects_too_long() {
    let s = "A".repeat(MAX_ASSET_ID_LEN + 1);
    assert_eq!(
        AssetId::new(&s),
        Err(MoneyError::AssetIdTooLong {
            len: MAX_ASSET_ID_LEN + 1
        })
    );
}

#[test]
fn accepts_exactly_max_len() {
    let s = "A".repeat(MAX_ASSET_ID_LEN);
    assert!(AssetId::new(&s).is_ok());
}

#[test]
fn rejects_space_and_control_bytes() {
    assert_eq!(
        AssetId::new("US D"),
        Err(MoneyError::AssetIdInvalidByte { at: 2 })
    );
    assert_eq!(
        AssetId::new("USD\n"),
        Err(MoneyError::AssetIdInvalidByte { at: 3 })
    );
}

#[test]
fn no_normalization_case_sensitive() {
    let upper = AssetId::new("USD").unwrap();
    let lower = AssetId::new("usd").unwrap();
    assert_ne!(upper, lower);
    assert_eq!(upper.as_str(), "USD");
}

// --- the wire ---

#[test]
fn one_satoshi() {
    let a = must_ok(parse("btc", "0.00000001"));
    assert_eq!(a.scale(), 8);
    assert_eq!(a.to_string(), "0.00000001");
}

#[test]
fn twenty_one_million_btc_in_satoshis() {
    let a = must_ok(parse("btc-sats", "2100000000000000"));
    assert_eq!(a.scale(), 0);
    assert_eq!(a.to_string(), "2100000000000000");
}

#[test]
fn uint256_max_wei() {
    let max = "115792089237316195423570985008687907853269984665640564039457584007913129639935";
    let a = must_ok(parse("wei", max));
    assert_eq!(a.scale(), 0);
    assert_eq!(a.to_string(), max);
}

#[test]
fn scale_two_cent_amount() {
    let a = must_ok(parse("usd", "0.01"));
    assert_eq!(a.scale(), 2);
    assert_eq!(a.to_string(), "0.01");
}

#[test]
fn teller_shaped_negative_amount() {
    let a = must_ok(parse("usd-checking", "-10.25"));
    assert_eq!(a.scale(), 2);
    assert_eq!(a.to_string(), "-10.25");
}

fn wire_of(json: &str) -> AmountWire {
    let value: serde_json::Value = must_ok(serde_json::from_str(json));
    AmountWire {
        asset: value["asset"].as_str().unwrap().to_owned(),
        amount: value["amount"].as_str().unwrap().to_owned(),
    }
}

fn json_of(wire: &AmountWire) -> String {
    let asset = serde_json::Value::String(wire.asset.clone()).to_string();
    let amount = serde_json::Value::String(wire.amount.clone()).to_string();
    format!("{{\"asset\":{asset},\"amount\":{amount}}}")
}

#[test]
fn json_round_trip_string_amount() {
    let json = r#"{"asset":"usd-checking","amount":"-10.25"}"#;
    let a = must_ok(Amount::from_wire(&wire_of(json)));
    assert_eq!(a.asset().as_str(), "usd-checking");
    assert_eq!(a.to_string(), "-10.25");

    let out = json_of(&a.to_wire());
    assert_eq!(out, json);

    let a2 = must_ok(Amount::from_wire(&wire_of(&out)));
    assert!(a.same_repr(&a2));
}

#[test]
fn serialize_after_arithmetic_near_the_boundary_stays_ok() {
    let max = "115792089237316195423570985008687907853269984665640564039457584007913129639935";
    let a = must_ok(parse("wei", max));
    let tiny = must_ok(parse("wei", "0.00000000000000000000000000000000000001"));

    let sum = must_ok(a.add(&tiny));
    assert_eq!(sum.scale(), 38);

    let expected = "115792089237316195423570985008687907853269984665640564039457584007913129639935\
         .00000000000000000000000000000000000001";
    assert_eq!(sum.to_string(), expected);

    let json = json_of(&sum.to_wire());
    let reparsed = must_ok(Amount::from_wire(&wire_of(&json)));
    assert!(sum.same_repr(&reparsed));

    let reparsed_from_display = must_ok(parse("wei", &sum.to_string()));
    assert!(sum.same_repr(&reparsed_from_display));
}

#[test]
fn coefficient_overflow_on_rescale_during_add() {
    let big_128_digits = format!("1{}", "0".repeat(127));
    assert_eq!(big_128_digits.len(), 128);

    let a = must_ok(parse("wei", &big_128_digits));
    let tiny = must_ok(parse("wei", "0.00000000000000000000000000000000000001"));

    let err = must_err(a.add(&tiny));
    assert_eq!(err, MoneyError::CoefficientOverflow);

    let err = must_err(a.sub(&tiny));
    assert_eq!(err, MoneyError::CoefficientOverflow);
}

#[test]
fn rejection_table_amount_parse() {
    let cases: Vec<(&str, MoneyError)> = vec![
        ("", MoneyError::Empty),
        ("007.50", MoneyError::LeadingZero { at: 0 }),
        ("1e18", MoneyError::ExponentNotation { at: 1 }),
        ("1E-7", MoneyError::ExponentNotation { at: 1 }),
        (".5", MoneyError::MissingIntegerPart),
        ("5.", MoneyError::MissingFractionDigits),
        ("100. 0", MoneyError::InvalidByte { at: 4 }),
        ("100.x", MoneyError::InvalidByte { at: 4 }),
        ("5.e3", MoneyError::ExponentNotation { at: 2 }),
        ("-0", MoneyError::SignOnZero),
        ("-0.00", MoneyError::SignOnZero),
        ("+5", MoneyError::InvalidByte { at: 0 }),
        ("1,000", MoneyError::InvalidByte { at: 1 }),
        (" 5", MoneyError::InvalidByte { at: 0 }),
        ("5 ", MoneyError::InvalidByte { at: 1 }),
        ("NaN", MoneyError::InvalidByte { at: 0 }),
        ("Infinity", MoneyError::InvalidByte { at: 0 }),
        (
            "\u{0661}\u{0662}\u{0663}",
            MoneyError::InvalidByte { at: 0 },
        ),
    ];

    for (input, expected) in cases {
        let err = must_err(parse("usd", input));
        assert_eq!(err, expected, "input = {input:?}");
    }
}

#[test]
fn rejection_table_too_many_digits() {
    let s = "9".repeat(129);
    let err = must_err(parse("usd", &s));
    assert_eq!(err, MoneyError::TooManyDigits { digits: 129 });
}

#[test]
fn rejection_table_scale_too_large() {
    let s = format!("0.{}", "1".repeat(39));
    let err = must_err(parse("usd", &s));
    assert_eq!(err, MoneyError::ScaleTooLarge { scale: 39 });
}

#[test]
fn rejection_table_input_too_long_checked_before_parsing() {
    let s = "9".repeat(193);
    let err = must_err(parse("usd", &s));
    assert_eq!(err, MoneyError::InputTooLong { len: 193 });
}

#[test]
fn rejection_table_asset_id() {
    assert_eq!(must_err(AssetId::new("")), MoneyError::AssetIdEmpty);

    let long = "a".repeat(129);
    assert_eq!(
        must_err(AssetId::new(&long)),
        MoneyError::AssetIdTooLong { len: 129 }
    );

    assert_eq!(
        must_err(AssetId::new("bad id")),
        MoneyError::AssetIdInvalidByte { at: 3 }
    );

    assert_eq!(
        must_err(AssetId::new("id\u{7F}")),
        MoneyError::AssetIdInvalidByte { at: 2 }
    );
}

#[test]
fn value_equality_ignores_trailing_zero_scale() {
    let a = must_ok(parse("usd", "1.5"));
    let b = must_ok(parse("usd", "1.50"));
    assert_eq!(a, b, "1.5 and 1.50 are the same value");
    assert!(!a.same_repr(&b), "but they are NOT the same representation");
}

#[test]
fn hash_agrees_with_eq_across_scale_padding() {
    let a = must_ok(parse("usd", "1.5"));
    let b = must_ok(parse("usd", "1.50"));

    let mut map: HashMap<Amount, i32> = HashMap::new();
    map.insert(a.clone(), 1);
    map.insert(b.clone(), 2);

    assert_eq!(map.len(), 1, "1.5 and 1.50 must hash to one HashMap entry");
    assert_eq!(map.get(&a), Some(&2));
    assert_eq!(map.get(&b), Some(&2));
}

#[test]
fn display_output_reparses_to_the_same_representation() {
    let inputs = [
        "0",
        "0.0",
        "100",
        "-10.25",
        "0.00000001",
        "1.50",
        "1.5",
        "115792089237316195423570985008687907853269984665640564039457584007913129639935",
    ];
    for s in inputs {
        let a = must_ok(parse("usd", s));
        let shown = a.to_string();
        assert_eq!(shown, s, "the text must be byte-identical to the input");
        let reparsed = must_ok(parse("usd", &shown));
        assert!(
            a.same_repr(&reparsed),
            "re-parsing must reproduce the same representation for {s:?}"
        );
    }
}

#[test]
fn cross_asset_add_is_asset_mismatch() {
    let a = must_ok(parse("usd", "5"));
    let b = must_ok(parse("eur", "5"));
    assert_eq!(must_err(a.add(&b)), MoneyError::AssetMismatch);
    assert_eq!(must_err(a.sub(&b)), MoneyError::AssetMismatch);
    assert_eq!(a.cmp_same_asset(&b), Err(MoneyError::AssetMismatch));
}

#[test]
fn zero_preserves_scale_from_the_operands() {
    let a = must_ok(parse("usd", "5.0"));
    let b = must_ok(parse("usd", "-5.0"));
    let sum = must_ok(a.add(&b));
    assert!(sum.is_zero());
    assert_eq!(sum.scale(), 1);
    assert_eq!(sum.to_string(), "0.0");
}

// --- messages, limits and laws on concrete values ---

#[test]
fn limits_are_as_documented() {
    assert_eq!(
        (MAX_SCALE, MAX_DIGITS, MAX_ASSET_ID_LEN, MAX_INPUT_LEN),
        (38, 128, 128, 192)
    );
}

#[test]
fn every_error_has_its_message() {
    let cases: Vec<(MoneyError, &str)> = vec![
        (MoneyError::Empty, "amount string is empty"),
        (
            MoneyError::InputTooLong { len: 193 },
            "amount string is 193 bytes, exceeds the 192-byte input limit",
        ),
        (
            MoneyError::InvalidByte { at: 4 },
            "invalid byte at offset 4",
        ),
        (
            MoneyError::LeadingZero { at: 0 },
            "leading zero not allowed at offset 0",
        ),
        (
            MoneyError::SignOnZero,
            "sign not allowed on a zero value",
        ),
        (
            MoneyError::MissingIntegerPart,
            "missing integer part before the decimal point",
        ),
        (
            MoneyError::MissingFractionDigits,
            "missing fraction digits after the decimal point",
        ),
    ];
    for (error, text) in cases {
        assert_eq!(error.to_string(), text);
    }
    assert!(MoneyError::ExponentNotation { at: 2 }
        .to_string()
        .starts_with("exponent notation at offset 2 is not allowed"));
}

#[test]
fn addition_commutes_associates_and_is_undone() {
    let (a, b, c) = (amt("USD", "0.1"), amt("USD", "0.22"), amt("USD", "-3"));
    let ab = a.add(&b).unwrap();
    assert!(ab.same_repr(&b.add(&a).unwrap()));
    assert_eq!(ab.to_string(), "0.32");
    assert_eq!(
        ab.add(&c).unwrap().to_string(),
        a.add(&b.add(&c).unwrap()).unwrap().to_string()
    );
    assert_eq!(ab.sub(&b).unwrap(), a);
    assert!(!amt("USD", "0.3").same_repr(&amt("USD", "0.30")));
}

#[test]
fn order_is_by_value_not_by_text() {
    let small = amt("USD", "9.99");
    let large = amt("USD", "10.0");
    assert_eq!(
        small.cmp_same_asset(&large),
        Ok(std::cmp::Ordering::Less)
    );
    assert_eq!(
        amt("USD", "-1").cmp_same_asset(&amt("USD", "-1.00")),
        Ok(std::cmp::Ordering::Equal)
    );
    assert!(large > small);
}

#[test]
fn integer_arithmetic_is_exact() {
    let a = digits_to_integer(b"123456789012345678901234567890");
    let b = whole(-7);
    assert_eq!(a.times(&b).magnitude_decimal(), "864197523086419752308641975230");
    assert!(a.times(&b).is_negative());
    assert_eq!(a.plus(&a).magnitude_decimal(), "246913578024691357802469135780");
    let q = a.divided_by(&whole(1000));
    let r = a.remainder(&whole(1000));
    assert_eq!(q.magnitude_decimal(), "123456789012345678901234567");
    assert_eq!(r.magnitude_decimal(), "890");
    assert!(whole(-17).remainder(&whole(5)).equals(&whole(-2)));
    assert!(whole(-17).divided_by(&whole(5)).equals(&whole(-3)));
    assert!(whole(10).to_power(3).equals(&whole(1000)));
    assert_eq!(whole(2).compare(&whole(3)), std::cmp::Ordering::Less);
    assert_eq!(format_decimal(&whole(-5), 3), "-0.005");
}

#[test]
fn equal_amounts_share_one_normal_text() {
    assert_eq!(amt("USD", "1.5").normal_text(), "1.5");
    assert_eq!(amt("USD", "1.50").normal_text(), "1.5");
    assert_eq!(amt("USD", "-0.100").normal_text(), "-0.1");
    assert_eq!(amt("USD", "0.000").normal_text(), "0");
}
