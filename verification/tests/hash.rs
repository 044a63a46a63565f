use sumer::money::amount::Amount;
use sumer::money::asset::AssetId;
use sumer::store::hash::{content_hash, resource_fingerprint, sha256_hex};
use sumer::wire::json::{push_quoted, JsonObject};
use sumer::wire::record::{
    Completeness, Observation, ObservationState, Posting, Provenance, ProvenanceWire, RawSign,
    ResourceDescriptor, Staleness,
};
use sumer::wire::timestamp::Rfc3339;

fn observation(amount: &str, received_at: &str, staleness: Staleness) -> Observation {
    Observation {
        resource_id: "acct".to_owned(),
        local_id: "L1".to_owned(),
        provider_id: None,
        supersedes_provider_id: None,
        state: ObservationState::Active,
        tombstone_reason: None,
        surface: "checking".to_owned(),
        posting: Posting::Posted,
        amount: Amount::parse(AssetId::new("usd").unwrap(), amount).unwrap(),
        fees: None,
        raw_sign: RawSign::ProviderPositive,
        description: "coffee".to_owned(),
        provider_extra: JsonObject::empty(),
        provenance: Provenance::stamp(
            ProvenanceWire {
                adapter_id: "a1".to_owned(),
                provider_id: "p1".to_owned(),
                surface: "checking".to_owned(),
                observed_at: Rfc3339::new("2026-01-01T00:00:00Z").unwrap(),
                effective_at: None,
                completeness: Completeness::Complete,
            },
            Rfc3339::new(received_at).unwrap(),
            staleness,
        ),
    }
}

#[test]
fn host_stamped_provenance_is_not_part_of_the_hash() {
    let first = observation("42.00", "2026-01-01T00:00:00Z", Staleness::Live);
    let second = observation("42.00", "2027-06-30T23:59:59Z", Staleness::Cached);
    assert_eq!(
        content_hash(&first),
        content_hash(&second),
        "received_at and staleness are host-stamped, not adapter-authored content"
    );
}

#[test]
fn a_changed_amount_moves_the_hash() {
    let before = observation("42.00", "2026-01-01T00:00:00Z", Staleness::Live);
    let after = observation("42.37", "2026-01-01T00:00:00Z", Staleness::Live);
    assert_ne!(content_hash(&before), content_hash(&after));
}

#[test]
fn the_resource_is_content() {
    let here = observation("42.00", "2026-01-01T00:00:00Z", Staleness::Live);
    let mut moved = here.clone();
    moved.resource_id = "other".to_owned();
    assert_ne!(content_hash(&here), content_hash(&moved));
}

#[test]
fn scale_is_content() {
    let coarse = observation("42.0", "2026-01-01T00:00:00Z", Staleness::Live);
    let fine = observation("42.00", "2026-01-01T00:00:00Z", Staleness::Live);
    assert_ne!(content_hash(&coarse), content_hash(&fine));
}

#[test]
fn digests_are_lowercase_hex_sha256() {
    assert_eq!(
        sha256_hex(b""),
        "e3b0c44298fc1c149afbf4c8996fb92427ae41e4649b934ca495991b7852b855"
    );
    assert_eq!(
        sha256_hex(b"abc"),
        "ba7816bf8f01cfea414140de5dae2223b00361a396177a9cb410ff61f20015ad"
    );
}

fn text(s: &str) -> serde_json::Value {
    serde_json::Value::String(s.to_owned())
}

fn money(amount: &str, asset: &str) -> serde_json::Value {
    let mut map = serde_json::Map::new();
    map.insert("amount".to_owned(), text(amount));
    map.insert("asset".to_owned(), text(asset));
    serde_json::Value::Object(map)
}

#[test]
fn content_is_the_digest_of_one_sorted_json_object() {
    let mut record = observation("42.00", "2026-01-01T00:00:00Z", Staleness::Live);
    record.description = "caf\u{e9} \"quoted\" \\ \n\t\u{1}\u{7f}\u{1F600}".to_owned();
    record.provider_id = Some("tx/1".to_owned());
    record.fees = Some(Amount::parse(AssetId::new("usd").unwrap(), "0.10").unwrap());
    record.provider_extra = JsonObject::parse("{\"z\": [1, 2.5], \"a\": {\"k\": null}}").unwrap();

    let extra: serde_json::Value =
        serde_json::from_str("{\"z\": [1, 2.5], \"a\": {\"k\": null}}").unwrap();
    let mut map = serde_json::Map::new();
    map.insert("resource_id".to_owned(), text("acct"));
    map.insert("local_id".to_owned(), text("L1"));
    map.insert("provider_id".to_owned(), text("tx/1"));
    map.insert("supersedes_provider_id".to_owned(), serde_json::Value::Null);
    map.insert("state".to_owned(), text("active"));
    map.insert("tombstone_reason".to_owned(), serde_json::Value::Null);
    map.insert("surface".to_owned(), text("checking"));
    map.insert("posting".to_owned(), text("posted"));
    map.insert("amount".to_owned(), money("42.00", "usd"));
    map.insert("fees".to_owned(), money("0.10", "usd"));
    map.insert("raw_sign".to_owned(), text("provider_positive"));
    map.insert("description".to_owned(), text(&record.description));
    map.insert("provider_extra".to_owned(), extra);
    map.insert("observed_at".to_owned(), text("2026-01-01T00:00:00Z"));
    map.insert("effective_at".to_owned(), serde_json::Value::Null);
    map.insert("completeness".to_owned(), text("complete"));
    let canonical = serde_json::Value::Object(map).to_string();
    assert_eq!(content_hash(&record), sha256_hex(canonical.as_bytes()));
}

#[test]
fn who_the_provider_is_is_not_content() {
    let here = observation("42.00", "2026-01-01T00:00:00Z", Staleness::Live);
    let mut there = here.clone();
    there.provenance.provider_id = "p2".to_owned();
    there.provenance.surface = "savings".to_owned();
    assert_eq!(content_hash(&here), content_hash(&there));
}

fn descriptor(kind: &str, label: &str, extra: Option<&str>) -> ResourceDescriptor {
    ResourceDescriptor {
        resource_id: "acct".to_owned(),
        provider_id: "p".to_owned(),
        kind: kind.to_owned(),
        label: label.to_owned(),
        provider_extra: extra.map(|e| JsonObject::parse(e).unwrap()),
    }
}

#[test]
fn a_label_is_no_part_of_a_definition() {
    let checking = resource_fingerprint(&descriptor("account", "Checking", None));
    assert_eq!(checking, resource_fingerprint(&descriptor("account", "Renamed", None)));
    assert_eq!(checking, resource_fingerprint(&descriptor("account", "Checking", Some("{}"))));
    assert_ne!(checking, resource_fingerprint(&descriptor("wallet", "Checking", None)));
    assert_eq!(
        checking,
        sha256_hex(b"{\"kind\":\"account\",\"provider_extra\":{}}")
    );
    assert_eq!(
        resource_fingerprint(&descriptor("w", "", Some("{\"b\":1,\"a\":2}"))),
        sha256_hex(b"{\"kind\":\"w\",\"provider_extra\":{\"a\":2,\"b\":1}}")
    );
}

#[test]
fn json_objects_are_kept_in_canonical_text() {
    assert_eq!(JsonObject::empty().as_str(), "{}");
    assert_eq!(
        JsonObject::parse(" { \"b\" : \"x\" , \"a\" : [ ] } ").unwrap().as_str(),
        "{\"a\":[],\"b\":\"x\"}"
    );
    assert!(JsonObject::parse("[1]").is_err());
    assert!(JsonObject::parse("{\"a\":}").is_err());
}

/// How one character stands inside a JSON string.
fn inside_quotes(c: char) -> String {
    match c {
        '"' => "\\\"".to_owned(),
        '\\' => "\\\\".to_owned(),
        '\u{8}' => "\\b".to_owned(),
        '\u{c}' => "\\f".to_owned(),
        '\n' => "\\n".to_owned(),
        '\r' => "\\r".to_owned(),
        '\t' => "\\t".to_owned(),
        c if c < ' ' => format!("\\u{:04x}", u32::from(c)),
        c => c.to_string(),
    }
}

#[test]
fn every_character_is_quoted_by_the_table() {
    for c in '\0'..=char::MAX {
        let mut out = String::from(">");
        push_quoted(&mut out, c.encode_utf8(&mut [0; 4]));
        assert_eq!(out, format!(">\"{}\"", inside_quotes(c)));
    }
    let mut out = String::new();
    push_quoted(&mut out, "a\"b\\c\u{1f}\u{7f}\u{e9}");
    assert_eq!(out, "\"a\\\"b\\\\c\\u001f\u{7f}\u{e9}\"");
}

#[test]
fn every_authored_field_moves_the_hash() {
    let base = || observation("1.00", "2026-01-02T00:00:00Z", Staleness::Live);
    let hash = content_hash(&base());
    assert_eq!(hash.len(), 64);
    assert!(hash.bytes().all(|b| b.is_ascii_digit() || (b'a'..=b'f').contains(&b)));
    let changed: Vec<fn(&mut Observation)> = vec![
        |o| o.resource_id.push('x'),
        |o| o.local_id.push('x'),
        |o| o.provider_id = Some("x".to_owned()),
        |o| o.supersedes_provider_id = Some("x".to_owned()),
        |o| o.state = ObservationState::Tombstoned,
        |o| o.tombstone_reason = Some("x".to_owned()),
        |o| o.surface.push('x'),
        |o| o.posting = Posting::Pending,
        |o| o.amount = Amount::parse(AssetId::new("usd").unwrap(), "1.000").unwrap(),
        |o| o.fees = Some(Amount::parse(AssetId::new("usd").unwrap(), "0.10").unwrap()),
        |o| o.raw_sign = RawSign::ProviderNegative,
        |o| o.description.push('x'),
        |o| o.provider_extra = JsonObject::parse("{\"x\":1}").unwrap(),
        |o| o.provenance.observed_at = Rfc3339::new("2026-01-01T00:00:01Z").unwrap(),
        |o| o.provenance.effective_at = Some(Rfc3339::new("2026-01-01T00:00:01Z").unwrap()),
        |o| o.provenance.completeness = Completeness::Unknown,
    ];
    let mut hashes = vec![hash];
    for change in changed {
        let mut o = base();
        change(&mut o);
        let moved = content_hash(&o);
        assert!(!hashes.contains(&moved), "{o:?}");
        hashes.push(moved);
    }
}
