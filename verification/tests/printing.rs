use sumer::money::amount::Amount;
use sumer::money::asset::AssetId;
use sumer::money::error::MoneyError;
use sumer::store::cli::{
    complaint, exit_status, parse_command, split_profile, Command, USAGE,
};
use sumer::store::error::{check_version, StoreError, USER_VERSION};
use sumer::store::profile::{join_path, Profile, INIT_NOTICE};
use sumer::store::render::{balance_line, history_line, show_lines, sweep_line, time_of_day};
use sumer::store::report::SweepReport;
use sumer::store::rows::{BalanceRow, RetractionRow, StoredObservation};
use sumer::wire::json::JsonObject;
use sumer::wire::record::{
    Completeness, Observation, ObservationState, Posting, Provenance, ProvenanceWire, RawSign,
    Staleness,
};
use sumer::wire::timestamp::Rfc3339;

fn row(
    provider_id: &str,
    amount: Option<&str>,
    received_at: &str,
    staleness: Staleness,
    outcome: &str,
    from_latest_read: bool,
) -> BalanceRow {
    BalanceRow {
        balance_id: 0,
        adapter_id: "fake-adapter".to_owned(),
        resource_id: "acct".to_owned(),
        category: "available".to_owned(),
        canonical_hint: None,
        amount: amount.map(|a| Amount::parse(AssetId::new("usd").unwrap(), a).unwrap()),
        provider_id: provider_id.to_owned(),
        received_at: received_at.to_owned(),
        staleness,
        outcome: outcome.to_owned(),
        from_latest_read,
    }
}

#[test]
fn a_null_balance_from_a_different_provider_keeps_the_original_providers_identity() {
    let cached = row(
        "provider-a",
        Some("42.00"),
        "2026-01-10T00:00:00Z",
        Staleness::Cached,
        "stale:2026-01-01T00:00:00Z",
        true,
    );
    let failed = row(
        "provider-b",
        None,
        "2026-01-20T00:00:00Z",
        Staleness::Unavailable,
        "unavailable",
        true,
    );
    let line = balance_line("available", &[&cached, &failed]);
    assert!(line.contains("provider-a"), "{line}");
    assert!(!line.contains("provider-b"), "{line}");
    assert!(line.contains("2026-01-01"), "{line}");
    assert!(!line.contains("2026-01-10") && !line.contains("2026-01-20"), "{line}");
}

#[test]
fn a_row_no_later_read_refreshed_keeps_the_adapters_own_as_of_date() {
    let cached = row(
        "provider-a",
        Some("42.00"),
        "2026-01-10T00:00:00Z",
        Staleness::Cached,
        "stale:2026-01-01T00:00:00Z",
        false,
    );
    let line = balance_line("available", &[&cached]);
    assert!(line.contains("42.00") && line.contains("stale (as of"), "{line}");
    assert!(line.contains("2026-01-01"), "{line}");
    assert!(!line.contains("live"), "{line}");
    assert_eq!(cached.as_of(), "2026-01-01T00:00:00Z");
}

#[test]
fn the_same_row_reads_live_only_while_it_is_the_latest_reads_own() {
    let of_read = |latest: bool| {
        row(
            "provider-a",
            Some("42.00"),
            "2026-01-10T00:00:00Z",
            Staleness::Live,
            "fetched",
            latest,
        )
    };
    let fresh = of_read(true);
    let superseded = of_read(false);
    assert!(balance_line("available", &[&fresh]).contains("live"));
    let stale = balance_line("available", &[&superseded]);
    assert!(
        !stale.contains("live") && stale.contains("42.00") && stale.contains("stale (as of"),
        "{stale}"
    );
}

#[test]
fn balance_lines_are_aligned() {
    let live = row("p1", Some("42.00"), "2026-01-10T01:02:03Z", Staleness::Live, "fetched", true);
    assert_eq!(
        balance_line("available", &[&live]),
        "  available               42.00 usd   live \u{b7} p1 \u{b7} 01:02:03Z"
    );
    assert_eq!(balance_line("available", &[]), "  available      unavailable");
    let unknown = row("p1", None, "2026-01-10T01:02:03Z", Staleness::Live, "fetched", true);
    assert_eq!(
        balance_line("available", &[&unknown]),
        "  available             unknown     unknown \u{b7} p1 \u{b7} 01:02:03Z"
    );
}

#[test]
fn a_time_of_day_is_the_clock_of_a_timestamp() {
    assert_eq!(time_of_day("2026-01-10T01:02:03Z"), "01:02:03Z");
    assert_eq!(time_of_day("short"), "short");
}

fn observation(local_id: &str, state: ObservationState) -> Observation {
    Observation {
        resource_id: "acct".to_owned(),
        local_id: local_id.to_owned(),
        provider_id: None,
        supersedes_provider_id: None,
        state,
        tombstone_reason: None,
        surface: "s".to_owned(),
        posting: Posting::Posted,
        amount: Amount::parse(AssetId::new("usd").unwrap(), "10.00").unwrap(),
        fees: None,
        raw_sign: RawSign::ProviderPositive,
        description: "coffee".to_owned(),
        provider_extra: JsonObject::empty(),
        provenance: Provenance::stamp(
            ProvenanceWire {
                adapter_id: "a".to_owned(),
                provider_id: "p1".to_owned(),
                surface: "s".to_owned(),
                observed_at: Rfc3339::new("2026-01-01T00:00:00Z").unwrap(),
                effective_at: None,
                completeness: Completeness::Complete,
            },
            Rfc3339::new("2026-01-02T00:00:00Z").unwrap(),
            Staleness::Live,
        ),
    }
}

fn stored(revision: u64, crawl_id: i64) -> StoredObservation {
    StoredObservation {
        adapter_id: "a".to_owned(),
        observation_id: revision as i64,
        revision,
        crawl_id,
        last_seen_crawl: crawl_id,
        derivation: "d@1".to_owned(),
        fingerprint: None,
        content_hash: "0123456789abcdef".to_owned(),
        observation: observation("tx", ObservationState::Active),
    }
}

fn retraction(revision: u64) -> RetractionRow {
    RetractionRow {
        adapter_id: "a".to_owned(),
        local_id: "tx".to_owned(),
        revision,
        reason: "absent_from_complete_sweep".to_owned(),
        crawl_id: 9,
        retracted_at: "2026-01-03T00:00:00Z".to_owned(),
    }
}

#[test]
fn a_live_record_prints_what_it_is_and_whose_word_it_is() {
    assert_eq!(
        history_line("tx", 3, &observation("tx", ObservationState::Active)),
        "  tx  r3             10.00 usd  posted  coffee  live \u{b7} p1"
    );
    assert!(history_line("tx", 3, &observation("tx", ObservationState::Tombstoned))
        .contains("  tombstoned  "));
}

#[test]
fn a_chain_prints_in_revision_order_with_retractions_behind_their_revision() {
    let lines = show_lines(
        &[stored(2, 7), stored(1, 4)],
        &[retraction(1)],
    );
    assert_eq!(lines.len(), 3);
    assert_eq!(
        lines[0],
        "  r1  observation             10.00 usd  posted  crawl 4 \u{b7} p1 \u{b7} received \
         2026-01-02T00:00:00Z \u{b7} content 0123456789ab"
    );
    assert_eq!(
        lines[1],
        "  r1  RETRACTED    absent_from_complete_sweep  crawl 9 \u{b7} at 2026-01-03T00:00:00Z"
    );
    assert!(lines[2].starts_with("  r2  observation"));
}

#[test]
fn a_sweep_prints_one_line() {
    let mut report = SweepReport::empty("a", "acct");
    report.new = 1;
    report.revised = 2;
    report.retracted = 3;
    report.unchanged = 4;
    let head = "a/acct: 1 new \u{b7} 2 revised \u{b7} 3 retracted \u{b7} 4 unchanged \u{b7} ";
    assert_eq!(sweep_line(&report), format!("{head}sweep: complete"));
    report.disqualified_reason = Some("did not drain".to_owned());
    assert_eq!(
        sweep_line(&report),
        format!("{head}sweep: partial -- did not drain, no retractions derived")
    );
    report.error = Some("boom".to_owned());
    assert_eq!(sweep_line(&report), format!("{head}sweep: failed -- boom"));
}

// --- failures of the store ---

#[test]
fn every_store_failure_has_its_message() {
    let cases: Vec<(StoreError, &str)> = vec![
        (StoreError::Sqlite("disk".to_owned()), "sqlite: disk"),
        (StoreError::Io("gone".to_owned()), "io: gone"),
        (StoreError::Json("bad".to_owned()), "json: bad"),
        (StoreError::Money(MoneyError::Empty), "money: amount string is empty"),
        (StoreError::Host("down".to_owned()), "adapter: down"),
        (
            StoreError::ProfileLocked("/p".to_owned()),
            "another sumer process is writing to the profile at /p",
        ),
        (
            StoreError::NoProfile("/p".to_owned()),
            "no profile at /p -- run `sumer init` first",
        ),
        (
            StoreError::SchemaVersion { path: "/p".to_owned(), found: -2, expected: 1 },
            "profile at /p is schema version -2, this build speaks 1",
        ),
        (
            StoreError::CorruptRow("odd".to_owned()),
            "stored row is unreadable: odd",
        ),
        (StoreError::Usage("say what".to_owned()), "say what"),
    ];
    for (error, text) in cases {
        assert_eq!(error.to_string(), text);
    }
}

#[test]
fn only_this_builds_schema_is_opened() {
    assert!(check_version("/p", USER_VERSION).is_ok());
    assert!(matches!(
        check_version("/p", USER_VERSION + 1),
        Err(StoreError::SchemaVersion { .. })
    ));
}

// --- the command line ---

fn words(text: &[&str]) -> Vec<String> {
    text.iter().map(|w| (*w).to_owned()).collect()
}

#[test]
fn the_profile_comes_from_the_flag_then_the_environment_then_home() {
    let named = Some("/env".to_owned());
    let home = Some("/home/u".to_owned());
    let (dir, rest) = split_profile(
        &words(&["--profile", "/flag", "status"]),
        named.clone(),
        home.clone(),
    )
    .unwrap();
    assert_eq!((dir.as_str(), rest), ("/flag", words(&["status"])));
    let (dir, _) = split_profile(&words(&["status"]), named, home.clone()).unwrap();
    assert_eq!(dir, "/env");
    let (dir, _) = split_profile(&words(&["status"]), None, home).unwrap();
    assert_eq!(dir, "/home/u/.sumer");
    assert!(matches!(
        split_profile(&words(&["status"]), None, None),
        Err(StoreError::Usage(_))
    ));
    assert!(matches!(
        split_profile(&words(&["--profile"]), None, None),
        Err(StoreError::Usage(_))
    ));
}

#[test]
fn an_adapters_own_arguments_are_not_touched() {
    let args = words(&["connect", "./adapter", "--profile", "x", "--resume"]);
    let (dir, rest) = split_profile(&args, Some("/env".to_owned()), None).unwrap();
    assert_eq!(dir, "/env");
    assert_eq!(rest, args);
    match parse_command(&rest) {
        Ok(Command::Connect(argv)) => {
            assert_eq!(argv, words(&["./adapter", "--profile", "x", "--resume"]))
        }
        other => panic!("expected a connect, got {other:?}"),
    }
}

#[test]
fn every_command_is_read() {
    assert!(matches!(parse_command(&words(&[])), Ok(Command::Nothing)));
    assert!(matches!(parse_command(&words(&["init"])), Ok(Command::Init)));
    assert!(matches!(parse_command(&words(&["balances"])), Ok(Command::Balances)));
    assert!(matches!(parse_command(&words(&["status"])), Ok(Command::Status)));
    for help in ["help", "--help", "-h"] {
        assert!(matches!(parse_command(&words(&[help])), Ok(Command::Help)));
    }
    assert!(matches!(parse_command(&words(&["history"])), Ok(Command::History(None))));
    match parse_command(&words(&["history", "--resource", "acct"])) {
        Ok(Command::History(Some(id))) => assert_eq!(id, "acct"),
        other => panic!("got {other:?}"),
    }
    match parse_command(&words(&["show", "tx"])) {
        Ok(Command::Show(id)) => assert_eq!(id, "tx"),
        other => panic!("got {other:?}"),
    }
    match parse_command(&words(&["refresh", "--confirm-empty", "--adapter", "a", "--resume"])) {
        Ok(Command::Refresh(options)) => {
            assert!(options.resume && options.confirm_empty);
            assert_eq!(options.adapter_id.as_deref(), Some("a"));
        }
        other => panic!("got {other:?}"),
    }
}

#[test]
fn misuse_is_told_apart() {
    let cases: Vec<(Vec<&str>, &str)> = vec![
        (
            vec!["connect"],
            "connect needs an adapter command line, e.g. `sumer connect ./adapter --wallets w.json`",
        ),
        (vec!["refresh", "--adapter"], "--adapter needs an id"),
        (vec!["refresh", "--x"], "refresh: unknown option \"--x\""),
        (vec!["history", "--resource"], "--resource needs an id"),
        (vec!["history", "x"], "history: unknown option \"x\""),
        (vec!["show"], "show needs a local_id"),
        (vec!["fly"], "unknown command \"fly\". Try `sumer help`."),
    ];
    for (args, text) in cases {
        match parse_command(&words(&args)) {
            Err(e) => {
                assert_eq!(e.to_string(), text);
                assert_eq!(exit_status(&e), 2);
                assert_eq!(complaint(&e), format!("sumer: {text}"));
            }
            Ok(other) => panic!("{args:?} is misuse, got {other:?}"),
        }
    }
}

#[test]
fn a_locked_profile_has_an_exit_status_of_its_own() {
    let locked = StoreError::ProfileLocked("/p".to_owned());
    assert_eq!(exit_status(&locked), 3);
    assert!(complaint(&locked)
        .starts_with("sumer: another sumer process is writing to the profile at /p.\n"));
}

#[test]
fn a_profile_knows_its_files() {
    let profile = Profile::new("/home/u/.sumer".to_owned());
    assert_eq!(profile.dir(), "/home/u/.sumer");
    assert_eq!(profile.db_path(), "/home/u/.sumer/sumer.db");
    assert_eq!(profile.lock_path(), "/home/u/.sumer/lock");
    assert_eq!(join_path("dir/", "x"), "dir/x");
    assert_eq!(join_path("", "x"), "x");
    assert!(INIT_NOTICE.contains("NOT encrypted"));
    assert!(USAGE.starts_with("sumer -- "));
}
