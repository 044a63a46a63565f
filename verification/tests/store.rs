use sumer::money::amount::Amount;
use sumer::money::asset::AssetId;
use sumer::money::error::MoneyError;
use sumer::store::commands::{
    balances_lines, connect_lines, history_lines, record_lines, refresh_lines, status_lines,
};
use sumer::store::error::StoreError;
use sumer::store::hash::content_hash;
use sumer::store::live::{live_records, replay};
use sumer::store::raw::RawObservation;
use sumer::store::raw_rows::{adapter_row, argv_text, read_adapter, read_retraction, RawBalance};
use sumer::store::refresh::RefreshReport;
use sumer::store::report::{Discrepancy, SweepReport};
use sumer::store::rows::{AdapterRow, StoredBalance, StoredObservation};
use sumer::store::tables::{
    adapters, append_balance, append_discrepancy, append_observation, append_retraction,
    balance_history, chain, crawls, discrepancies, finish_crawl, observations_for_adapter,
    open_crawl, open_read, resource, resources, resumable_crawl, retraction_high_water,
    retractions_for, set_adapter_derivation, set_crawl_cursor, set_needs_reauth,
    set_resource_definition, stamp_seen, upsert_adapter, upsert_resource, Append, Store, Tables,
};
use sumer::wire::json::JsonObject;
use sumer::wire::page::PageRequest;
use sumer::wire::record::{
    Balance, Completeness, Observation, ObservationState, Posting, Provenance, ProvenanceWire,
    RawSign, ResourceDescriptor, Staleness,
};
use sumer::wire::timestamp::Rfc3339;

fn provenance() -> Provenance {
    Provenance::stamp(
        ProvenanceWire {
            adapter_id: "a".to_owned(),
            provider_id: "p1".to_owned(),
            surface: "s".to_owned(),
            observed_at: Rfc3339::new("2026-01-01T00:00:00Z").unwrap(),
            effective_at: Some(Rfc3339::new("2026-01-01T00:00:00.5+02:00").unwrap()),
            completeness: Completeness::Partial,
        },
        Rfc3339::new("2026-01-02T00:00:00Z").unwrap(),
        Staleness::Cached,
    )
}

fn usd(text: &str) -> Amount {
    Amount::parse(AssetId::new("usd").unwrap(), text).unwrap()
}

fn observation(local_id: &str, amount: &str) -> Observation {
    Observation {
        resource_id: "acct".to_owned(),
        local_id: local_id.to_owned(),
        provider_id: Some("tx/1".to_owned()),
        supersedes_provider_id: None,
        state: ObservationState::Active,
        tombstone_reason: None,
        surface: "s".to_owned(),
        posting: Posting::Posted,
        amount: usd(amount),
        fees: Some(usd("0.10")),
        raw_sign: RawSign::ProviderNegative,
        description: "coffee".to_owned(),
        provider_extra: JsonObject::parse("{\"k\":[1]}").unwrap(),
        provenance: provenance(),
    }
}

fn words(text: &[&str]) -> Vec<String> {
    text.iter().map(|w| (*w).to_owned()).collect()
}

/// A store with one adapter, one resource and one open crawl.
fn primed() -> (Store, i64) {
    let mut store = Store::new();
    upsert_adapter(&mut store, "a", &words(&["./adapter"]));
    assert!(upsert_resource(&mut store, "a", "acct", "bank", "Checking").is_ok());
    let crawl = open_crawl(
        &mut store,
        "a",
        "acct",
        "2026-01-02T00:00:00Z",
        &None,
        "d@1",
        Some("fp"),
    );
    (store, crawl)
}

fn add(store: &mut Store, crawl_id: i64, revision: u64, local_id: &str, amount: &str) {
    let observation = observation(local_id, amount);
    let hash = content_hash(&observation);
    let added = append_observation(
        store,
        &Append {
            adapter_id: "a",
            revision,
            crawl_id,
            derivation: "d@1",
            fingerprint: Some("fp"),
            content_hash: &hash,
            observation: &observation,
        },
    );
    assert!(added.is_ok());
}

fn retract(store: &mut Store, local_id: &str, revision: u64, reason: &str, crawl_id: i64) {
    assert!(append_retraction(store, "a", local_id, revision, reason, crawl_id, "t").is_ok());
}

#[test]
fn a_resource_of_an_unknown_adapter_is_refused() {
    let mut store = Store::new();
    match upsert_resource(&mut store, "nobody", "acct", "bank", "Checking") {
        Err(e) => assert_eq!(e.to_string(), "sqlite: FOREIGN KEY constraint failed"),
        Ok(_) => panic!("a resource belongs to an adapter"),
    }
    assert!(resources(&store, None).is_empty());
}

#[test]
fn adapters_and_resources_are_kept_in_order_and_updated_in_place() {
    let mut store = Store::new();
    for id in ["b", "a", "c"] {
        upsert_adapter(&mut store, id, &words(&["old"]));
    }
    upsert_adapter(&mut store, "a", &words(&["new", "--flag"]));
    set_adapter_derivation(&mut store, "a", "d@2");
    set_needs_reauth(&mut store, "c", true);
    let rows = adapters(&store);
    let ids: Vec<&str> = rows.iter().map(|r| r.adapter_id.as_str()).collect();
    assert_eq!(ids, vec!["a", "b", "c"]);
    assert_eq!(rows[0].argv, words(&["new", "--flag"]));
    assert_eq!(rows[0].local_id_derivation.as_deref(), Some("d@2"));
    assert!(rows[2].needs_reauth && !rows[0].needs_reauth);

    for (adapter, id) in [("b", "y"), ("a", "z"), ("b", "x")] {
        assert!(upsert_resource(&mut store, adapter, id, "k", "l").is_ok());
    }
    let all: Vec<(String, String)> = resources(&store, None)
        .into_iter()
        .map(|r| (r.adapter_id, r.resource_id))
        .collect();
    assert_eq!(
        all,
        vec![
            ("a".to_owned(), "z".to_owned()),
            ("b".to_owned(), "x".to_owned()),
            ("b".to_owned(), "y".to_owned())
        ]
    );
    assert_eq!(resources(&store, Some("b")).len(), 2);
}

#[test]
fn a_definition_is_adopted_and_a_vantage_only_when_given() {
    let (mut store, _) = primed();
    set_resource_definition(&mut store, "a", "acct", "fp1", Some("p1"));
    set_resource_definition(&mut store, "a", "acct", "fp2", None);
    let row = resource(&store, "a", "acct").unwrap();
    assert_eq!(row.fingerprint.as_deref(), Some("fp2"));
    assert_eq!(row.last_provider_id.as_deref(), Some("p1"));
    assert!(resource(&store, "a", "other").is_none());
}

#[test]
fn crawls_are_numbered_and_listed_newest_first() {
    let (mut store, first) = primed();
    set_crawl_cursor(
        &mut store,
        first,
        Some(PageRequest::Cursor { cursor: "p2".to_owned() }),
    );
    assert!(resumable_crawl(&store, "a", "acct").is_some());
    let second = open_crawl(&mut store, "a", "acct", "t", &None, "d@1", None);
    assert_eq!((first, second), (1, 2));
    assert!(
        resumable_crawl(&store, "a", "acct").is_none(),
        "opening a newer crawl retires the older cursor"
    );
    let listed: Vec<i64> = crawls(&store, 10).iter().map(|c| c.crawl_id).collect();
    assert_eq!(listed, vec![2, 1]);
    assert_eq!(crawls(&store, 1).len(), 1);
    assert_eq!(crawls(&store, 0).len(), 0);
    assert_eq!(crawls(&store, -1).len(), 2);
}

#[test]
fn a_retraction_buries_up_to_its_revision() {
    let (mut store, crawl) = primed();
    add(&mut store, crawl, 1, "tx", "1.00");
    add(&mut store, crawl, 1, "other", "2.00");
    retract(&mut store, "tx", 1, "absent_from_complete_sweep", crawl);
    assert_eq!(retraction_high_water(&store, "a"), vec![("tx".to_owned(), 1)]);
    assert_eq!(retractions_for(&store, "a", "tx").len(), 1);
    let live = live_records(&store, "a", "acct");
    assert_eq!(live.len(), 1);
    assert_eq!(live[0].0, "other");
    add(&mut store, crawl, 2, "tx", "1.00");
    assert_eq!(live_records(&store, "a", "acct").len(), 2);
    assert_eq!(chain(&store, "a", "tx").len(), 2);
    assert_eq!(observations_for_adapter(&store, "a").len(), 3);
    assert_eq!(replay(&store, "a").highest_revision("a", "tx"), Some(2));
}

#[test]
fn a_row_seen_again_is_stamped_in_place() {
    let (mut store, crawl) = primed();
    add(&mut store, crawl, 1, "tx", "1.00");
    let again = open_crawl(&mut store, "a", "acct", "t", &None, "d@2", Some("fp2"));
    assert!(stamp_seen(&mut store, "a", "tx", 1, again, "d@2", Some("fp2")).is_ok());
    let rows = chain(&store, "a", "tx");
    assert_eq!(rows.len(), 1);
    assert_eq!((rows[0].crawl_id, rows[0].last_seen_crawl), (crawl, again));
    assert_eq!(rows[0].derivation, "d@2");
    assert_eq!(rows[0].fingerprint.as_deref(), Some("fp2"));
}

fn balance(amount: Option<&str>) -> Balance {
    Balance {
        resource_id: "acct".to_owned(),
        category: "available".to_owned(),
        canonical_hint: None,
        amount: amount.map(usd),
        provenance: provenance(),
    }
}

#[test]
fn only_the_newest_read_is_the_latest() {
    let (mut store, _) = primed();
    let first = open_read(&mut store, "a", "t1");
    append_balance(&mut store, first, "a", balance(Some("1.00")), "fetched");
    assert!(balance_history(&store, "a", "acct")[0].from_latest_read);
    let second = open_read(&mut store, "a", "t2");
    assert_eq!((first, second), (1, 2));
    let rows = balance_history(&store, "a", "acct");
    assert_eq!(rows.len(), 1);
    assert!(!rows[0].from_latest_read);
    open_read(&mut store, "b", "t3");
    append_balance(&mut store, second, "a", balance(None), "unavailable");
    let rows = balance_history(&store, "a", "acct");
    assert!(rows[1].from_latest_read, "another adapter's read is not this one's");
}

fn stored() -> StoredObservation {
    let observation = observation("tx", "1.50");
    StoredObservation {
        observation_id: 7,
        adapter_id: "a".to_owned(),
        revision: 3,
        crawl_id: 2,
        last_seen_crawl: 5,
        derivation: "d@1".to_owned(),
        fingerprint: Some("fp".to_owned()),
        content_hash: content_hash(&observation),
        observation,
    }
}

#[test]
fn a_stored_record_reads_back_as_itself() {
    let row = stored();
    let raw = RawObservation::of(&row);
    assert_eq!(raw.amount, "1.50");
    assert_eq!(raw.amount_asset, "usd");
    assert_eq!(raw.fees.as_deref(), Some("0.10"));
    assert_eq!(raw.provider_extra, "{\"k\":[1]}");
    let back = raw.into_stored().unwrap();
    assert_eq!(back.content_hash, row.content_hash);
    assert_eq!(content_hash(&back.observation), row.content_hash);
    assert!(back.observation.amount.same_repr(&row.observation.amount));
    assert_eq!(
        (back.observation_id, back.revision, back.crawl_id, back.last_seen_crawl),
        (7, 3, 2, 5)
    );
    assert_eq!(back.observation.provenance.staleness, Staleness::Cached);
    assert_eq!(
        back.observation.provenance.received_at.as_str(),
        "2026-01-02T00:00:00Z"
    );
}

fn spoiled(spoil: fn(&mut RawObservation)) -> StoreError {
    let mut raw = RawObservation::of(&stored());
    spoil(&mut raw);
    match raw.into_stored() {
        Err(e) => e,
        Ok(row) => panic!("the row is unreadable, got {row:?}"),
    }
}

#[test]
fn an_unreadable_column_is_told_by_name() {
    assert_eq!(
        spoiled(|raw| raw.state = "gone".to_owned()).to_string(),
        "stored row is unreadable: enum \"gone\": unknown variant `gone`, expected \
         `active` or `tombstoned`"
    );
    assert_eq!(
        spoiled(|raw| raw.received_at = "yesterday".to_owned()).to_string(),
        "stored row is unreadable: timestamp \"yesterday\": not an RFC 3339 timestamp"
    );
    assert!(matches!(
        spoiled(|raw| raw.amount = "1e5".to_owned()),
        StoreError::Money(MoneyError::ExponentNotation { at: 1 })
    ));
    assert!(matches!(
        spoiled(|raw| raw.amount_asset = String::new()),
        StoreError::Money(MoneyError::AssetIdEmpty)
    ));
    assert!(matches!(
        spoiled(|raw| raw.provider_extra = "[".to_owned()),
        StoreError::Json(_)
    ));
    assert!(matches!(
        spoiled(|raw| raw.revision = -1),
        StoreError::CorruptRow(_)
    ));
}

#[test]
fn a_stored_balance_reads_back_as_itself() {
    for amount in [Some("1.500"), None] {
        let row = StoredBalance {
            balance_id: 3,
            read_id: 2,
            adapter_id: "a".to_owned(),
            outcome: "fetched".to_owned(),
            balance: balance(amount),
        };
        let raw = RawBalance::of(&row);
        assert_eq!(raw.amount.as_deref(), amount);
        let back = raw.into_stored().unwrap();
        assert_eq!((back.balance_id, back.read_id), (3, 2));
        assert_eq!(back.balance.amount.map(|a| a.to_string()).as_deref(), amount);
        assert_eq!(back.balance.provenance.adapter_id, "a");
        assert_eq!(back.balance.provenance.completeness, Completeness::Partial);
    }
    let mut raw = RawBalance::of(&StoredBalance {
        balance_id: 1,
        read_id: 1,
        adapter_id: "a".to_owned(),
        outcome: "fetched".to_owned(),
        balance: balance(None),
    });
    raw.staleness = "fresh".to_owned();
    match raw.into_stored() {
        Err(e) => assert_eq!(
            e.to_string(),
            "stored row is unreadable: enum \"fresh\": unknown variant `fresh`, expected \
             one of `live`, `cached`, `unavailable`"
        ),
        Ok(row) => panic!("got {row:?}"),
    }
}

#[test]
fn a_retraction_cannot_stand_at_a_negative_revision() {
    let read = |revision: i64| {
        read_retraction(
            "a".to_owned(),
            "tx".to_owned(),
            revision,
            "derivation_changed".to_owned(),
            1,
            "t".to_owned(),
        )
    };
    assert_eq!(read(4).unwrap().revision, 4);
    match read(-4) {
        Err(e) => assert_eq!(
            e.to_string(),
            "stored row is unreadable: retraction revision -4"
        ),
        Ok(row) => panic!("got {row:?}"),
    }
}

fn bare_adapter(id: &str) -> AdapterRow {
    AdapterRow {
        adapter_id: id.to_owned(),
        argv: vec![],
        local_id_derivation: None,
        needs_reauth: false,
    }
}

#[test]
fn rows_out_of_the_order_of_their_keys_are_not_loaded() {
    let mut tables = Tables::new();
    tables.adapters.push(bare_adapter("a"));
    tables.adapters.push(bare_adapter("b"));
    assert!(Store::load(tables).is_ok());

    let mut twice = Tables::new();
    twice.adapters.push(bare_adapter("a"));
    twice.adapters.push(bare_adapter("a"));
    match Store::load(twice) {
        Err(e) => assert_eq!(
            e.to_string(),
            "stored row is unreadable: the rows are not in the order of their keys"
        ),
        Ok(_) => panic!("an adapter is there once"),
    }

    let mut backwards = Tables::new();
    backwards.observations.push(stored());
    backwards.observations.push(StoredObservation { observation_id: 6, ..stored() });
    assert!(Store::load(backwards).is_err());
}

/// Rows that refer to nothing, skip a revision or are filed under an adapter that
/// they do not name are read all the same.
#[test]
fn rows_that_do_not_fit_together_are_read() {
    let mut tables = Tables::new();
    tables.observations.push(stored());
    tables.observations.push(StoredObservation {
        observation_id: 8,
        adapter_id: "b".to_owned(),
        revision: 1,
        ..stored()
    });
    let store = match Store::load(tables) {
        Ok(store) => store,
        Err(e) => panic!("{}", e.to_string()),
    };
    assert_eq!(chain(&store, "a", "tx").len(), 1);
    assert_eq!(observations_for_adapter(&store, "b").len(), 1);
    assert_eq!(replay(&store, "a").highest_revision("a", "tx"), Some(1));
    assert_eq!(live_records(&store, "a", "acct").len(), 1);
    assert!(
        live_records(&store, "b", "acct").is_empty(),
        "the record names another adapter than the one it is filed under"
    );
}

#[test]
fn an_append_is_refused_where_a_row_is_missing_or_there_already() {
    let (mut store, crawl) = primed();
    add(&mut store, crawl, 5, "tx", "1.00");
    let observation = observation("tx", "2.00");
    let hash = content_hash(&observation);
    let mut append = |revision: u64, crawl_id: i64| {
        append_observation(
            &mut store,
            &Append {
                adapter_id: "a",
                revision,
                crawl_id,
                derivation: "d@1",
                fingerprint: None,
                content_hash: &hash,
                observation: &observation,
            },
        )
    };
    let repeated = "sqlite: UNIQUE constraint failed: observation.adapter_id, \
                    observation.local_id, observation.revision";
    let dangling = "sqlite: FOREIGN KEY constraint failed";
    for (revision, crawl_id, message) in
        [(5, crawl, repeated), (5, crawl + 1, repeated), (6, crawl + 1, dangling)]
    {
        match append(revision, crawl_id) {
            Err(e) => assert_eq!(e.to_string(), message),
            Ok(()) => panic!("revision {revision} of crawl {crawl_id} is refused"),
        }
    }
    assert!(append(u64::MAX, crawl).is_ok());
    let revisions: Vec<u64> = chain(&store, "a", "tx").iter().map(|row| row.revision).collect();
    assert_eq!(revisions, vec![5, 0x7fff_ffff_ffff_ffff]);

    assert!(append_retraction(&mut store, "a", "tx", 9, "r", crawl + 1, "t").is_err());
    assert!(append_retraction(&mut store, "a", "tx", u64::MAX, "r", crawl, "t").is_ok());
    assert_eq!(retraction_high_water(&store, "a")[0].1, 0x7fff_ffff_ffff_ffff);
    assert!(append_discrepancy(&mut store, "a", "acct", "k", crawl + 1, "d", "t").is_err());
    assert!(discrepancies(&store, 9).is_empty());
    assert!(stamp_seen(&mut store, "a", "tx", 5, crawl + 1, "d@2", None).is_err());
    assert!(stamp_seen(&mut store, "a", "tx", 6, crawl + 1, "d@2", None).is_ok());
    assert!(chain(&store, "a", "tx").iter().all(|row| row.last_seen_crawl == crawl));
}

/// Ids need not follow each other: rows are taken as they are, and the next one
/// gets the id behind the last.
#[test]
fn ids_with_gaps_are_loaded() {
    let (mut store, crawl) = primed();
    add(&mut store, crawl, 1, "tx", "1.00");
    add(&mut store, crawl, 2, "tx", "2.00");
    let mut tables = Tables::new();
    tables.adapters = store.tables().adapters.clone();
    tables.resources = store.tables().resources.clone();
    tables.crawls = store.tables().crawls.clone();
    tables.observations = store.tables().observations.clone();
    tables.crawls[0].crawl_id = 7;
    for (row, id) in tables.observations.iter_mut().zip([4, 9]) {
        row.observation_id = id;
        row.crawl_id = 7;
        row.last_seen_crawl = 7;
    }
    let mut store = match Store::load(tables) {
        Ok(store) => store,
        Err(e) => panic!("{}", e.to_string()),
    };
    finish_crawl(&mut store, 7, true, true, &None);
    assert!(crawls(&store, 1)[0].complete);
    add(&mut store, 7, 3, "tx", "3.00");
    assert_eq!(store.tables().observations[2].observation_id, 10);
    let next = open_crawl(&mut store, "a", "acct", "t", &None, "d@1", None);
    assert_eq!(next, 8);
}

#[test]
fn a_command_line_reads_back_as_it_was_written() {
    let argv = words(&["/bin/adapter", "--name", "a \"b\" \\ \n", "\u{1f}\u{e9}"]);
    let text = argv_text(&argv);
    assert_eq!(
        text,
        "[\"/bin/adapter\",\"--name\",\"a \\\"b\\\" \\\\ \\n\",\"\\u001f\u{e9}\"]"
    );
    let row = read_adapter("a".to_owned(), &text, Some("d@1".to_owned()), 1).unwrap();
    assert_eq!(row.argv, argv);
    assert_eq!(row.adapter_id, "a");
    assert_eq!(row.local_id_derivation.as_deref(), Some("d@1"));
    assert!(row.needs_reauth);
    assert_eq!(argv_text(&vec![]), "[]");
    assert!(read_adapter("a".to_owned(), "[]", None, 0).unwrap().argv.is_empty());

    for text in ["", "{}", "[1]", "[\"a\"", "\"a\""] {
        match read_adapter("a".to_owned(), text, None, 0) {
            Err(StoreError::Json(_)) => {}
            other => panic!("{text:?} is no command line, got {other:?}"),
        }
    }
    match adapter_row("a".to_owned(), Err("no".to_owned()), None, 0) {
        Err(e) => assert_eq!(e.to_string(), "json: no"),
        Ok(row) => panic!("got {row:?}"),
    }
}

#[test]
fn what_a_store_holds_can_be_loaded_again() {
    let (mut store, crawl) = primed();
    add(&mut store, crawl, 1, "tx", "1.00");
    add(&mut store, crawl, 2, "tx", "2.00");
    retract(&mut store, "tx", 1, "derivation_changed", crawl);
    let read = open_read(&mut store, "a", "t");
    append_balance(&mut store, read, "a", balance(Some("1.00")), "fetched");
    let mut tables = Tables::new();
    tables.adapters = store.tables().adapters.clone();
    tables.resources = store.tables().resources.clone();
    tables.crawls = store.tables().crawls.clone();
    tables.observations = store.tables().observations.clone();
    for row in &store.tables().retractions {
        tables.retractions.push(row.clone());
    }
    let again = match Store::load(tables) {
        Ok(store) => store,
        Err(e) => panic!("{}", e.to_string()),
    };
    assert_eq!(chain(&again, "a", "tx").len(), 2);
    assert_eq!(retractions_for(&again, "a", "tx").len(), 1);
    assert_eq!(live_records(&again, "a", "acct").len(), 1);
    assert_eq!(crawls(&again, 1)[0].crawl_id, crawl);
}

// --- what the commands print ---

#[test]
fn connecting_prints_the_adapter_and_what_it_listed() {
    let listed = vec![ResourceDescriptor {
        resource_id: "acct".to_owned(),
        provider_id: "p1".to_owned(),
        kind: "bank".to_owned(),
        label: "Checking".to_owned(),
        provider_extra: None,
    }];
    assert_eq!(
        connect_lines("a", "d@1", &listed),
        words(&["connected a (d@1)", "  acct  Checking  [bank]"])
    );
}

#[test]
fn a_refresh_prints_errors_then_sweeps_with_their_notes() {
    let mut report = RefreshReport::new();
    report.note_error("a", "boom".to_owned());
    let mut sweep = SweepReport::empty("a", "acct");
    sweep.discrepancies = vec![Discrepancy {
        kind: "empty_sweep".to_owned(),
        detail: "nothing there".to_owned(),
    }];
    report.sweeps.push(sweep);
    let lines = refresh_lines(&report);
    assert_eq!(lines.len(), 3);
    assert_eq!(lines[0], "a: boom");
    assert!(lines[1].starts_with("a/acct: 0 new"));
    assert_eq!(lines[2], "  ! empty_sweep: nothing there");
    assert!(report.failed());
}

#[test]
fn balances_and_history_print_every_resource() {
    let (mut store, crawl) = primed();
    assert_eq!(
        balances_lines(&store),
        words(&["a/acct  Checking", "  (no balance has ever been read)"])
    );
    assert_eq!(
        history_lines(&store, &None),
        words(&["a/acct  Checking", "  (nothing live)"])
    );
    add(&mut store, crawl, 1, "tx", "1.00");
    let read = open_read(&mut store, "a", "t");
    append_balance(&mut store, read, "a", balance(Some("1.00")), "fetched");
    assert_eq!(balances_lines(&store).len(), 2);
    let lines = history_lines(&store, &Some("acct".to_owned()));
    assert_eq!(lines.len(), 2);
    assert!(lines[1].starts_with("  tx  r1  "));
    assert!(history_lines(&store, &Some("other".to_owned())).is_empty());
}

#[test]
fn a_record_prints_its_whole_history() {
    let (mut store, crawl) = primed();
    assert_eq!(
        record_lines(&store, "tx"),
        words(&["no record \"tx\" in this profile"])
    );
    add(&mut store, crawl, 1, "tx", "1.00");
    retract(&mut store, "tx", 1, "derivation_changed", crawl);
    let lines = record_lines(&store, "tx");
    assert_eq!(lines.len(), 3);
    assert_eq!(lines[0], "a/tx");
    assert!(lines[1].starts_with("  r1  observation"));
    assert!(lines[2].starts_with("  r1  RETRACTED    derivation_changed"));
}

#[test]
fn the_status_prints_adapters_crawls_and_discrepancies() {
    let (mut store, crawl) = primed();
    assert_eq!(
        status_lines(&store),
        words(&[
            "a  derivation (unknown)  ok",
            "  acct  Checking  vantage (none yet)",
            "\nrecent crawls",
            "  1 a/acct at 2026-01-02T00:00:00Z -- open",
            "\ndiscrepancies",
            "  (none)",
        ])
    );
    finish_crawl(&mut store, crawl, false, false, &Some("did not drain".to_owned()));
    assert!(
        append_discrepancy(&mut store, "a", "acct", "empty_sweep", crawl, "nothing", "t").is_ok()
    );
    set_needs_reauth(&mut store, "a", true);
    let lines = status_lines(&store);
    assert_eq!(lines[0], "a  derivation (unknown)  NEEDS REAUTH");
    assert_eq!(
        lines[3],
        "  1 a/acct at 2026-01-02T00:00:00Z -- partial -- did not drain"
    );
    assert_eq!(lines[5], "  [empty_sweep] a/acct crawl 1: nothing");
    assert_eq!(discrepancies(&store, 20).len(), 1);
}
