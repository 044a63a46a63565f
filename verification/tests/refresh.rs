//! Whole refreshes, driven read by read against a scripted adapter.

use sumer::host::failure::HostError;
use sumer::host::fold::Fold;
use sumer::host::reads::{
    balances_read, check_status_coverage, history_read, MeasuredBalance, MeasuredObservation,
};
use sumer::money::amount::Amount;
use sumer::money::asset::AssetId;
use sumer::store::adapter_run::{connect, Opening};
use sumer::store::error::StoreError;
use sumer::store::live::{is_buried, live_records, live_set};
use sumer::store::refresh::{select_adapters, AdapterRefresh, RefreshOptions, RefreshReport};
use sumer::store::render::balance_line;
use sumer::store::report::{SweepInput, SweepOptions, SweepReport};
use sumer::store::retract::REASON_ABSENT;
use sumer::store::rows::{BalanceRow, RetractionRow};
use sumer::store::sweep::{Step, Sweep};
use sumer::store::tables::{
    adapters, balance_history, chain, crawls, discrepancies, resource, resumable_crawl,
    upsert_adapter, Store, Tables,
};
use sumer::wire::failure::{ErrorBody, ProtocolViolationKind, WireErrorCode};
use sumer::wire::json::JsonObject;
use sumer::wire::page::{CursorResumable, PageReply, PageRequest};
use sumer::wire::record::{
    BalanceWire, Completeness, Observation, ObservationState, ObservationWire, Posting, Provenance,
    ProvenanceWire, RawSign, ResourceDescriptor, Staleness,
};
use sumer::wire::status::{Degraded, ReadOutcome, ResourceStatus};
use sumer::wire::timestamp::Rfc3339;

const ADAPTER_ID: &str = "fake-adapter";
const RESOURCE_ID: &str = "acct";
const DERIVATION: &str = "fixture-literal@1";
const PLAIN: SweepOptions = SweepOptions { resume: false, confirm_empty: false };
const RESUME: SweepOptions = SweepOptions { resume: true, confirm_empty: false };

fn ts(text: &str) -> Rfc3339 {
    Rfc3339::new(text).unwrap()
}

/// A record, as a script spells it.
#[derive(Clone)]
struct Rec {
    resource_id: String,
    local_id: String,
    amount: String,
    observed_at: String,
    adapter_id: String,
    surface: String,
    bytes: usize,
}

fn obs(local_id: &str, amount: &str) -> Rec {
    Rec {
        resource_id: RESOURCE_ID.to_owned(),
        local_id: local_id.to_owned(),
        amount: amount.to_owned(),
        observed_at: "2026-01-01T00:00:00Z".to_owned(),
        adapter_id: ADAPTER_ID.to_owned(),
        surface: "s".to_owned(),
        bytes: 400,
    }
}

fn obs_at(local_id: &str, amount: &str, observed_at: &str) -> Rec {
    Rec { observed_at: observed_at.to_owned(), ..obs(local_id, amount) }
}

fn measured(rec: &Rec) -> MeasuredObservation {
    MeasuredObservation {
        wire: ObservationWire {
            resource_id: rec.resource_id.clone(),
            local_id: rec.local_id.clone(),
            provider_id: None,
            supersedes_provider_id: None,
            state: ObservationState::Active,
            tombstone_reason: None,
            surface: rec.surface.clone(),
            posting: Posting::Posted,
            amount: Amount::parse(AssetId::new("usd").unwrap(), &rec.amount).unwrap(),
            fees: None,
            raw_sign: RawSign::ProviderPositive,
            description: rec.local_id.clone(),
            provider_extra: JsonObject::empty(),
            provenance: ProvenanceWire {
                adapter_id: rec.adapter_id.clone(),
                provider_id: "p1".to_owned(),
                surface: rec.surface.clone(),
                observed_at: ts(&rec.observed_at),
                effective_at: None,
                completeness: Completeness::Complete,
            },
        },
        bytes: rec.bytes,
    }
}

fn cursor(text: &str) -> PageRequest {
    PageRequest::Cursor { cursor: text.to_owned() }
}

fn fetched() -> ReadOutcome {
    ReadOutcome::Fetched { page_empty: false }
}

fn status_for(resource_id: &str, outcome: ReadOutcome) -> ResourceStatus {
    ResourceStatus {
        resource_id: resource_id.to_owned(),
        outcome,
        page: None,
        degraded: vec![],
        history_start: None,
    }
}

/// A fetched page with an exact cursor; `None` drains the sweep.
fn drained_status(next: Option<&str>) -> ResourceStatus {
    ResourceStatus {
        page: Some(PageReply {
            cursor_resumable: CursorResumable::Exact,
            next: next.map(cursor),
        }),
        ..status_for(RESOURCE_ID, fetched())
    }
}

/// What the adapter does with one `history.read`.
struct Page {
    reply: Result<(Vec<Rec>, Vec<ResourceStatus>), HostError>,
    /// What the connection has been caught at by the time this page is taken.
    violation: Option<ProtocolViolationKind>,
}

fn page(records: Vec<Rec>, status: ResourceStatus) -> Page {
    Page { reply: Ok((records, vec![status])), violation: None }
}

fn dies() -> Page {
    Page { reply: Err(HostError::AdapterCrashed { status: Some(1) }), violation: None }
}

fn balance(category: &str, amount: Option<&str>) -> BalanceWire {
    BalanceWire {
        resource_id: RESOURCE_ID.to_owned(),
        category: category.to_owned(),
        canonical_hint: None,
        amount: amount.map(|a| Amount::parse(AssetId::new("usd").unwrap(), a).unwrap()),
        provenance: ProvenanceWire {
            adapter_id: ADAPTER_ID.to_owned(),
            provider_id: "p1".to_owned(),
            surface: "s".to_owned(),
            observed_at: ts("2026-01-01T00:00:00Z"),
            effective_at: None,
            completeness: Completeness::Complete,
        },
    }
}

/// One connection of the scripted adapter.
struct Run {
    announced: String,
    derivation: String,
    provider_id: String,
    extra: String,
    listed: Vec<String>,
    statuses: Result<Vec<ResourceStatus>, HostError>,
    balances: Result<(Vec<BalanceWire>, Vec<ResourceStatus>), HostError>,
    history: Vec<Page>,
    /// When this run's replies come in.
    received_at: String,
}

fn run(history: Vec<Page>) -> Run {
    Run {
        announced: ADAPTER_ID.to_owned(),
        derivation: DERIVATION.to_owned(),
        provider_id: "p1".to_owned(),
        extra: "{}".to_owned(),
        listed: vec![RESOURCE_ID.to_owned()],
        statuses: Ok(vec![status_for(RESOURCE_ID, fetched())]),
        balances: Ok((vec![], vec![status_for(RESOURCE_ID, fetched())])),
        history,
        received_at: "2026-02-01T00:00:00Z".to_owned(),
    }
}

fn plant() -> Run {
    run(vec![page(vec![obs("keep", "10.00"), obs("drop", "20.00")], drained_status(None))])
}

fn carried(records: Vec<Rec>) -> Run {
    run(vec![page(records, drained_status(None))])
}

fn wire_error(code: WireErrorCode, message: &str) -> HostError {
    HostError::Wire(ErrorBody::new(code, message.to_owned()))
}

fn fresh_store() -> Store {
    let mut store = Store::new();
    upsert_adapter(&mut store, ADAPTER_ID, &vec!["python3".to_owned()]);
    store
}

/// One whole refresh, and the pages that were asked for.
fn refresh_result(
    store: &mut Store,
    run: Run,
    options: SweepOptions,
) -> Result<(AdapterRefresh, Vec<Option<PageRequest>>), StoreError> {
    let received_at = ts(&run.received_at);
    let adapter = adapters(store).into_iter().find(|row| row.adapter_id == ADAPTER_ID).unwrap();
    let opening = Opening::begin(store, adapter, &run.received_at);
    assert_eq!(opening.argv(), &vec!["python3".to_owned()]);
    let session = opening.on_hello(&run.announced, &run.derivation, options)?;
    let resources: Vec<ResourceDescriptor> = run
        .listed
        .iter()
        .map(|id| ResourceDescriptor {
            resource_id: id.clone(),
            provider_id: run.provider_id.clone(),
            kind: "bank_checking".to_owned(),
            label: "Checking".to_owned(),
            provider_extra: Some(JsonObject::parse(&run.extra).unwrap()),
        })
        .collect();
    let session = session.on_listing(store, resources)?;
    let ids = session.resource_ids();
    let statuses = run.statuses.map_err(|e| StoreError::from_host(&e))?;
    check_status_coverage("status.read", &ids, &statuses).map_err(|e| StoreError::from_host(&e))?;
    let session = session.on_statuses(store, statuses);
    let balances = match run.balances {
        Ok((lines, statuses)) => balances_read(
            &run.announced,
            &ids,
            lines.into_iter().map(|wire| MeasuredBalance { wire, bytes: 200 }).collect(),
            statuses,
            &received_at,
        ),
        Err(e) => Err(e),
    };
    let mut session = session.on_balances(store, balances);
    let mut history = run.history.into_iter();
    let mut asked = Vec::new();
    while let Some(input) = session.next_sweep() {
        let mut sweep = Sweep::begin(store, input, &run.received_at);
        let report = loop {
            let query = sweep.request();
            let requested = vec![query.resource_id.clone()];
            asked.push(query.page);
            let scripted = history.next().unwrap_or(Page {
                reply: Err(wire_error(WireErrorCode::Internal, "no scripted rule for this request")),
                violation: None,
            });
            let reply = match scripted.reply {
                Ok((records, statuses)) => history_read(
                    &run.announced,
                    &requested,
                    records.iter().map(measured).collect(),
                    statuses,
                    &received_at,
                ),
                Err(e) => Err(e),
            };
            match reply {
                Err(e) => break sweep.on_failure(store, &e),
                Ok(read) => match sweep.on_page(store, read, scripted.violation)? {
                    Step::Next(next) => sweep = next,
                    Step::Done(report) => break report,
                },
            }
        };
        session = session.on_sweep(report);
    }
    Ok((session.finish(), asked))
}

fn refresh(store: &mut Store, run: Run, options: SweepOptions) -> Vec<SweepReport> {
    match refresh_result(store, run, options) {
        Ok((done, _)) => done.sweeps,
        Err(e) => panic!("the refresh completes, got {}", e.to_string()),
    }
}

fn only(reports: Vec<SweepReport>) -> SweepReport {
    assert_eq!(reports.len(), 1, "one resource, one sweep report");
    reports.into_iter().next().unwrap()
}

fn retractions(store: &Store) -> Vec<(String, String)> {
    store
        .tables()
        .retractions
        .iter()
        .map(|row| (row.local_id.clone(), row.reason.clone()))
        .collect()
}

fn none() -> Vec<(String, String)> {
    Vec::new()
}

fn absent(local_id: &str) -> Vec<(String, String)> {
    vec![(local_id.to_owned(), "absent_from_complete_sweep".to_owned())]
}

fn live_ids(store: &Store) -> Vec<String> {
    live_records(store, ADAPTER_ID, RESOURCE_ID)
        .into_iter()
        .map(|(local_id, _, _)| local_id)
        .collect()
}

fn is_live(store: &Store, local_id: &str) -> bool {
    live_ids(store).iter().any(|id| id == local_id)
}

fn chain_len(store: &Store, local_id: &str) -> usize {
    chain(store, ADAPTER_ID, local_id).len()
}

fn discrepancy_kinds(store: &Store) -> Vec<String> {
    let mut kinds: Vec<String> =
        discrepancies(store, 100).into_iter().map(|row| row.kind).collect();
    kinds.reverse();
    kinds
}

fn rows(store: &Store, category: &str) -> Vec<BalanceRow> {
    balance_history(store, ADAPTER_ID, RESOURCE_ID)
        .into_iter()
        .filter(|row| row.category == category)
        .collect()
}

fn line(store: &Store, category: &str) -> String {
    let history = rows(store, category);
    let refs: Vec<&BalanceRow> = history.iter().collect();
    balance_line(category, &refs)
}

/// Every disqualified sweep retracts nothing and keeps its evidence.
fn assert_partial(second: Run, expected_reason: &str) {
    let mut store = fresh_store();
    let planted = only(refresh(&mut store, plant(), PLAIN));
    assert!(planted.complete, "the priming sweep must qualify");
    assert_eq!(planted.new, 2);

    let report = only(refresh(&mut store, second, PLAIN));
    assert!(!report.complete);
    let reason = report.disqualified_reason.unwrap();
    assert!(
        reason.contains(expected_reason),
        "expected {expected_reason:?}, got {reason:?}"
    );
    assert_eq!(retractions(&store), none(), "a partial sweep retracts nothing");
    assert!(is_live(&store, "drop"), "what it did not carry stays live");
    assert_eq!(chain_len(&store, "keep"), 2, "its observations still persisted");
}

// --- what a qualifying sweep does ---

#[test]
fn a_qualifying_sweep_retracts_exactly_what_it_did_not_carry() {
    let mut store = fresh_store();
    refresh(&mut store, plant(), PLAIN);
    let report = only(refresh(&mut store, carried(vec![obs("keep", "11.00")]), PLAIN));
    assert!(report.complete, "{:?}", report.disqualified_reason);
    assert_eq!(report.retracted, 1);
    assert_eq!(retractions(&store), absent("drop"));
    assert_eq!(live_ids(&store), vec!["keep".to_owned()]);
    assert_eq!(chain_len(&store, "drop"), 1, "nothing was deleted");
}

#[test]
fn a_later_sweep_reviving_a_record_needs_no_special_case() {
    let mut store = fresh_store();
    refresh(&mut store, plant(), PLAIN);
    refresh(&mut store, carried(vec![obs("keep", "11.00")]), PLAIN);
    assert!(!is_live(&store, "drop"));
    let report = only(refresh(
        &mut store,
        carried(vec![obs("keep", "12.00"), obs("drop", "20.00")]),
        PLAIN,
    ));
    assert!(report.complete);
    assert_eq!(report.retracted, 0);
    assert!(is_live(&store, "drop"));
    assert_eq!(retractions(&store).len(), 1, "the retraction is not deleted");
}

#[test]
fn an_unchanged_provider_appends_nothing() {
    let mut store = fresh_store();
    refresh(&mut store, plant(), PLAIN);
    let before = live_ids(&store);
    let mut again = plant();
    again.received_at = "2026-03-01T00:00:00Z".to_owned();
    let report = only(refresh(&mut store, again, PLAIN));
    assert!(report.complete);
    assert_eq!(
        (report.new, report.revised, report.unchanged, report.retracted),
        (0, 0, 2, 0)
    );
    assert_eq!(live_ids(&store), before);
    assert_eq!(chain_len(&store, "keep"), 1);
    assert_eq!(chain_len(&store, "drop"), 1);
}

// --- one case per disqualifier ---

#[test]
fn a_page_that_did_not_report_fetched_disqualifies() {
    assert_partial(
        run(vec![page(
            vec![obs("keep", "11.00")],
            ResourceStatus {
                outcome: ReadOutcome::RateLimited { retry_after_ms: Some(1000) },
                ..drained_status(None)
            },
        )]),
        "rate_limited on page 1",
    );
}

#[test]
fn an_anonymous_degrade_disqualifies() {
    assert_partial(
        run(vec![page(
            vec![obs("keep", "11.00")],
            ResourceStatus {
                degraded: vec![Degraded { local_id: None, bytes: 99999 }],
                ..drained_status(None)
            },
        )]),
        "anonymous degraded record",
    );
}

#[test]
fn a_sweep_that_never_drained_disqualifies() {
    assert_partial(
        run(vec![
            page(vec![obs("keep", "11.00")], drained_status(Some("p2"))),
            page(
                vec![],
                status_for(RESOURCE_ID, ReadOutcome::Fetched { page_empty: true }),
            ),
        ]),
        "did not drain",
    );
}

#[test]
fn a_batch_restart_cursor_disqualifies() {
    assert_partial(
        run(vec![page(
            vec![obs("keep", "11.00")],
            ResourceStatus {
                page: Some(PageReply {
                    cursor_resumable: CursorResumable::BatchRestart,
                    next: None,
                }),
                ..drained_status(None)
            },
        )]),
        "not exact-resumable",
    );
}

#[test]
fn an_adapter_that_dies_mid_sweep_disqualifies() {
    let mut store = fresh_store();
    refresh(&mut store, plant(), PLAIN);
    let report = only(refresh(
        &mut store,
        run(vec![page(vec![obs("keep", "11.00")], drained_status(Some("p2"))), dies()]),
        PLAIN,
    ));
    assert!(!report.complete);
    assert_eq!(
        report.error.as_deref(),
        Some("adapter_failed_on_page_1: adapter crashed (status Some(1))"),
        "the failure is reported, not hidden"
    );
    assert_eq!(retractions(&store), none());
    assert!(is_live(&store, "drop"));
    assert_eq!(chain_len(&store, "keep"), 2, "the first page was committed on its own");
}

#[test]
fn a_named_degrade_qualifies_and_exempts_only_that_id() {
    let mut store = fresh_store();
    refresh(
        &mut store,
        carried(vec![obs("keep", "10.00"), obs("drop", "20.00"), obs("huge", "30.00")]),
        PLAIN,
    );
    let report = only(refresh(
        &mut store,
        run(vec![page(
            vec![obs("keep", "11.00")],
            ResourceStatus {
                degraded: vec![Degraded { local_id: Some("huge".to_owned()), bytes: 99999 }],
                ..drained_status(None)
            },
        )]),
        PLAIN,
    ));
    assert!(report.complete, "{:?}", report.disqualified_reason);
    assert_eq!(retractions(&store), absent("drop"));
    assert!(is_live(&store, "huge"), "the named record is exempt");
}

fn foreign(local_id: &str, resource_id: &str) -> Rec {
    Rec {
        adapter_id: "some-other-adapter".to_owned(),
        resource_id: resource_id.to_owned(),
        ..obs(local_id, "99.00")
    }
}

#[test]
fn an_observation_claiming_another_adapter_disqualifies_and_is_refused() {
    let mut store = fresh_store();
    assert!(only(refresh(&mut store, plant(), PLAIN)).complete);
    let report = only(refresh(
        &mut store,
        carried(vec![obs("keep", "11.00"), foreign("intruder", RESOURCE_ID)]),
        PLAIN,
    ));
    assert!(!report.complete);
    assert!(report.disqualified_reason.unwrap().contains("named another adapter"));
    assert_eq!(retractions(&store), none());
    assert!(is_live(&store, "drop"));
    assert_eq!(chain_len(&store, "keep"), 2, "the honest record still persisted");
    assert_eq!(chain_len(&store, "intruder"), 0);
    assert!(chain(&store, "some-other-adapter", "intruder").is_empty());
}

#[test]
fn a_connection_announcing_another_adapter_fails_the_whole_refresh() {
    let mut store = fresh_store();
    assert!(only(refresh(&mut store, plant(), PLAIN)).complete);
    let impostor = Run {
        announced: "impostor".to_owned(),
        ..carried(vec![obs("keep", "11.00")])
    };
    let message = match refresh_result(&mut store, impostor, PLAIN) {
        Err(e) => e.to_string(),
        Ok(_) => panic!("a connection that is not this adapter is refused"),
    };
    assert!(message.contains("impostor") && message.contains(ADAPTER_ID), "{message}");
    assert_eq!(retractions(&store), none());
    assert!(is_live(&store, "drop"));
    assert_eq!(chain_len(&store, "keep"), 1);
}

#[test]
fn a_foreign_observation_under_another_resource_still_disqualifies() {
    let mut store = fresh_store();
    assert!(only(refresh(&mut store, plant(), PLAIN)).complete);
    let report = only(refresh(
        &mut store,
        carried(vec![obs("keep", "11.00"), foreign("intruder", "other")]),
        PLAIN,
    ));
    assert_eq!(
        report.disqualified_reason.as_deref(),
        Some("an observation's provenance named another adapter")
    );
    assert_eq!(retractions(&store), none());
    assert!(is_live(&store, "drop"));
    assert_eq!(chain_len(&store, "intruder"), 0);
}

#[test]
fn a_resumed_sweep_carries_the_stored_cursor_and_retracts_nothing() {
    let mut store = fresh_store();
    refresh(&mut store, plant(), PLAIN);
    refresh(
        &mut store,
        run(vec![page(vec![obs("keep", "11.00")], drained_status(Some("p2"))), dies()]),
        PLAIN,
    );
    let (done, asked) =
        match refresh_result(&mut store, run(vec![page(vec![], drained_status(None))]), RESUME) {
            Ok(done) => done,
            Err(e) => panic!("{}", e.to_string()),
        };
    assert_eq!(asked.len(), 1, "the resumed sweep issues one page");
    match &asked[0] {
        Some(PageRequest::Cursor { cursor }) => assert_eq!(cursor, "p2"),
        other => panic!("the resumed page must carry the stored cursor, got {other:?}"),
    }
    let report = only(done.sweeps);
    assert!(!report.complete);
    assert_eq!(report.retracted, 0);
    assert_eq!(retractions(&store), none());
    assert!(is_live(&store, "drop"));
}

#[test]
fn a_cursor_of_another_derivation_is_not_resumed() {
    let mut store = fresh_store();
    refresh(
        &mut store,
        run(vec![page(vec![obs("keep", "11.00")], drained_status(Some("p2"))), dies()]),
        PLAIN,
    );
    let moved = Run {
        derivation: "other@2".to_owned(),
        ..carried(vec![obs("keep", "11.00")])
    };
    match refresh_result(&mut store, moved, RESUME) {
        Ok((_, asked)) => assert!(asked[0].is_none(), "a full sweep from the start"),
        Err(e) => panic!("{}", e.to_string()),
    }
}

// --- what the connection did to the contract ---

fn volunteered() -> BalanceWire {
    BalanceWire {
        resource_id: "ghost".to_owned(),
        ..balance("available", Some("999.00"))
    }
}

#[test]
fn a_contract_violation_earlier_in_the_refresh_disqualifies_the_sweep() {
    assert_partial(
        Run {
            balances: Ok((vec![volunteered()], vec![status_for(RESOURCE_ID, fetched())])),
            ..carried(vec![obs("keep", "11.00")])
        },
        "balances.read broke the wire contract",
    );
}

#[test]
fn an_honest_balances_failure_leaves_the_sweep_qualifying() {
    let mut store = fresh_store();
    refresh(&mut store, plant(), PLAIN);
    let run = Run {
        balances: Err(wire_error(WireErrorCode::Internal, "the provider is down")),
        ..carried(vec![obs("keep", "11.00")])
    };
    let done = match refresh_result(&mut store, run, PLAIN) {
        Ok((done, _)) => done,
        Err(e) => panic!("{}", e.to_string()),
    };
    assert_eq!(done.errors.len(), 1);
    assert!(done.errors[0].starts_with("balances.read failed: "));
    let report = only(done.sweeps);
    assert!(report.complete, "{:?}", report.disqualified_reason);
    assert_eq!(
        retractions(&store),
        vec![("drop".to_owned(), REASON_ABSENT.to_owned())]
    );
}

#[test]
fn a_violation_in_one_sweep_disqualifies_the_next() {
    let mut store = fresh_store();
    refresh(&mut store, plant(), PLAIN);
    let both = || vec![status_for("other", fetched()), status_for(RESOURCE_ID, fetched())];
    let tainted = Run {
        listed: vec!["other".to_owned(), RESOURCE_ID.to_owned()],
        statuses: Ok(both()),
        balances: Ok((vec![], both())),
        ..run(vec![
            Page { reply: Ok((vec![], vec![])), violation: None },
            page(vec![obs("keep", "11.00")], drained_status(None)),
        ])
    };
    let reports = refresh(&mut store, tainted, PLAIN);
    assert_eq!(reports.len(), 2, "two resources, two sweeps");
    let acct = reports.iter().find(|r| r.resource_id == RESOURCE_ID).unwrap();
    assert!(!acct.complete);
    assert!(acct
        .disqualified_reason
        .as_deref()
        .unwrap()
        .starts_with("history.read broke the wire contract"));
    assert_eq!(retractions(&store), none());
    assert!(is_live(&store, "drop"));
    assert_eq!(chain_len(&store, "keep"), 2);
}

#[test]
fn a_violation_behind_the_final_reply_disqualifies_before_the_commit() {
    let mut store = fresh_store();
    refresh(&mut store, plant(), PLAIN);
    let mut last = page(vec![obs("keep", "11.00")], drained_status(None));
    last.violation = Some(ProtocolViolationKind::DuplicateId);
    let report = only(refresh(&mut store, run(vec![last]), PLAIN));
    assert_eq!(report.error, None, "the sweep's own reads all succeeded");
    assert_eq!(chain_len(&store, "keep"), 2, "the final page was ingested");
    assert!(!report.complete);
    assert_eq!(
        report.disqualified_reason.as_deref(),
        Some("the connection broke the wire contract: DuplicateId")
    );
    assert_eq!(retractions(&store), none());
    assert!(is_live(&store, "drop"));
}

#[test]
fn a_violation_on_the_way_out_reaches_the_refresh_report() {
    let mut store = fresh_store();
    let done = match refresh_result(&mut store, carried(vec![obs("keep", "10.00")]), PLAIN) {
        Ok((done, _)) => done,
        Err(e) => panic!("{}", e.to_string()),
    };
    let mut report = RefreshReport::new();
    assert!(!report.failed());
    report.absorb(ADAPTER_ID, Ok(done), Some(ProtocolViolationKind::UnterminatedFrame));
    assert_eq!(report.sweeps.len(), 1);
    let messages: Vec<&str> =
        report.adapter_errors.iter().map(|(_, message)| message.as_str()).collect();
    assert_eq!(
        messages,
        vec!["the connection ended in a wire-contract violation: UnterminatedFrame"]
    );
    assert!(report.failed());
}

// --- why a record is retracted, and what exempts it ---

#[test]
fn a_derivation_change_retires_old_ids_under_the_software_reason() {
    let mut store = fresh_store();
    refresh(
        &mut store,
        Run {
            derivation: "txid@1".to_owned(),
            ..carried(vec![obs("old:a", "10.00"), obs("old:b", "20.00")])
        },
        PLAIN,
    );
    let report = only(refresh(
        &mut store,
        Run {
            derivation: "txid@2".to_owned(),
            ..carried(vec![obs("new:a", "10.00"), obs("new:b", "20.00")])
        },
        PLAIN,
    ));
    assert!(report.complete, "{:?}", report.disqualified_reason);
    assert_eq!(report.retracted, 2);
    assert_eq!(
        retractions(&store),
        vec![
            ("old:a".to_owned(), "derivation_changed".to_owned()),
            ("old:b".to_owned(), "derivation_changed".to_owned()),
        ]
    );
    let mut live = live_ids(&store);
    live.sort();
    assert_eq!(live, vec!["new:a".to_owned(), "new:b".to_owned()]);
    assert!(discrepancy_kinds(&store).contains(&"derivation_changed".to_owned()));
}

#[test]
fn a_definition_change_retires_absent_heads_and_keeps_the_present_ones() {
    let mut store = fresh_store();
    refresh(
        &mut store,
        Run {
            extra: "{\"address_set_sha256\": \"aaaa\"}".to_owned(),
            ..carried(vec![obs("shared", "10.00"), obs("only-second-address", "20.00")])
        },
        PLAIN,
    );
    let report = only(refresh(
        &mut store,
        Run {
            extra: "{\"address_set_sha256\": \"bbbb\"}".to_owned(),
            ..carried(vec![obs("shared", "10.00")])
        },
        PLAIN,
    ));
    assert!(report.complete, "{:?}", report.disqualified_reason);
    assert_eq!(
        retractions(&store),
        vec![(
            "only-second-address".to_owned(),
            "resource_definition_changed".to_owned()
        )]
    );
    assert_eq!(live_ids(&store), vec!["shared".to_owned()]);
}

fn starting(at: &str) -> Result<Vec<ResourceStatus>, HostError> {
    Ok(vec![ResourceStatus {
        history_start: Some(ts(at)),
        ..status_for(RESOURCE_ID, ReadOutcome::Fetched { page_empty: true })
    }])
}

#[test]
fn history_start_exempts_records_the_sweep_could_not_have_seen() {
    let recent = || carried(vec![obs_at("recent", "20.00", "2026-06-01T00:00:00Z")]);
    let mut store = fresh_store();
    refresh(
        &mut store,
        carried(vec![
            obs_at("ancient", "10.00", "2026-01-01T00:00:00Z"),
            obs_at("recent", "20.00", "2026-06-01T00:00:00Z"),
        ]),
        PLAIN,
    );
    let exempted = only(refresh(
        &mut store,
        Run { statuses: starting("2026-03-01T00:00:00Z"), ..recent() },
        PLAIN,
    ));
    assert!(exempted.complete, "{:?}", exempted.disqualified_reason);
    assert_eq!(exempted.retracted, 0);
    assert!(is_live(&store, "ancient"));
    assert!(discrepancy_kinds(&store).contains(&"history_start_exempt".to_owned()));

    let control = only(refresh(&mut store, recent(), PLAIN));
    assert_eq!(control.retracted, 1);
    assert_eq!(retractions(&store), absent("ancient"));
}

#[test]
fn a_status_reply_that_omits_a_requested_resource_grants_no_bound() {
    let mut store = fresh_store();
    refresh(
        &mut store,
        carried(vec![
            obs_at("ancient", "10.00", "2026-01-01T00:00:00Z"),
            obs_at("recent", "20.00", "2026-06-01T00:00:00Z"),
        ]),
        PLAIN,
    );
    let omitted = Run {
        statuses: Ok(vec![]),
        ..carried(vec![obs_at("recent", "20.00", "2026-06-01T00:00:00Z")])
    };
    let message = match refresh_result(&mut store, omitted, PLAIN) {
        Err(e) => e.to_string(),
        Ok(_) => panic!("a reply that covers no requested resource is malformed"),
    };
    assert!(message.contains(RESOURCE_ID) && message.contains("status.read"), "{message}");
    assert_eq!(retractions(&store), none());
    assert!(is_live(&store, "ancient"));
}

#[test]
fn a_vantage_change_defers_one_sweep_and_then_terminates() {
    let seen_from = |provider: &str| Run {
        provider_id: provider.to_owned(),
        ..carried(vec![obs("keep", "10.00")])
    };
    let mut store = fresh_store();
    refresh(&mut store, Run { provider_id: "esplora-a".to_owned(), ..plant() }, PLAIN);
    let moved = only(refresh(&mut store, seen_from("esplora-b"), PLAIN));
    assert!(moved.complete, "{:?}", moved.disqualified_reason);
    assert_eq!(moved.retracted, 0);
    assert!(discrepancy_kinds(&store).contains(&"vantage_changed".to_owned()));
    assert!(is_live(&store, "drop"));
    let settled = only(refresh(&mut store, seen_from("esplora-b"), PLAIN));
    assert_eq!(settled.retracted, 1, "the rule terminates");
    assert_eq!(retractions(&store), absent("drop"));
}

#[test]
fn an_empty_sweep_retracts_nothing_without_confirm_empty() {
    let empty = || {
        run(vec![page(
            vec![],
            ResourceStatus {
                outcome: ReadOutcome::Fetched { page_empty: true },
                ..drained_status(None)
            },
        )])
    };
    let mut store = fresh_store();
    refresh(&mut store, carried(vec![obs("a", "10.00"), obs("b", "20.00")]), PLAIN);
    let refused = only(refresh(&mut store, empty(), PLAIN));
    assert!(refused.complete, "the sweep itself qualified");
    assert_eq!(refused.retracted, 0);
    assert!(discrepancy_kinds(&store).contains(&"empty_sweep".to_owned()));
    assert!(refused.discrepancies.iter().any(|d| d.detail.contains("--confirm-empty")));
    assert_eq!(live_ids(&store).len(), 2);
    let confirmed = only(refresh(
        &mut store,
        empty(),
        SweepOptions { resume: false, confirm_empty: true },
    ));
    assert_eq!(confirmed.retracted, 2);
    assert!(live_ids(&store).is_empty());
}

// --- retractions that must not happen ---

fn large(local_id: &str, amount: &str) -> Rec {
    Rec { bytes: 100_000, ..obs(local_id, amount) }
}

#[test]
fn two_oversized_records_are_both_exempt_not_just_the_last() {
    let mut store = fresh_store();
    refresh(
        &mut store,
        carried(vec![
            obs("keep", "10.00"),
            obs("drop", "20.00"),
            obs("huge-a", "30.00"),
            obs("huge-b", "40.00"),
        ]),
        PLAIN,
    );
    let report = only(refresh(
        &mut store,
        carried(vec![obs("keep", "11.00"), large("huge-a", "30.00"), large("huge-b", "40.00")]),
        PLAIN,
    ));
    assert!(report.complete, "{:?}", report.disqualified_reason);
    assert_eq!(retractions(&store), absent("drop"));
    assert!(is_live(&store, "huge-a"));
    assert!(is_live(&store, "huge-b"));
}

#[test]
fn a_host_degrade_cannot_overwrite_the_adapters_anonymous_one() {
    let mut store = fresh_store();
    refresh(
        &mut store,
        carried(vec![obs("keep", "10.00"), obs("drop", "20.00"), obs("huge", "30.00")]),
        PLAIN,
    );
    let report = only(refresh(
        &mut store,
        run(vec![page(
            vec![obs("keep", "11.00"), large("huge", "30.00")],
            ResourceStatus {
                degraded: vec![Degraded { local_id: None, bytes: 99_999 }],
                ..drained_status(None)
            },
        )]),
        PLAIN,
    ));
    assert!(!report.complete);
    assert_eq!(
        report.disqualified_reason.as_deref(),
        Some("an anonymous degraded record")
    );
    assert_eq!(retractions(&store), none());
    assert!(is_live(&store, "drop"));
}

#[test]
fn an_oversized_foreign_observation_still_disqualifies() {
    let mut store = fresh_store();
    refresh(&mut store, plant(), PLAIN);
    let report = only(refresh(
        &mut store,
        carried(vec![
            obs("keep", "11.00"),
            Rec { bytes: 100_000, ..foreign("foreign", RESOURCE_ID) },
        ]),
        PLAIN,
    ));
    assert_eq!(retractions(&store), none());
    assert_eq!(
        report.disqualified_reason.as_deref(),
        Some("an observation's provenance named another adapter")
    );
    assert!(is_live(&store, "drop"));
    assert_eq!(chain_len(&store, "foreign"), 0);
}

#[test]
fn history_start_exempts_by_instant_not_by_text() {
    let mut store = fresh_store();
    refresh(
        &mut store,
        Run {
            statuses: starting("2026-01-01T00:00:00.500Z"),
            ..carried(vec![
                obs("keep", "10.00"),
                obs_at("fraction", "20.00", "2026-01-01T00:00:00Z"),
                obs_at("offset", "30.00", "2026-01-01T01:00:00+02:00"),
                obs_at("gone", "40.00", "2026-06-01T00:00:00Z"),
            ])
        },
        PLAIN,
    );
    let report = only(refresh(
        &mut store,
        Run {
            statuses: starting("2026-01-01T00:00:00.500Z"),
            ..carried(vec![obs("keep", "11.00")])
        },
        PLAIN,
    ));
    assert!(report.complete, "{:?}", report.disqualified_reason);
    assert_eq!(retractions(&store), absent("gone"));
    assert!(is_live(&store, "fraction"), "a fractional second is not a later instant");
    assert!(is_live(&store, "offset"), "+02:00 is not a later instant");
    assert!(discrepancy_kinds(&store).contains(&"history_start_exempt".to_owned()));
}

#[test]
fn a_record_whose_instant_is_in_doubt_is_not_retracted() {
    let mut store = fresh_store();
    refresh(
        &mut store,
        carried(vec![
            obs("keep", "10.00"),
            obs_at("impossible", "20.00", "2026-06-31T00:00:00Z"),
            obs_at("too-fine", "30.00", "2026-06-01T00:00:00.0000000001Z"),
        ]),
        PLAIN,
    );
    refresh(
        &mut store,
        Run {
            statuses: starting("2026-01-01T00:00:00Z"),
            ..carried(vec![obs("keep", "10.00")])
        },
        PLAIN,
    );
    assert_eq!(retractions(&store), none());
    assert!(is_live(&store, "impossible") && is_live(&store, "too-fine"));
}

#[test]
fn a_resource_named_twice_in_one_reply_is_refused() {
    let mut store = fresh_store();
    refresh(&mut store, plant(), PLAIN);
    let contradictory = run(vec![Page {
        reply: Ok((
            vec![obs("keep", "11.00")],
            vec![
                drained_status(None),
                ResourceStatus {
                    degraded: vec![Degraded { local_id: None, bytes: 4096 }],
                    ..status_for(
                        RESOURCE_ID,
                        ReadOutcome::Stale { as_of: ts("2026-01-01T00:00:00Z") },
                    )
                },
            ],
        )),
        violation: None,
    }]);
    let report = only(refresh(&mut store, contradictory, PLAIN));
    assert_eq!(retractions(&store), none());
    assert!(!report.complete);
    assert!(report.error.unwrap().contains("more than once"));
    assert!(is_live(&store, "drop"));
}

fn taken(step: Result<Step, StoreError>) -> Step {
    match step {
        Ok(step) => step,
        Err(e) => panic!("the page can be stored, got {}", e.to_string()),
    }
}

fn sweep_one(store: &mut Store, resource_id: &str, records: Vec<Rec>) -> SweepReport {
    let input = SweepInput {
        adapter_id: ADAPTER_ID.to_owned(),
        resource_id: resource_id.to_owned(),
        hello_derivation: DERIVATION.to_owned(),
        fingerprint: "fp1".to_owned(),
        provider_id: "p1".to_owned(),
        history_start: None,
        connection_violation: None,
        options: PLAIN,
    };
    let at = ts("2026-02-01T00:00:00Z");
    let sweep = Sweep::begin(store, input, at.as_str());
    let read = history_read(
        ADAPTER_ID,
        &vec![resource_id.to_owned()],
        records.iter().map(measured).collect(),
        vec![ResourceStatus {
            resource_id: resource_id.to_owned(),
            ..drained_status(None)
        }],
        &at,
    )
    .unwrap();
    match taken(sweep.on_page(store, read, None)) {
        Step::Done(report) => report,
        Step::Next(_) => panic!("one page drains this sweep"),
    }
}

fn under(resource_id: &str, local_id: &str) -> Rec {
    Rec { resource_id: resource_id.to_owned(), ..obs(local_id, "10.00") }
}

#[test]
fn a_record_retracted_under_one_resource_revives_under_another() {
    let mut store = fresh_store();
    assert!(sweep_one(&mut store, "r1", vec![under("r1", "tx"), under("r1", "anchor")]).complete);
    let retracting = sweep_one(&mut store, "r1", vec![under("r1", "anchor")]);
    assert_eq!(retracting.retracted, 1);
    let revived = sweep_one(&mut store, "r2", vec![under("r2", "tx")]);
    assert!(revived.complete, "{:?}", revived.disqualified_reason);
    assert_eq!(revived.revised, 1, "revision 2 of the same chain");
    let live: Vec<String> = live_records(&store, ADAPTER_ID, "r2")
        .into_iter()
        .map(|(local_id, _, _)| local_id)
        .collect();
    assert_eq!(live, vec!["tx".to_owned()]);
}

#[test]
fn a_re_observation_stamps_the_head_the_fold_chose() {
    let surfaced = |surface: &str, amount: &str| Rec {
        surface: surface.to_owned(),
        ..obs("tx", amount)
    };
    let mut store = fresh_store();
    refresh(
        &mut store,
        carried(vec![surfaced("z", "10.00"), surfaced("a", "20.00")]),
        PLAIN,
    );
    let report = only(refresh(
        &mut store,
        Run {
            extra: "{\"address_set_sha256\": \"moved\"}".to_owned(),
            ..carried(vec![surfaced("z", "10.00")])
        },
        PLAIN,
    ));
    assert_eq!(report.unchanged, 1, "the head was recognised");
    let current = resource(&store, ADAPTER_ID, RESOURCE_ID).unwrap().fingerprint.unwrap();
    let rows = chain(&store, ADAPTER_ID, "tx");
    let fingerprint = |revision: u64| {
        rows.iter().find(|row| row.revision == revision).unwrap().fingerprint.clone()
    };
    assert_eq!(fingerprint(1), Some(current.clone()));
    assert_ne!(fingerprint(2), Some(current));
}

#[test]
fn a_drained_resume_retires_the_cursor_it_resumed_from() {
    let mut store = fresh_store();
    let boom = Page {
        reply: Err(wire_error(WireErrorCode::Internal, "boom")),
        violation: None,
    };
    let crashed = only(refresh(
        &mut store,
        run(vec![page(vec![obs("keep", "10.00")], drained_status(Some("p2"))), boom]),
        PLAIN,
    ));
    assert!(crashed.error.is_some());
    assert!(resumable_crawl(&store, ADAPTER_ID, RESOURCE_ID).is_some());
    let resumed = only(refresh(&mut store, carried(vec![obs("second-page", "20.00")]), RESUME));
    assert!(resumed.error.is_none(), "{:?}", resumed.error);
    assert!(resumable_crawl(&store, ADAPTER_ID, RESOURCE_ID).is_none());
    match refresh_result(
        &mut store,
        carried(vec![obs("keep", "10.00"), obs("second-page", "20.00")]),
        RESUME,
    ) {
        Ok((done, asked)) => {
            assert!(asked[0].is_none(), "the dead cursor is not sent again");
            assert!(only(done.sweeps).complete);
        }
        Err(e) => panic!("{}", e.to_string()),
    }
}

#[test]
fn a_backwards_clock_step_does_not_bury_a_record_for_ever() {
    let observed = |received_at: &str| Observation {
        resource_id: "acct".to_owned(),
        local_id: "x".to_owned(),
        provider_id: None,
        supersedes_provider_id: None,
        state: ObservationState::Active,
        tombstone_reason: None,
        surface: "s".to_owned(),
        posting: Posting::Posted,
        amount: Amount::parse(AssetId::new("usd").unwrap(), "10.00").unwrap(),
        fees: None,
        raw_sign: RawSign::ProviderPositive,
        description: "x".to_owned(),
        provider_extra: JsonObject::empty(),
        provenance: Provenance::stamp(
            ProvenanceWire {
                adapter_id: "fake-adapter".to_owned(),
                provider_id: "p1".to_owned(),
                surface: "s".to_owned(),
                observed_at: ts("2026-01-01T00:00:00Z"),
                effective_at: None,
                completeness: Completeness::Complete,
            },
            ts(received_at),
            Staleness::Live,
        ),
    };
    let mut fold = Fold::new();
    assert_eq!(fold.ingest(observed("2026-01-01T00:00:10Z")), 1);
    let high_water = vec![("x".to_owned(), 1u64)];
    assert_eq!(fold.ingest(observed("2026-01-01T00:00:05Z")), 2);
    let live = live_set(&fold, &high_water, "fake-adapter", "acct");
    assert_eq!(live.len(), 1);
    assert_eq!(live[0].1, 2);
    assert!(!is_buried(&high_water, "x", live[0].1));
    assert!(is_buried(&high_water, "x", 1));
}

#[test]
fn the_final_page_comes_in_one_step() {
    let mut store = fresh_store();
    refresh(&mut store, plant(), PLAIN);
    let before = store.tables().observations.len();
    let report = only(refresh(&mut store, carried(vec![obs("keep", "11.00")]), PLAIN));
    assert_eq!(report.retracted, 1);
    let newest = crawls(&store, 1);
    assert!(newest[0].drained && newest[0].complete);
    assert_eq!(store.tables().observations.len(), before + 1);
    assert_eq!(store.tables().retractions.len(), 1);
    assert_eq!(store.tables().retractions[0].crawl_id, newest[0].crawl_id);
}

fn plain_input(fingerprint: &str) -> SweepInput {
    SweepInput {
        adapter_id: ADAPTER_ID.to_owned(),
        resource_id: RESOURCE_ID.to_owned(),
        hello_derivation: DERIVATION.to_owned(),
        fingerprint: fingerprint.to_owned(),
        provider_id: "p1".to_owned(),
        history_start: None,
        connection_violation: None,
        options: PLAIN,
    }
}

/// A second store with the same rows.
fn copied(store: &Store) -> Store {
    let rows = store.tables();
    let mut tables = Tables::new();
    tables.adapters = rows.adapters.clone();
    tables.resources = rows.resources.clone();
    tables.crawls = rows.crawls.clone();
    tables.observations = rows.observations.clone();
    for row in &rows.retractions {
        tables.retractions.push(row.clone());
    }
    match Store::load(tables) {
        Ok(store) => store,
        Err(e) => panic!("{}", e.to_string()),
    }
}

fn swept(store: &mut Store, records: &[Rec], at: &str) -> (Store, SweepReport) {
    let at = ts(at);
    let sweep = Sweep::begin(store, plain_input("fp1"), at.as_str());
    let saved = copied(store);
    let read = history_read(
        ADAPTER_ID,
        &vec![RESOURCE_ID.to_owned()],
        records.iter().map(measured).collect(),
        vec![drained_status(None)],
        &at,
    );
    match taken(sweep.on_page(store, read.unwrap(), None)) {
        Step::Done(report) => (saved, report),
        Step::Next(_) => panic!("the page is the last"),
    }
}

#[test]
fn a_lost_final_page_is_taken_again() {
    let mut store = fresh_store();
    let planted = [obs("keep", "10.00"), obs("drop", "20.00")];
    let (_, report) = swept(&mut store, &planted, "2026-02-01T00:00:00Z");
    assert!(report.complete);
    assert_eq!(report.new, 2);

    // The page is taken and its commit fails: what was saved before it stays.
    let page = [obs("keep", "11.00")];
    let (mut store, lost) = swept(&mut store, &page, "2026-02-02T00:00:00Z");
    assert_eq!(store.tables().observations.len(), 2);
    assert_eq!(retractions(&store), none());
    let open = &crawls(&store, 1)[0];
    assert!(!open.drained && !open.complete);

    let (_, again) = swept(&mut store, &page, "2026-02-03T00:00:00Z");
    assert!(again.complete && lost.complete);
    assert_eq!((again.new, again.revised, again.unchanged), (lost.new, lost.revised, lost.unchanged));
    assert_eq!((again.retracted, lost.retracted), (1, 1));
    assert_eq!(retractions(&store), absent("drop"));
    assert_eq!(live_ids(&store), vec!["keep".to_owned()]);
}

/// A sweep of these pages, with what was saved before the last of them.
fn swept_in_pages(store: &mut Store, pages: &[Vec<Rec>], at: &str) -> (Store, SweepReport) {
    let at = ts(at);
    let mut sweep = Sweep::begin(store, plain_input("fp1"), at.as_str());
    let mut saved = copied(store);
    for (i, records) in pages.iter().enumerate() {
        let next = if i + 1 < pages.len() { Some("next") } else { None };
        saved = copied(store);
        let read = history_read(
            ADAPTER_ID,
            &vec![RESOURCE_ID.to_owned()],
            records.iter().map(measured).collect(),
            vec![drained_status(next)],
            &at,
        );
        match taken(sweep.on_page(store, read.unwrap(), None)) {
            Step::Next(on) => sweep = on,
            Step::Done(report) => return (saved, report),
        }
    }
    panic!("the last page ends the sweep, after {} rows", saved.tables().observations.len());
}

#[test]
fn a_lost_last_page_of_several_is_taken_again() {
    let mut store = fresh_store();
    let planted = [obs("keep", "10.00"), obs("drop", "20.00"), obs("gone", "30.00")];
    swept(&mut store, &planted, "2026-02-01T00:00:00Z");

    let pages = [
        vec![obs("keep", "11.00"), obs("first", "1.00")],
        vec![obs("second", "2.00")],
        vec![obs("third", "3.00"), obs("first", "1.00")],
    ];
    let (mut store, lost) = swept_in_pages(&mut store, &pages, "2026-02-02T00:00:00Z");
    assert_eq!((lost.new, lost.revised, lost.unchanged), (3, 1, 1));
    assert_eq!(store.tables().observations.len(), 6, "two pages were kept");
    assert_eq!(retractions(&store), none());

    let (_, again) = swept_in_pages(&mut store, &pages, "2026-02-03T00:00:00Z");
    assert!(again.complete && lost.complete);
    assert_eq!((again.new, again.revised, again.unchanged), (1, 0, 4));
    assert_eq!((again.retracted, lost.retracted), (2, 2));
    assert_eq!(again.disqualified_reason, lost.disqualified_reason);
    assert_eq!(again.discrepancies.len(), lost.discrepancies.len());
    let gone: Vec<String> = retractions(&store).into_iter().map(|(id, _)| id).collect();
    assert_eq!(gone, vec!["drop".to_owned(), "gone".to_owned()]);
    assert_eq!(live_ids(&store), vec!["first", "keep", "second", "third"]);
}

/// A profile that was changed by other means is read as it stands. A page that
/// would store a revision that is there already is refused, and nothing of it is
/// kept.
#[test]
fn a_revision_that_is_stored_already_is_refused_with_its_page() {
    let mut store = fresh_store();
    let planted = [obs("a", "10.00"), obs("b", "20.00")];
    swept(&mut store, &planted, "2026-02-01T00:00:00Z");
    let mut tables = Tables::new();
    tables.adapters = store.tables().adapters.clone();
    tables.resources = store.tables().resources.clone();
    tables.crawls = store.tables().crawls.clone();
    tables.observations = store.tables().observations.clone();
    let mut row = tables.observations[1].clone();
    row.observation_id += 1;
    row.revision = 3;
    tables.observations.push(row);
    let mut store = match Store::load(tables) {
        Ok(store) => store,
        Err(e) => panic!("{}", e.to_string()),
    };
    let revisions: Vec<u64> =
        chain(&store, ADAPTER_ID, "b").iter().map(|row| row.revision).collect();
    assert_eq!(revisions, vec![1, 3]);
    assert_eq!(live_ids(&store), vec!["a", "b"]);

    let at = ts("2026-02-02T00:00:00Z");
    let read = |records: &[Rec]| {
        history_read(
            ADAPTER_ID,
            &vec![RESOURCE_ID.to_owned()],
            records.iter().map(measured).collect(),
            vec![drained_status(None)],
            &at,
        )
        .unwrap()
    };
    let sweep = Sweep::begin(&mut store, plain_input("fp1"), at.as_str());
    let changed = [obs("new", "1.00"), obs("a", "10.00"), obs("b", "21.00")];
    match sweep.on_page(&mut store, read(&changed), None) {
        Err(e) => assert_eq!(
            e.to_string(),
            "sqlite: UNIQUE constraint failed: observation.adapter_id, observation.local_id, \
             observation.revision"
        ),
        Ok(_) => panic!("revision 3 is stored already"),
    }
    assert_eq!(store.tables().observations.len(), 3);
    assert_eq!(store.tables().observations[0].last_seen_crawl, 1, "nothing is stamped");
    let open = &crawls(&store, 1)[0];
    assert!(!open.drained && open.disqualified_reason.is_none());

    let sweep = Sweep::begin(&mut store, plain_input("fp1"), at.as_str());
    let same = [obs("a", "10.00"), obs("b", "20.00")];
    match taken(sweep.on_page(&mut store, read(&same), None)) {
        Step::Done(report) => assert_eq!((report.unchanged, report.complete), (2, true)),
        Step::Next(_) => panic!("the page is the last"),
    }
}

/// A retraction may lie above what a record has come to: until the record passes
/// it, the record stays buried.
#[test]
fn a_retraction_above_the_chain_is_read_as_it_stands() {
    let mut store = fresh_store();
    let planted = [obs("a", "10.00"), obs("b", "20.00")];
    swept(&mut store, &planted, "2026-02-01T00:00:00Z");
    let mut tables = Tables::new();
    tables.adapters = store.tables().adapters.clone();
    tables.resources = store.tables().resources.clone();
    tables.crawls = store.tables().crawls.clone();
    tables.observations = store.tables().observations.clone();
    tables.retractions.push(RetractionRow {
        adapter_id: ADAPTER_ID.to_owned(),
        local_id: "a".to_owned(),
        revision: 3,
        reason: REASON_ABSENT.to_owned(),
        crawl_id: 1,
        retracted_at: "2026-02-01T00:00:00Z".to_owned(),
    });
    let mut store = match Store::load(tables) {
        Ok(store) => store,
        Err(e) => panic!("{}", e.to_string()),
    };
    assert_eq!(live_ids(&store), vec!["b"]);
    for revision in 2..=4 {
        let at = format!("2026-02-0{revision}T00:00:00Z");
        let (_, report) = swept(&mut store, &planted, &at);
        assert_eq!((report.revised, report.unchanged), (1, 1));
        assert_eq!(chain_len(&store, "a"), revision);
        assert_eq!(is_live(&store, "a"), revision > 3);
    }
}

#[test]
fn a_kill_between_pages_keeps_page_one_and_its_cursor() {
    let first = || page(vec![obs("keep", "10.00"), obs("drop", "20.00")], drained_status(Some("p2")));
    let mut store = fresh_store();
    refresh(
        &mut store,
        run(vec![first(), page(vec![obs("second-page", "30.00")], drained_status(None))]),
        PLAIN,
    );
    assert_eq!(live_ids(&store).len(), 3);

    // The host goes away after the first page: nothing is said to the store.
    let at = ts("2026-02-02T00:00:00Z");
    let sweep = Sweep::begin(&mut store, plain_input("fp1"), at.as_str());
    let (records, statuses) = match first().reply {
        Ok(reply) => reply,
        Err(_) => unreachable!(),
    };
    let read = history_read(
        ADAPTER_ID,
        &vec![RESOURCE_ID.to_owned()],
        records.iter().map(measured).collect(),
        statuses,
        &at,
    );
    let step = taken(sweep.on_page(&mut store, read.unwrap(), None));
    assert!(matches!(step, Step::Next(_)));

    let abandoned = &crawls(&store, 10)[0];
    assert!(!abandoned.drained, "an abandoned crawl is not drained");
    assert!(!abandoned.complete, "and it is certainly not complete");
    assert!(abandoned.start_page.is_none(), "it began at the start of history");
    match &abandoned.next_page {
        Some(PageRequest::Cursor { cursor }) => assert_eq!(cursor, "p2"),
        other => panic!("the first page comes with its cursor, got {other:?}"),
    }
    assert_eq!(retractions(&store), none(), "a crawl that never drained retracts nothing");
    assert_eq!(live_ids(&store).len(), 3, "and it takes nothing away either");
}

#[test]
fn a_page_without_a_status_of_its_own_ends_the_sweep() {
    let mut store = fresh_store();
    let input = plain_input("fp1");
    let at = ts("2026-02-01T00:00:00Z");
    let sweep = Sweep::begin(&mut store, input, at.as_str());
    let read = history_read(ADAPTER_ID, &vec![], vec![], vec![], &at).unwrap();
    match taken(sweep.on_page(&mut store, read, None)) {
        Step::Done(report) => assert_eq!(
            report.error.as_deref(),
            Some("page_0_reported_no_status_for_this_resource")
        ),
        Step::Next(_) => panic!("there is nothing to go on with"),
    }
}

// --- what a failed refresh leaves on the screen ---

fn good() -> Run {
    Run {
        balances: Ok((
            vec![balance("available", Some("42.00"))],
            vec![status_for(RESOURCE_ID, fetched())],
        )),
        ..carried(vec![obs("a", "1.00")])
    }
}

fn dark(lines: Vec<BalanceWire>) -> Run {
    Run {
        balances: Ok((lines, vec![status_for(RESOURCE_ID, ReadOutcome::Unavailable)])),
        ..carried(vec![obs("a", "1.00")])
    }
}

#[test]
fn a_failure_before_balances_read_does_not_leave_the_figure_live() {
    let mut store = fresh_store();
    refresh(
        &mut store,
        Run {
            balances: Ok((
                vec![balance("available", Some("100.00"))],
                vec![status_for(RESOURCE_ID, fetched())],
            )),
            ..run(vec![])
        },
        PLAIN,
    );
    let live = rows(&store, "available").pop().unwrap();
    assert_eq!(live.outcome, "fetched");
    assert!(live.amount.is_some());
    assert!(live.from_latest_read);
    let failing = Run {
        statuses: Err(wire_error(WireErrorCode::Internal, "status.read is down")),
        ..run(vec![])
    };
    assert!(refresh_result(&mut store, failing, PLAIN).is_err());
    let after = rows(&store, "available").pop().unwrap();
    assert!(!after.from_latest_read);
    assert_eq!(after.balance_id, live.balance_id, "the failure wrote no row of its own");
    let line = line(&store, "available");
    assert!(
        !line.contains("live") && line.contains("100.00") && line.contains("stale (as of"),
        "{line}"
    );
}

#[test]
fn a_balance_for_a_resource_nobody_asked_about_is_refused() {
    let mut store = fresh_store();
    refresh(&mut store, good(), PLAIN);
    assert!(line(&store, "available").contains("live"), "the first read");
    let before = rows(&store, "available").len();
    let dropped = Run {
        listed: vec![],
        statuses: Ok(vec![]),
        balances: Ok((vec![balance("available", Some("999.00"))], vec![])),
        ..run(vec![])
    };
    refresh(&mut store, dropped, PLAIN);
    assert_eq!(rows(&store, "available").len(), before);
    let available = line(&store, "available");
    assert!(!available.contains("999.00"), "{available}");
    assert!(!available.contains("live") && available.contains("42.00"), "{available}");
}

#[test]
fn a_volunteered_balance_is_refused_even_when_a_status_comes_with_it() {
    let mut store = fresh_store();
    refresh(&mut store, good(), PLAIN);
    let before = rows(&store, "available").len();
    let dropped = Run {
        listed: vec![],
        statuses: Ok(vec![]),
        balances: Ok((
            vec![balance("available", Some("999.00"))],
            vec![status_for(RESOURCE_ID, fetched())],
        )),
        ..run(vec![])
    };
    refresh(&mut store, dropped, PLAIN);
    assert_eq!(rows(&store, "available").len(), before);
    let available = line(&store, "available");
    assert!(!available.contains("999.00"), "{available}");
    assert!(!available.contains("live") && available.contains("42.00"), "{available}");
}

#[test]
fn a_listed_and_statused_balance_is_still_stored() {
    let mut store = fresh_store();
    refresh(&mut store, good(), PLAIN);
    let stored = rows(&store, "available");
    assert_eq!(stored.len(), 1);
    assert_eq!(stored[0].outcome, "fetched");
    let available = line(&store, "available");
    assert!(available.contains("42.00") && available.contains("live"), "{available}");
}

#[test]
fn amounts_print_byte_for_byte_and_null_prints_unknown() {
    let mut store = fresh_store();
    refresh(
        &mut store,
        Run {
            balances: Ok((
                vec![
                    balance("available", Some("42.00")),
                    balance("trailing", Some("1.500")),
                    balance("negative", Some("-0.01")),
                    balance("pending", None),
                ],
                vec![status_for(RESOURCE_ID, fetched())],
            )),
            ..carried(vec![obs("a", "1.00")])
        },
        PLAIN,
    );
    assert!(line(&store, "available").contains(" 42.00 usd"));
    assert!(line(&store, "trailing").contains(" 1.500 usd"));
    assert!(line(&store, "negative").contains(" -0.01 usd"));
    let pending = line(&store, "pending");
    assert!(pending.contains("unknown"), "{pending}");
    assert!(!pending.contains(" 0 ") && !pending.contains("0.00"), "{pending}");
    assert!(line(&store, "available").contains("live \u{b7} p1 \u{b7}"));
}

#[test]
fn a_failed_read_keeps_the_last_figure_and_marks_it_stale() {
    let mut store = fresh_store();
    refresh(&mut store, good(), PLAIN);
    refresh(
        &mut store,
        dark(vec![balance("available", None), balance("never", None)]),
        PLAIN,
    );
    let available = line(&store, "available");
    assert!(
        available.contains("42.00") && available.contains("stale (as of"),
        "{available}"
    );
    let never = line(&store, "never");
    assert!(never.contains("unavailable"), "{never}");
    assert!(never.contains("--") && !never.contains("usd"), "{never}");
}

#[test]
fn a_reply_with_no_observation_marks_the_last_figure_stale() {
    let mut store = fresh_store();
    refresh(&mut store, good(), PLAIN);
    refresh(&mut store, dark(vec![]), PLAIN);
    let available = line(&store, "available");
    assert!(available.contains("42.00") && available.contains("stale (as of"), "{available}");
    assert!(!available.contains("live"), "{available}");
}

#[test]
fn a_failed_balances_read_call_marks_the_last_figure_stale() {
    let mut store = fresh_store();
    refresh(&mut store, good(), PLAIN);
    refresh(
        &mut store,
        Run {
            balances: Err(wire_error(WireErrorCode::Internal, "the provider is down")),
            ..carried(vec![obs("a", "1.00")])
        },
        PLAIN,
    );
    let available = line(&store, "available");
    assert!(available.contains("42.00") && available.contains("stale (as of"), "{available}");
    assert!(!available.contains("live"), "{available}");
}

#[test]
fn a_category_that_stops_being_reported_stops_reading_live() {
    let mut store = fresh_store();
    refresh(
        &mut store,
        Run {
            balances: Ok((
                vec![balance("available", Some("42.00")), balance("unconfirmed", Some("5"))],
                vec![status_for(RESOURCE_ID, fetched())],
            )),
            ..carried(vec![obs("a", "1.00")])
        },
        PLAIN,
    );
    refresh(&mut store, good(), PLAIN);
    let unconfirmed = line(&store, "unconfirmed");
    assert!(!unconfirmed.contains("live"), "{unconfirmed}");
    assert!(
        unconfirmed.contains("5 usd") && unconfirmed.contains("stale (as of"),
        "{unconfirmed}"
    );
    assert!(line(&store, "available").contains("live"));
}

#[test]
fn a_read_that_did_not_happen_writes_no_row_at_all() {
    let mut store = fresh_store();
    let hinted = BalanceWire {
        canonical_hint: Some("available".to_owned()),
        ..balance("available", Some("42.00"))
    };
    refresh(
        &mut store,
        Run {
            balances: Ok((vec![hinted], vec![status_for(RESOURCE_ID, fetched())])),
            ..carried(vec![obs("a", "1.00")])
        },
        PLAIN,
    );
    refresh(&mut store, dark(vec![]), PLAIN);
    let stored = rows(&store, "available");
    assert_eq!(stored.len(), 1);
    assert_eq!(stored[0].amount.as_ref().unwrap().to_string(), "42.00");
    assert_eq!(stored[0].canonical_hint.as_deref(), Some("available"));
    let available = line(&store, "available");
    assert!(available.contains("42.00") && !available.contains("live"), "{available}");
}

#[test]
fn a_resource_dropped_from_a_listing_stops_reading_live() {
    let mut store = fresh_store();
    refresh(&mut store, good(), PLAIN);
    assert!(line(&store, "available").contains("live"), "the first read");
    refresh(
        &mut store,
        Run {
            listed: vec![],
            statuses: Ok(vec![]),
            balances: Ok((vec![], vec![])),
            ..run(vec![])
        },
        PLAIN,
    );
    let available = line(&store, "available");
    assert!(!available.contains("live"), "{available}");
    assert!(available.contains("42.00") && available.contains("stale (as of"), "{available}");
}

#[test]
fn a_balance_naming_another_adapter_is_refused_and_never_displayed() {
    let mut store = fresh_store();
    refresh(&mut store, good(), PLAIN);
    let mut theirs = balance("available", Some("2000.00"));
    theirs.provenance.adapter_id = "some-other-adapter".to_owned();
    refresh(
        &mut store,
        Run {
            balances: Ok((vec![theirs], vec![status_for(RESOURCE_ID, fetched())])),
            ..carried(vec![obs("a", "1.00")])
        },
        PLAIN,
    );
    assert_eq!(rows(&store, "available").len(), 1);
    let available = line(&store, "available");
    assert!(!available.contains("2000.00"), "{available}");
    assert!(!available.contains("live"), "{available}");
    assert!(available.contains("42.00"), "{available}");
}

// --- connecting and selecting ---

#[test]
fn connect_refuses_an_adapter_that_breaks_the_contract_on_exit() {
    let mut store = Store::new();
    let argv = vec!["adapter".to_owned()];
    let refused = connect(
        &mut store,
        "a",
        "d@1",
        &argv,
        &vec![],
        Some(ProtocolViolationKind::UnterminatedFrame),
    );
    match refused {
        Err(e) => assert_eq!(
            e.to_string(),
            "adapter: the adapter broke the wire contract: UnterminatedFrame"
        ),
        Ok(_) => panic!("a broken contract is not connected"),
    }
    assert!(store.tables().adapters.is_empty());
    assert!(connect(&mut store, "a", "d@1", &argv, &vec![], None).is_ok());
    assert_eq!(store.tables().adapters.len(), 1);
    assert_eq!(
        store.tables().adapters[0].local_id_derivation.as_deref(),
        Some("d@1")
    );
}

#[test]
fn a_refresh_without_adapters_is_a_usage_error() {
    let store = Store::new();
    let every = RefreshOptions { adapter_id: None, resume: false, confirm_empty: false };
    assert!(matches!(select_adapters(&store, &every), Err(StoreError::Usage(_))));
    let mut store = fresh_store();
    upsert_adapter(&mut store, "b", &vec!["x".to_owned()]);
    assert_eq!(select_adapters(&store, &every).unwrap().len(), 2);
    let one = RefreshOptions {
        adapter_id: Some("b".to_owned()),
        resume: false,
        confirm_empty: false,
    };
    let picked = select_adapters(&store, &one).unwrap();
    assert_eq!(picked.len(), 1);
    assert_eq!(picked[0].adapter_id, "b");
}
