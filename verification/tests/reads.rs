use sumer::host::failure::HostError;
use sumer::host::reads::{
    accept_protocol, balances_read, check_status_coverage, history_read, staleness_for,
    malformed_reply, unsendable_request, MeasuredBalance, MeasuredObservation,
    MAX_OBSERVATION_BYTES,
};
use sumer::money::amount::Amount;
use sumer::money::asset::AssetId;
use sumer::wire::failure::WireErrorCode;
use sumer::wire::json::JsonObject;
use sumer::wire::page::{CursorResumable, PageReply, PageRequest};
use sumer::wire::record::{
    BalanceWire, Completeness, ObservationState, ObservationWire, Posting, ProvenanceWire, RawSign,
    Staleness,
};
use sumer::wire::status::{Degraded, ReadOutcome, ResourceStatus};
use sumer::wire::timestamp::Rfc3339;

fn ts(text: &str) -> Rfc3339 {
    Rfc3339::new(text).unwrap()
}

fn provenance(adapter_id: &str) -> ProvenanceWire {
    ProvenanceWire {
        adapter_id: adapter_id.to_owned(),
        provider_id: "p".to_owned(),
        surface: "checking".to_owned(),
        observed_at: ts("2026-09-06T12:00:00Z"),
        effective_at: None,
        completeness: Completeness::Complete,
    }
}

fn record(adapter_id: &str, local_id: &str, bytes: usize) -> MeasuredObservation {
    MeasuredObservation {
        wire: ObservationWire {
            resource_id: "acct1".to_owned(),
            local_id: local_id.to_owned(),
            provider_id: None,
            supersedes_provider_id: None,
            state: ObservationState::Active,
            tombstone_reason: None,
            surface: "checking".to_owned(),
            posting: Posting::Posted,
            amount: Amount::parse(AssetId::new("USD").unwrap(), "1.00").unwrap(),
            fees: None,
            raw_sign: RawSign::ProviderPositive,
            description: "rent".to_owned(),
            provider_extra: JsonObject::empty(),
            provenance: provenance(adapter_id),
        },
        bytes,
    }
}

fn line(adapter_id: &str, resource_id: &str, bytes: usize) -> MeasuredBalance {
    MeasuredBalance {
        wire: BalanceWire {
            resource_id: resource_id.to_owned(),
            category: "available".to_owned(),
            canonical_hint: None,
            amount: None,
            provenance: provenance(adapter_id),
        },
        bytes,
    }
}

fn status(resource_id: &str, outcome: ReadOutcome) -> ResourceStatus {
    ResourceStatus {
        resource_id: resource_id.to_owned(),
        outcome,
        page: None,
        degraded: vec![],
        history_start: None,
    }
}

fn fetched(resource_id: &str) -> ResourceStatus {
    status(resource_id, ReadOutcome::Fetched { page_empty: false })
}

fn asked(ids: &[&str]) -> Vec<String> {
    ids.iter().map(|id| (*id).to_owned()).collect()
}

#[test]
fn an_observation_over_the_cap_is_dropped_and_reported() {
    let mut entry = status(
        "acct1",
        ReadOutcome::Stale { as_of: ts("2026-09-06T11:00:00Z") },
    );
    entry.page = Some(PageReply {
        cursor_resumable: CursorResumable::Exact,
        next: Some(PageRequest::Cursor { cursor: "block-841000".to_owned() }),
    });
    let read = history_read(
        "a",
        &asked(&["acct1"]),
        vec![record("a", "small", 300), record("a", "huge", 100_300)],
        vec![entry],
        &ts("2026-09-06T12:00:01Z"),
    )
    .unwrap();
    let ids: Vec<&str> = read.observations.iter().map(|o| o.local_id.as_str()).collect();
    assert_eq!(ids, vec!["small"]);
    assert_eq!(read.statuses.len(), 1);
    let entry = &read.statuses[0];
    match &entry.outcome {
        ReadOutcome::Stale { as_of } => assert_eq!(as_of.as_str(), "2026-09-06T11:00:00Z"),
        other => panic!("the freshness outcome stays, got {other:?}"),
    }
    assert_eq!(entry.degraded.len(), 1);
    assert_eq!(entry.degraded[0].local_id.as_deref(), Some("huge"));
    assert_eq!(entry.degraded[0].bytes, 100_300);
    assert_eq!(read.observations[0].provenance.staleness, Staleness::Cached);
    let page = entry.page.as_ref().unwrap();
    match &page.next {
        Some(PageRequest::Cursor { cursor }) => assert_eq!(cursor, "block-841000"),
        other => panic!("the resume cursor must survive, got {other:?}"),
    }
    assert_eq!(page.cursor_resumable, CursorResumable::Exact);
}

#[test]
fn a_record_at_the_cap_is_kept() {
    let read = history_read(
        "a",
        &asked(&["acct1"]),
        vec![record("a", "edge", MAX_OBSERVATION_BYTES)],
        vec![fetched("acct1")],
        &ts("2026-09-06T12:00:01Z"),
    )
    .unwrap();
    assert_eq!(read.observations.len(), 1);
    assert!(read.statuses[0].degraded.is_empty());
}

#[test]
fn a_foreign_record_is_never_measured() {
    let read = history_read(
        "a",
        &asked(&["acct1"]),
        vec![record("b", "huge", 1_000_000)],
        vec![fetched("acct1")],
        &ts("2026-09-06T12:00:01Z"),
    )
    .unwrap();
    assert_eq!(read.observations.len(), 1, "it stays, to be refused by the sweep");
    assert!(read.statuses[0].degraded.is_empty());
}

#[test]
fn an_adapter_side_degrade_does_not_destroy_the_staleness_it_reported() {
    let mut entry = status(
        "acct1",
        ReadOutcome::Stale { as_of: ts("2026-09-06T11:00:00Z") },
    );
    entry.degraded = vec![Degraded { local_id: Some("huge".to_owned()), bytes: 260_000 }];
    let read = history_read(
        "a",
        &asked(&["acct1"]),
        vec![record("a", "small", 300)],
        vec![entry],
        &ts("2026-09-06T12:00:01Z"),
    )
    .unwrap();
    assert_eq!(read.observations[0].provenance.staleness, Staleness::Cached);
    assert!(matches!(read.statuses[0].outcome, ReadOutcome::Stale { .. }));
    assert_eq!(read.statuses[0].degraded.len(), 1);
    assert_eq!(read.statuses[0].degraded[0].bytes, 260_000);
}

#[test]
fn host_stamps_received_at_and_computes_live_staleness() {
    let read = balances_read(
        "a",
        &asked(&["acct1"]),
        vec![line("a", "acct1", 200)],
        vec![fetched("acct1")],
        &ts("2026-01-01T00:00:05Z"),
    )
    .unwrap();
    assert_eq!(read.observations.len(), 1);
    let provenance = &read.observations[0].provenance;
    assert_eq!(provenance.staleness, Staleness::Live);
    assert_eq!(provenance.received_at.as_str(), "2026-01-01T00:00:05Z");
    assert_eq!(provenance.observed_at.as_str(), "2026-09-06T12:00:00Z");
}

#[test]
fn staleness_comes_from_each_resources_own_status_outcome() {
    let read = balances_read(
        "a",
        &asked(&["old", "live", "dark"]),
        vec![line("a", "old", 1), line("a", "live", 1), line("a", "dark", 1)],
        vec![
            status("old", ReadOutcome::Stale { as_of: ts("2026-01-01T00:00:00Z") }),
            fetched("live"),
            status("dark", ReadOutcome::Unavailable),
        ],
        &ts("2026-01-01T00:00:05Z"),
    )
    .unwrap();
    let of = |id: &str| {
        read.observations
            .iter()
            .find(|b| b.resource_id == id)
            .map(|b| b.provenance.staleness)
    };
    assert_eq!(of("old"), Some(Staleness::Cached));
    assert_eq!(of("live"), Some(Staleness::Live));
    assert_eq!(of("dark"), Some(Staleness::Unavailable));
    assert_eq!(staleness_for(&vec![], "nobody"), Staleness::Unavailable);
}

#[test]
fn a_reply_naming_one_resource_twice_is_refused_on_every_read() {
    let twice = || vec![fetched("acct1"), status("acct1", ReadOutcome::Unavailable)];
    match balances_read("a", &asked(&["acct1"]), vec![], twice(), &ts("2026-01-01T00:00:00Z")) {
        Err(HostError::Wire(err)) => {
            assert_eq!(err.code, WireErrorCode::InvalidRequest);
            assert!(err.message.contains("more than once"));
        }
        other => panic!("a duplicate resource must be refused, got {other:?}"),
    }
    match check_status_coverage("status.read", &asked(&["acct1"]), &twice()) {
        Err(HostError::Wire(err)) => assert_eq!(
            err.message,
            "malformed status.read reply: resource \"acct1\" appears in `statuses` more than \
             once; every requested resource_id appears in `statuses` exactly once"
        ),
        other => panic!("a duplicate resource must be refused, got {other:?}"),
    }
    assert!(history_read("a", &asked(&["acct1"]), vec![], twice(), &ts("2026-01-01T00:00:00Z"))
        .is_err());
}

#[test]
fn a_reply_that_omits_a_requested_resource_is_refused() {
    match check_status_coverage("status.read", &asked(&["a", "b"]), &vec![fetched("a")]) {
        Err(HostError::Wire(err)) => assert!(err
            .message
            .contains("resource \"b\" was requested and does not appear in `statuses` at all")),
        other => panic!("an omitted resource must be refused, got {other:?}"),
    }
    assert!(check_status_coverage("status.read", &asked(&["a"]), &vec![fetched("a")]).is_ok());
    assert!(
        check_status_coverage("status.read", &asked(&[]), &vec![fetched("volunteered")]).is_ok()
    );
}

#[test]
fn a_volunteered_balance_line_refuses_the_reply() {
    for statuses in [vec![fetched("acct1")], vec![fetched("acct1"), fetched("other")]] {
        match balances_read(
            "a",
            &asked(&["acct1"]),
            vec![line("a", "other", 1)],
            statuses,
            &ts("2026-01-01T00:00:00Z"),
        ) {
            Err(HostError::Wire(err)) => assert_eq!(
                err.message,
                "malformed balances.read reply: a balance for resource \"other\", which this call \
                 did not request"
            ),
            other => panic!("a volunteered balance must be refused, got {other:?}"),
        }
    }
}

#[test]
fn a_balance_naming_another_adapter_is_refused() {
    match balances_read(
        "a",
        &asked(&["acct1"]),
        vec![line("a", "acct1", 1), line("b", "acct1", 1)],
        vec![fetched("acct1")],
        &ts("2026-01-01T00:00:00Z"),
    ) {
        Err(HostError::Wire(err)) => assert_eq!(
            err.message,
            "malformed balances.read reply: a balance for resource \"acct1\" names adapter_id \
             \"b\" on the connection that announced \"a\""
        ),
        other => panic!("a foreign balance must be refused, got {other:?}"),
    }
}

#[test]
fn an_oversized_balance_is_reported_without_an_id() {
    let read = balances_read(
        "a",
        &asked(&["acct1"]),
        vec![line("a", "acct1", 70_000)],
        vec![fetched("acct1")],
        &ts("2026-01-01T00:00:00Z"),
    )
    .unwrap();
    assert!(read.observations.is_empty());
    assert_eq!(read.statuses[0].degraded[0].local_id, None);
    assert_eq!(read.statuses[0].degraded[0].bytes, 70_000);
}

#[test]
fn a_protocol_version_that_was_never_offered_is_rejected() {
    assert!(accept_protocol("1").is_ok());
    match accept_protocol("999") {
        Err(HostError::Wire(err)) => {
            assert_eq!(err.code, WireErrorCode::UnsupportedProtocol);
            assert_eq!(
                err.message,
                "adapter selected protocol \"999\", which was not offered"
            );
            assert_eq!(err.detail.unwrap().as_str(), "{\"offered\":[\"1\"]}");
        }
        other => panic!("expected unsupported_protocol, got {other:?}"),
    }
}

#[test]
fn replies_and_requests_that_make_no_sense_are_told_apart() {
    match malformed_reply("status.read", "expected a map") {
        HostError::Wire(err) => {
            assert_eq!(err.code, WireErrorCode::InvalidRequest);
            assert_eq!(err.message, "malformed status.read reply: expected a map");
        }
        other => panic!("got {other:?}"),
    }
    match unsendable_request("status.read", "too deep") {
        HostError::Wire(err) => {
            assert_eq!(err.code, WireErrorCode::Internal);
            assert_eq!(err.message, "could not serialize status.read params: too deep");
        }
        other => panic!("got {other:?}"),
    }
}
