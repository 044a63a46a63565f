use sumer::host::fold::Fold;
use sumer::money::amount::Amount;
use sumer::money::asset::AssetId;
use sumer::wire::json::JsonObject;
use sumer::wire::record::{
    Completeness, Observation, ObservationState, Posting, Provenance, ProvenanceWire, RawSign,
    Staleness,
};
use sumer::wire::timestamp::Rfc3339;

fn is_live(fold: &Fold, adapter_id: &str, local_id: &str) -> bool {
    fold.live_set()
        .iter()
        .any(|entry| entry.adapter_id == adapter_id && entry.local_id == local_id)
}


fn prov(adapter_id: &str, surface: &str, received_at: &str) -> Provenance {
    let wire = ProvenanceWire {
        adapter_id: adapter_id.to_owned(),
        provider_id: "p".to_owned(),
        surface: surface.to_owned(),
        observed_at: Rfc3339::new(received_at).unwrap(),
        effective_at: None,
        completeness: Completeness::Complete,
    };
    Provenance::stamp(wire, Rfc3339::new(received_at).unwrap(), Staleness::Live)
}

fn obs(
    resource_id: &str,
    local_id: &str,
    state: ObservationState,
    amount: &str,
    adapter_id: &str,
    surface: &str,
    received_at: &str,
) -> Observation {
    Observation {
        resource_id: resource_id.to_owned(),
        local_id: local_id.to_owned(),
        provider_id: None,
        supersedes_provider_id: None,
        state,
        tombstone_reason: None,
        surface: surface.to_owned(),
        posting: Posting::Posted,
        amount: Amount::parse(AssetId::new("USD").unwrap(), amount).unwrap(),
        fees: None,
        raw_sign: RawSign::ProviderPositive,
        description: "d".to_owned(),
        provider_extra: JsonObject::empty(),
        provenance: prov(adapter_id, surface, received_at),
    }
}

#[test]
fn revision_assigned_by_arrival_order_per_adapter_and_local_id() {
    let mut fold = Fold::new();
    let r1 = fold.ingest(obs(
        "acct",
        "L1",
        ObservationState::Active,
        "42.00",
        "a1",
        "checking",
        "2026-01-01T00:00:00Z",
    ));
    let r2 = fold.ingest(obs(
        "acct",
        "L1",
        ObservationState::Active,
        "42.37",
        "a1",
        "checking",
        "2026-01-02T00:00:00Z",
    ));
    assert_eq!(r1, 1);
    assert_eq!(r2, 2);
}

#[test]
fn revision_counters_are_independent_per_local_id() {
    let mut fold = Fold::new();
    fold.ingest(obs(
        "acct",
        "L1",
        ObservationState::Active,
        "1.00",
        "a1",
        "s",
        "2026-01-01T00:00:00Z",
    ));
    let r = fold.ingest(obs(
        "acct",
        "L2",
        ObservationState::Active,
        "2.00",
        "a1",
        "s",
        "2026-01-01T00:00:00Z",
    ));
    assert_eq!(r, 1, "a different local_id starts its own count at 1");
}

#[test]
fn bank_pending_to_posted_chain_is_retained_in_full() {
    let mut fold = Fold::new();
    fold.ingest(obs(
        "acct",
        "L1",
        ObservationState::Active,
        "42.00",
        "a1",
        "checking",
        "2026-01-01T00:00:00Z",
    ));
    fold.ingest(obs(
        "acct",
        "L1",
        ObservationState::Active,
        "42.37",
        "a1",
        "checking",
        "2026-01-02T00:00:00Z",
    ));
    let chain = fold.chain("a1", "L1");
    assert_eq!(
        chain.len(),
        2,
        "the full ordered chain, not just the final state"
    );
    assert_eq!(chain[0].revision, 1);
    assert_eq!(chain[1].revision, 2);
    let live = fold.live_set();
    assert_eq!(
        live.iter()
            .find(|entry| entry.adapter_id == "a1" && entry.local_id == "L1")
            .unwrap()
            .head
            .observation
            .amount
            .to_string(),
        "42.37"
    );
}

#[test]
fn bitcoin_reorg_chain_active_tombstoned_active() {
    let mut fold = Fold::new();
    fold.ingest(obs(
        "wallet",
        "L2",
        ObservationState::Active,
        "1.00",
        "a1",
        "chain",
        "2026-01-01T00:00:00Z",
    ));
    fold.ingest(obs(
        "wallet",
        "L2",
        ObservationState::Tombstoned,
        "1.00",
        "a1",
        "chain",
        "2026-01-02T00:00:00Z",
    ));
    assert!(
        !is_live(&fold, "a1", "L2"),
        "tombstoned is not in the live set"
    );
    fold.ingest(obs(
        "wallet",
        "L2",
        ObservationState::Active,
        "1.00",
        "a1",
        "chain",
        "2026-01-03T00:00:00Z",
    ));
    assert!(
        is_live(&fold, "a1", "L2"),
        "tombstone is not terminal -- a re-mine revives it"
    );
    assert_eq!(
        fold.chain("a1", "L2").len(),
        3,
        "append-only: nothing was dropped"
    );
}

#[test]
fn dedup_by_provider_id_alone_is_forbidden_by_construction() {
    let mut fold = Fold::new();
    fold.ingest(obs(
        "acct",
        "L1",
        ObservationState::Active,
        "1.00",
        "a1",
        "s",
        "2026-01-01T00:00:00Z",
    ));
    fold.ingest(obs(
        "acct",
        "L1",
        ObservationState::Active,
        "2.00",
        "a1",
        "s",
        "2026-01-02T00:00:00Z",
    ));
    assert_eq!(fold.chain("a1", "L1").len(), 2);
}

#[test]
fn two_adapters_sharing_a_local_id_keep_separate_chains() {
    let mut fold = Fold::new();
    fold.ingest(obs(
        "acct",
        "L1",
        ObservationState::Active,
        "1000.00",
        "A",
        "s",
        "2026-01-01T00:00:00Z",
    ));
    fold.ingest(obs(
        "acct",
        "L1",
        ObservationState::Active,
        "2000.00",
        "B",
        "s",
        "2026-01-02T00:00:00Z",
    ));
    assert_eq!(
        fold.live_set().len(),
        2,
        "one live entry per (adapter_id, local_id), not per local_id"
    );

    fold.ingest(obs(
        "acct",
        "L1",
        ObservationState::Tombstoned,
        "2000.00",
        "B",
        "s",
        "2026-01-03T00:00:00Z",
    ));
    assert_eq!(
        fold.live_set().len(),
        1,
        "B's tombstone must not delete A's transaction"
    );
}

#[test]
fn same_page_two_surfaces_orders_by_surface_bytewise_not_arrival() {
    let mut fold = Fold::new();
    let r_b = fold.ingest(obs(
        "acct",
        "L1",
        ObservationState::Active,
        "1.00",
        "a1",
        "B",
        "2026-01-01T00:00:00Z",
    ));
    let r_a = fold.ingest(obs(
        "acct",
        "L1",
        ObservationState::Active,
        "2.00",
        "a1",
        "A",
        "2026-01-01T00:00:00Z",
    ));
    assert_eq!(r_b, 1, "revision reflects arrival order");
    assert_eq!(r_a, 2);
    let chain = fold.chain("a1", "L1");
    assert_eq!(
        chain[0].observation.surface, "A",
        "fold order sorts by surface bytewise"
    );
    assert_eq!(chain[1].observation.surface, "B");
    assert_eq!(
        chain[0].revision, 2,
        "chain position and revision can diverge"
    );
}

fn active(local_id: &str, amount: &str, adapter_id: &str, surface: &str, at: &str) -> Observation {
    obs(
        "acct",
        local_id,
        ObservationState::Active,
        amount,
        adapter_id,
        surface,
        at,
    )
}

#[test]
fn an_unknown_key_has_no_chain_and_no_revision() {
    let fold = Fold::new();
    assert!(fold.chain("a1", "L1").is_empty());
    assert_eq!(fold.highest_revision("a1", "L1"), None);
    assert!(fold.keys().is_empty());
    assert!(fold.live_set().is_empty());
}

#[test]
fn the_highest_revision_is_the_count_of_arrivals() {
    let mut fold = Fold::new();
    fold.ingest(active("L1", "1", "a1", "s", "2026-01-02T00:00:00Z"));
    fold.ingest(active("L1", "2", "a1", "s", "2026-01-01T00:00:00Z"));
    assert_eq!(fold.highest_revision("a1", "L1"), Some(2));
    let chain = fold.chain("a1", "L1");
    assert_eq!(
        (chain[0].revision, chain[1].revision),
        (2, 1),
        "a clock that stepped back puts the newest arrival first"
    );
}

#[test]
fn chain_order_is_received_at_then_surface_then_arrival() {
    let at = "2026-01-01T00:00:00Z";
    let mut fold = Fold::new();
    fold.ingest(active("L1", "1", "a1", "b", at));
    fold.ingest(active("L1", "2", "a1", "a", "2026-01-01T00:00:01Z"));
    fold.ingest(active("L1", "3", "a1", "b", at));
    let revisions: Vec<u64> = fold.chain("a1", "L1").iter().map(|e| e.revision).collect();
    assert_eq!(revisions, vec![1, 3, 2]);
}

#[test]
fn keys_and_live_entries_name_every_key_once() {
    let at = "2026-01-01T00:00:00Z";
    let mut fold = Fold::new();
    fold.ingest(active("L2", "1", "b", "s", at));
    fold.ingest(active("L2", "1", "a", "s", at));
    fold.ingest(active("L1", "1", "b", "s", at));
    let mut keys = fold.keys();
    keys.sort();
    assert_eq!(keys, vec![("a", "L2"), ("b", "L1"), ("b", "L2")]);
    let mut live: Vec<(String, String)> = fold
        .live_set()
        .iter()
        .map(|entry| (entry.adapter_id.to_owned(), entry.local_id.to_owned()))
        .collect();
    live.sort();
    assert_eq!(
        live,
        vec![
            ("a".to_owned(), "L2".to_owned()),
            ("b".to_owned(), "L1".to_owned()),
            ("b".to_owned(), "L2".to_owned())
        ]
    );
}
