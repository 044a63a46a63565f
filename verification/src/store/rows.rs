//! The rows of the store's tables.

use crate::money::amount::{Amount, AmountView};
use crate::text::{copy_opt, opt_view, views};
use crate::wire::page::{copy_page, PageRequest};
use crate::wire::record::{
    opt_amount_view, Balance, BalanceView, Observation, ObservationView, Staleness,
};
use vstd::prelude::*;

verus! {

/// A connected adapter.
#[derive(Debug)]
pub struct AdapterRow {
    pub adapter_id: String,
    pub argv: Vec<String>,
    /// The derivation that the last sweep ran under.
    pub local_id_derivation: Option<String>,
    pub needs_reauth: bool,
}

/// What an adapter's row says.
pub struct AdapterView {
    pub adapter_id: Seq<char>,
    pub argv: Seq<Seq<char>>,
    pub local_id_derivation: Option<Seq<char>>,
    pub needs_reauth: bool,
}

impl View for AdapterRow {
    type V = AdapterView;

    open spec fn view(&self) -> AdapterView {
        AdapterView {
            adapter_id: self.adapter_id@,
            argv: views(self.argv@),
            local_id_derivation: opt_view(self.local_id_derivation),
            needs_reauth: self.needs_reauth,
        }
    }
}

/// Copies texts.
pub fn copy_texts(texts: &Vec<String>) -> (r: Vec<String>)
    ensures
        views(r@) == views(texts@),
{
    let mut r: Vec<String> = Vec::new();
    let mut i: usize = 0;
    while i < texts.len()
        invariant
            i <= texts@.len(),
            r@.len() == i,
            forall|k: int| 0 <= k < i ==> (#[trigger] r@[k])@ == texts@[k]@,
        decreases texts@.len() - i,
    {
        r.push(texts[i].clone());
        i = i + 1;
    }
    proof {
        assert(views(r@) =~= views(texts@));
    }
    r
}

impl Clone for AdapterRow {
    fn clone(&self) -> (r: Self)
        ensures
            r@ == self@,
    {
        AdapterRow {
            adapter_id: self.adapter_id.clone(),
            argv: copy_texts(&self.argv),
            local_id_derivation: copy_opt(&self.local_id_derivation),
            needs_reauth: self.needs_reauth,
        }
    }
}

/// A resource of an adapter.
#[derive(Debug)]
pub struct ResourceRow {
    pub adapter_id: String,
    pub resource_id: String,
    pub kind: String,
    pub label: String,
    /// The definition that the last sweep ran under.
    pub fingerprint: Option<String>,
    /// The vantage that the last complete sweep read from.
    pub last_provider_id: Option<String>,
}

/// What a resource's row says.
pub struct ResourceView {
    pub adapter_id: Seq<char>,
    pub resource_id: Seq<char>,
    pub kind: Seq<char>,
    pub label: Seq<char>,
    pub fingerprint: Option<Seq<char>>,
    pub last_provider_id: Option<Seq<char>>,
}

impl View for ResourceRow {
    type V = ResourceView;

    open spec fn view(&self) -> ResourceView {
        ResourceView {
            adapter_id: self.adapter_id@,
            resource_id: self.resource_id@,
            kind: self.kind@,
            label: self.label@,
            fingerprint: opt_view(self.fingerprint),
            last_provider_id: opt_view(self.last_provider_id),
        }
    }
}

impl Clone for ResourceRow {
    fn clone(&self) -> (r: Self)
        ensures
            r == *self,
    {
        ResourceRow {
            adapter_id: self.adapter_id.clone(),
            resource_id: self.resource_id.clone(),
            kind: self.kind.clone(),
            label: self.label.clone(),
            fingerprint: copy_opt(&self.fingerprint),
            last_provider_id: copy_opt(&self.last_provider_id),
        }
    }
}

/// One stored record, and which sweep put it there under what software rules.
#[derive(Debug)]
pub struct StoredObservation {
    pub observation_id: i64,
    /// The adapter that the record is filed under.
    pub adapter_id: String,
    pub revision: u64,
    pub crawl_id: i64,
    pub last_seen_crawl: i64,
    pub derivation: String,
    pub fingerprint: Option<String>,
    pub content_hash: String,
    pub observation: Observation,
}

/// What a stored record says.
pub struct StoredView {
    pub observation_id: int,
    pub adapter_id: Seq<char>,
    pub revision: nat,
    pub crawl_id: int,
    pub last_seen_crawl: int,
    pub derivation: Seq<char>,
    pub fingerprint: Option<Seq<char>>,
    pub content_hash: Seq<char>,
    pub observation: ObservationView,
}

impl View for StoredObservation {
    type V = StoredView;

    open spec fn view(&self) -> StoredView {
        StoredView {
            observation_id: self.observation_id as int,
            adapter_id: self.adapter_id@,
            revision: self.revision as nat,
            crawl_id: self.crawl_id as int,
            last_seen_crawl: self.last_seen_crawl as int,
            derivation: self.derivation@,
            fingerprint: opt_view(self.fingerprint),
            content_hash: self.content_hash@,
            observation: self.observation@,
        }
    }
}

impl Clone for StoredObservation {
    fn clone(&self) -> (r: Self)
        ensures
            r@ == self@,
    {
        StoredObservation {
            observation_id: self.observation_id,
            adapter_id: self.adapter_id.clone(),
            revision: self.revision,
            crawl_id: self.crawl_id,
            last_seen_crawl: self.last_seen_crawl,
            derivation: self.derivation.clone(),
            fingerprint: copy_opt(&self.fingerprint),
            content_hash: self.content_hash.clone(),
            observation: self.observation.clone(),
        }
    }
}

/// The host's own word that a record is gone. It holds nothing that only a
/// provider could say.
#[derive(Debug)]
pub struct RetractionRow {
    pub adapter_id: String,
    pub local_id: String,
    pub revision: u64,
    pub reason: String,
    pub crawl_id: i64,
    pub retracted_at: String,
}

/// What a retraction says.
pub struct RetractionView {
    pub adapter_id: Seq<char>,
    pub local_id: Seq<char>,
    pub revision: nat,
    pub reason: Seq<char>,
    pub crawl_id: int,
    pub retracted_at: Seq<char>,
}

impl View for RetractionRow {
    type V = RetractionView;

    open spec fn view(&self) -> RetractionView {
        RetractionView {
            adapter_id: self.adapter_id@,
            local_id: self.local_id@,
            revision: self.revision as nat,
            reason: self.reason@,
            crawl_id: self.crawl_id as int,
            retracted_at: self.retracted_at@,
        }
    }
}

impl Clone for RetractionRow {
    fn clone(&self) -> (r: Self)
        ensures
            r == *self,
    {
        RetractionRow {
            adapter_id: self.adapter_id.clone(),
            local_id: self.local_id.clone(),
            revision: self.revision,
            reason: self.reason.clone(),
            crawl_id: self.crawl_id,
            retracted_at: self.retracted_at.clone(),
        }
    }
}

/// One attempt to read a resource's whole history.
#[derive(Debug)]
pub struct CrawlRow {
    pub crawl_id: i64,
    pub adapter_id: String,
    pub resource_id: String,
    pub started_at: String,
    /// `None` began at the start of available history.
    pub start_page: Option<PageRequest>,
    /// Where a resume would pick up.
    pub next_page: Option<PageRequest>,
    pub local_id_derivation: String,
    pub fingerprint: Option<String>,
    pub drained: bool,
    pub complete: bool,
    pub disqualified_reason: Option<String>,
}

/// What a crawl's row says.
pub struct CrawlView {
    pub crawl_id: int,
    pub adapter_id: Seq<char>,
    pub resource_id: Seq<char>,
    pub started_at: Seq<char>,
    pub start_page: Option<PageRequest>,
    pub next_page: Option<PageRequest>,
    pub local_id_derivation: Seq<char>,
    pub fingerprint: Option<Seq<char>>,
    pub drained: bool,
    pub complete: bool,
    pub disqualified_reason: Option<Seq<char>>,
}

impl View for CrawlRow {
    type V = CrawlView;

    open spec fn view(&self) -> CrawlView {
        CrawlView {
            crawl_id: self.crawl_id as int,
            adapter_id: self.adapter_id@,
            resource_id: self.resource_id@,
            started_at: self.started_at@,
            start_page: self.start_page,
            next_page: self.next_page,
            local_id_derivation: self.local_id_derivation@,
            fingerprint: opt_view(self.fingerprint),
            drained: self.drained,
            complete: self.complete,
            disqualified_reason: opt_view(self.disqualified_reason),
        }
    }
}

impl Clone for CrawlRow {
    fn clone(&self) -> (r: Self)
        ensures
            r == *self,
    {
        CrawlRow {
            crawl_id: self.crawl_id,
            adapter_id: self.adapter_id.clone(),
            resource_id: self.resource_id.clone(),
            started_at: self.started_at.clone(),
            start_page: copy_page(&self.start_page),
            next_page: copy_page(&self.next_page),
            local_id_derivation: self.local_id_derivation.clone(),
            fingerprint: copy_opt(&self.fingerprint),
            drained: self.drained,
            complete: self.complete,
            disqualified_reason: copy_opt(&self.disqualified_reason),
        }
    }
}

/// One attempt to read an adapter's balances.
#[derive(Debug)]
pub struct ReadRow {
    pub read_id: i64,
    pub adapter_id: String,
    pub started_at: String,
}

/// What a read's row says.
pub struct ReadView {
    pub read_id: int,
    pub adapter_id: Seq<char>,
    pub started_at: Seq<char>,
}

impl View for ReadRow {
    type V = ReadView;

    open spec fn view(&self) -> ReadView {
        ReadView {
            read_id: self.read_id as int,
            adapter_id: self.adapter_id@,
            started_at: self.started_at@,
        }
    }
}

/// One balance line as an adapter reported it, and the read that brought it.
#[derive(Debug)]
pub struct StoredBalance {
    pub balance_id: i64,
    pub read_id: i64,
    pub adapter_id: String,
    pub outcome: String,
    pub balance: Balance,
}

/// What a stored balance line says.
pub struct StoredBalanceView {
    pub balance_id: int,
    pub read_id: int,
    pub adapter_id: Seq<char>,
    pub outcome: Seq<char>,
    pub balance: BalanceView,
}

impl View for StoredBalance {
    type V = StoredBalanceView;

    open spec fn view(&self) -> StoredBalanceView {
        StoredBalanceView {
            balance_id: self.balance_id as int,
            read_id: self.read_id as int,
            adapter_id: self.adapter_id@,
            outcome: self.outcome@,
            balance: self.balance@,
        }
    }
}

/// A balance line as it is shown.
#[derive(Debug)]
pub struct BalanceRow {
    pub balance_id: i64,
    pub adapter_id: String,
    pub resource_id: String,
    pub category: String,
    pub canonical_hint: Option<String>,
    /// `None` means that the adapter looked and does not know. Never zero.
    pub amount: Option<Amount>,
    pub provider_id: String,
    pub received_at: String,
    pub staleness: Staleness,
    pub outcome: String,
    /// Whether the adapter's newest read is the one that wrote this line.
    pub from_latest_read: bool,
}

/// What a shown balance line says.
pub struct BalanceRowView {
    pub balance_id: int,
    pub adapter_id: Seq<char>,
    pub resource_id: Seq<char>,
    pub category: Seq<char>,
    pub canonical_hint: Option<Seq<char>>,
    pub amount: Option<AmountView>,
    pub provider_id: Seq<char>,
    pub received_at: Seq<char>,
    pub staleness: Staleness,
    pub outcome: Seq<char>,
    pub from_latest_read: bool,
}

impl View for BalanceRow {
    type V = BalanceRowView;

    open spec fn view(&self) -> BalanceRowView {
        BalanceRowView {
            balance_id: self.balance_id as int,
            adapter_id: self.adapter_id@,
            resource_id: self.resource_id@,
            category: self.category@,
            canonical_hint: opt_view(self.canonical_hint),
            amount: opt_amount_view(self.amount),
            provider_id: self.provider_id@,
            received_at: self.received_at@,
            staleness: self.staleness,
            outcome: self.outcome@,
            from_latest_read: self.from_latest_read,
        }
    }
}

/// Something about a sweep that the user should know.
#[derive(Debug)]
pub struct DiscrepancyRow {
    pub adapter_id: String,
    pub resource_id: String,
    pub kind: String,
    pub crawl_id: i64,
    pub detail: String,
    pub noted_at: String,
}

/// What a discrepancy's row says.
pub struct DiscrepancyView {
    pub adapter_id: Seq<char>,
    pub resource_id: Seq<char>,
    pub kind: Seq<char>,
    pub crawl_id: int,
    pub detail: Seq<char>,
    pub noted_at: Seq<char>,
}

impl View for DiscrepancyRow {
    type V = DiscrepancyView;

    open spec fn view(&self) -> DiscrepancyView {
        DiscrepancyView {
            adapter_id: self.adapter_id@,
            resource_id: self.resource_id@,
            kind: self.kind@,
            crawl_id: self.crawl_id as int,
            detail: self.detail@,
            noted_at: self.noted_at@,
        }
    }
}

impl Clone for DiscrepancyRow {
    fn clone(&self) -> (r: Self)
        ensures
            r == *self,
    {
        DiscrepancyRow {
            adapter_id: self.adapter_id.clone(),
            resource_id: self.resource_id.clone(),
            kind: self.kind.clone(),
            crawl_id: self.crawl_id,
            detail: self.detail.clone(),
            noted_at: self.noted_at.clone(),
        }
    }
}

} // verus!
