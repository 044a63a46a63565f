//! What a reply says about each resource that was asked for.

use crate::text::{opt_view, same, views};
use crate::wire::page::PageReply;
use crate::wire::timestamp::Rfc3339;
use vstd::prelude::*;

verus! {

/// How the read of one resource went.
#[derive(Debug)]
pub enum ReadOutcome {
    Fetched { page_empty: bool },
    NotFetched,
    Stale { as_of: Rfc3339 },
    RateLimited { retry_after_ms: Option<u64> },
    Unavailable,
    ReauthRequired,
    Revoked,
    Gone,
    ScaRequired,
}

impl ReadOutcome {
    /// The wire name of the outcome.
    pub open spec fn spec_name(self) -> Seq<char> {
        match self {
            ReadOutcome::Fetched { .. } => "fetched"@,
            ReadOutcome::NotFetched => "not_fetched"@,
            ReadOutcome::Stale { .. } => "stale"@,
            ReadOutcome::RateLimited { .. } => "rate_limited"@,
            ReadOutcome::Unavailable => "unavailable"@,
            ReadOutcome::ReauthRequired => "reauth_required"@,
            ReadOutcome::Revoked => "revoked"@,
            ReadOutcome::Gone => "gone"@,
            ReadOutcome::ScaRequired => "sca_required"@,
        }
    }
}

/// The wire name of an outcome.
pub fn outcome_name(outcome: &ReadOutcome) -> (r: &'static str)
    ensures
        r@ == outcome.spec_name(),
{
    match outcome {
        ReadOutcome::Fetched { .. } => "fetched",
        ReadOutcome::NotFetched => "not_fetched",
        ReadOutcome::Stale { .. } => "stale",
        ReadOutcome::RateLimited { .. } => "rate_limited",
        ReadOutcome::Unavailable => "unavailable",
        ReadOutcome::ReauthRequired => "reauth_required",
        ReadOutcome::Revoked => "revoked",
        ReadOutcome::Gone => "gone",
        ReadOutcome::ScaRequired => "sca_required",
    }
}

/// A record that was too large to send. Without a `local_id` nobody knows which.
#[derive(Debug)]
pub struct Degraded {
    pub local_id: Option<String>,
    pub bytes: u64,
}

/// What a degraded record says.
pub struct DegradedView {
    pub local_id: Option<Seq<char>>,
    pub bytes: u64,
}

impl View for Degraded {
    type V = DegradedView;

    open spec fn view(&self) -> DegradedView {
        DegradedView { local_id: opt_view(self.local_id), bytes: self.bytes }
    }
}

/// One resource's entry in a reply's `statuses`.
#[derive(Debug)]
pub struct ResourceStatus {
    pub resource_id: String,
    pub outcome: ReadOutcome,
    pub page: Option<PageReply>,
    pub degraded: Vec<Degraded>,
    pub history_start: Option<Rfc3339>,
}

/// What a resource's entry says.
pub struct StatusView {
    pub resource_id: Seq<char>,
    pub outcome: ReadOutcome,
    pub page: Option<PageReply>,
    pub degraded: Seq<DegradedView>,
    pub history_start: Option<Rfc3339>,
}

impl View for ResourceStatus {
    type V = StatusView;

    open spec fn view(&self) -> StatusView {
        StatusView {
            resource_id: self.resource_id@,
            outcome: self.outcome,
            page: self.page,
            degraded: views(self.degraded@),
            history_start: self.history_start,
        }
    }
}

/// The place of a resource's first entry; past the end if it has none.
pub open spec fn status_place(statuses: Seq<StatusView>, resource_id: Seq<char>) -> nat
    decreases statuses.len(),
{
    if statuses.len() == 0 || statuses[0].resource_id == resource_id {
        0
    } else {
        1 + status_place(statuses.skip(1), resource_id)
    }
}

/// A resource's first entry.
pub open spec fn status_of(statuses: Seq<StatusView>, resource_id: Seq<char>) -> Option<StatusView> {
    let i = status_place(statuses, resource_id);
    if i < statuses.len() {
        Some(statuses[i as int])
    } else {
        None
    }
}

/// Where the first entry of a resource is, and that there is none before it.
pub proof fn lemma_status_place(statuses: Seq<StatusView>, resource_id: Seq<char>)
    ensures
        status_place(statuses, resource_id) <= statuses.len(),
        forall|k: int|
            0 <= k < status_place(statuses, resource_id) ==> (#[trigger] statuses[k]).resource_id
                != resource_id,
        status_place(statuses, resource_id) < statuses.len() ==> statuses[status_place(
            statuses,
            resource_id,
        ) as int].resource_id == resource_id,
    decreases statuses.len(),
{
    if statuses.len() > 0 && statuses[0].resource_id != resource_id {
        let rest = statuses.skip(1);
        lemma_status_place(rest, resource_id);
        let n = status_place(rest, resource_id) as int;
        assert forall|k: int| 0 <= k < n + 1 implies (#[trigger] statuses[k]).resource_id
            != resource_id by {
            if k > 0 {
                assert(statuses[k] == rest[k - 1]);
            }
        }
        if n < rest.len() {
            assert(statuses[n + 1] == rest[n]);
        }
    }
}

/// A place with the resource, and none before it, is its first.
pub proof fn lemma_status_place_is(statuses: Seq<StatusView>, resource_id: Seq<char>, at: int)
    requires
        0 <= at <= statuses.len(),
        forall|k: int| 0 <= k < at ==> (#[trigger] statuses[k]).resource_id != resource_id,
        at < statuses.len() ==> statuses[at].resource_id == resource_id,
    ensures
        status_place(statuses, resource_id) == at,
    decreases at,
{
    if at > 0 {
        let rest = statuses.skip(1);
        assert(statuses[0].resource_id != resource_id);
        assert forall|k: int| 0 <= k < at - 1 implies (#[trigger] rest[k]).resource_id
            != resource_id by {
            assert(rest[k] == statuses[k + 1]);
        }
        lemma_status_place_is(rest, resource_id, at - 1);
    }
}

/// Finds the first entry of a resource.
pub fn find_status(statuses: &[ResourceStatus], resource_id: &str) -> (r: Option<usize>)
    ensures
        match r {
            Some(i) => i < statuses@.len() && i == status_place(views(statuses@), resource_id@),
            None => status_place(views(statuses@), resource_id@) == statuses@.len(),
        },
{
    let mut i: usize = 0;
    while i < statuses.len()
        invariant
            i <= statuses@.len(),
            forall|k: int|
                0 <= k < i ==> (#[trigger] views(statuses@)[k]).resource_id != resource_id@,
        decreases statuses@.len() - i,
    {
        if same(statuses[i].resource_id.as_str(), resource_id) {
            proof {
                lemma_status_place_is(views(statuses@), resource_id@, i as int);
            }
            return Some(i);
        }
        i = i + 1;
    }
    proof {
        lemma_status_place_is(views(statuses@), resource_id@, i as int);
    }
    None
}

} // verus!
