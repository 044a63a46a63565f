//! One refresh: each connected adapter is read once, over one connection.
//!
//! The caller spawns the adapter and performs the reads; each step here takes
//! what one of them brought.

use crate::store::error::{StoreError, StoreErrorView};
use crate::store::model::StoreView;
use crate::store::report::{ReportView, SweepReport};
use crate::store::rows::{AdapterRow, AdapterView};
use crate::store::tables::{upsert_resource, Store};
use crate::text::{lemma_views_push, opt_view, same, views};
use crate::wire::failure::ProtocolViolationKind;
use crate::wire::record::{DescriptorView, ResourceDescriptor};
use crate::wire::status::{
    find_status, outcome_name, status_of, ReadOutcome, ResourceStatus, StatusView,
};
use crate::wire::timestamp::Rfc3339;
use vstd::prelude::*;

verus! {

/// What the user asked of a refresh.
#[derive(Debug)]
pub struct RefreshOptions {
    pub resume: bool,
    pub confirm_empty: bool,
    /// Refresh only this adapter. `None` refreshes every connected one.
    pub adapter_id: Option<String>,
}

/// What one adapter contributed to a refresh.
#[derive(Debug)]
pub struct AdapterRefresh {
    pub sweeps: Vec<SweepReport>,
    /// Reads that failed for the adapter as a whole.
    pub errors: Vec<String>,
}

/// How a refresh went.
#[derive(Debug)]
pub struct RefreshReport {
    pub sweeps: Vec<SweepReport>,
    /// What went wrong with an adapter as a whole, by adapter.
    pub adapter_errors: Vec<(String, String)>,
}

/// What a report of errors says.
pub open spec fn error_views(errors: Seq<(String, String)>) -> Seq<(Seq<char>, Seq<char>)> {
    Seq::new(errors.len(), |i: int| (errors[i].0@, errors[i].1@))
}

/// Whether anything failed.
pub open spec fn any_failed(sweeps: Seq<ReportView>, errors: Seq<(Seq<char>, Seq<char>)>) -> bool {
    ||| errors.len() > 0
    ||| exists|i: int| 0 <= i < sweeps.len() && (#[trigger] sweeps[i]).error is Some
}

impl RefreshReport {
    /// A report without an entry.
    pub fn new() -> (r: RefreshReport)
        ensures
            views(r.sweeps@) == Seq::<ReportView>::empty(),
            error_views(r.adapter_errors@) == Seq::<(Seq<char>, Seq<char>)>::empty(),
    {
        let r = RefreshReport { sweeps: Vec::new(), adapter_errors: Vec::new() };
        proof {
            assert(views(r.sweeps@) =~= Seq::<ReportView>::empty());
            assert(error_views(r.adapter_errors@) =~= Seq::<(Seq<char>, Seq<char>)>::empty());
        }
        r
    }

    /// Whether anything failed: an adapter as a whole, or the read of a resource.
    /// A sweep that is merely partial did not fail.
    pub fn failed(&self) -> (r: bool)
        ensures
            r == any_failed(views(self.sweeps@), error_views(self.adapter_errors@)),
    {
        if self.adapter_errors.len() > 0 {
            return true;
        }
        let mut i: usize = 0;
        while i < self.sweeps.len()
            invariant
                i <= self.sweeps@.len(),
                self.adapter_errors@.len() == 0,
                forall|k: int| 0 <= k < i ==> (#[trigger] views(self.sweeps@)[k]).error is None,
            decreases self.sweeps@.len() - i,
        {
            proof {
                assert(views(self.sweeps@)[i as int] == self.sweeps@[i as int]@);
            }
            if self.sweeps[i].error.is_some() {
                return true;
            }
            i = i + 1;
        }
        false
    }

    /// Notes what went wrong with an adapter as a whole.
    pub fn note_error(&mut self, adapter_id: &str, error: String)
        ensures
            final(self).sweeps == old(self).sweeps,
            error_views(final(self).adapter_errors@) == error_views(
                old(self).adapter_errors@,
            ).push((adapter_id@, error@)),
    {
        let ghost was = self.adapter_errors@;
        self.adapter_errors.push((adapter_id.to_owned(), error));
        proof {
            assert(error_views(self.adapter_errors@) =~= error_views(was).push(
                (adapter_id@, error@),
            ));
        }
    }

    /// Takes what an adapter contributed, and how its connection ended. A
    /// violation on the way out can disqualify nothing any more; it is reported.
    pub fn absorb(
        &mut self,
        adapter_id: &str,
        outcome: Result<AdapterRefresh, StoreError>,
        ended: Option<ProtocolViolationKind>,
    )
        ensures
            views(final(self).sweeps@) == views(old(self).sweeps@) + (match outcome {
                Ok(done) => views(done.sweeps@),
                Err(_) => Seq::empty(),
            }),
            error_views(final(self).adapter_errors@) == error_views(old(self).adapter_errors@)
                + adapter_trouble(
                adapter_id@,
                match outcome {
                    Ok(done) => Ok(views(done.errors@)),
                    Err(e) => Err(e@),
                },
                ended,
            ),
    {
        let ghost sweeps = views(self.sweeps@);
        let ghost errors = error_views(self.adapter_errors@);
        match outcome {
            Ok(done) => {
                let ghost before = self.sweeps@;
                let AdapterRefresh { sweeps: mut done_sweeps, errors: done_errors } = done;
                let ghost more = done_sweeps@;
                self.sweeps.append(&mut done_sweeps);
                proof {
                    assert(views(self.sweeps@) =~= sweeps + views(more));
                }
                let ghost all = views(done_errors@);
                let mut i: usize = 0;
                proof {
                    assert(errors =~= errors + attributed(adapter_id@, all.take(0)));
                }
                while i < done_errors.len()
                    invariant
                        i <= done_errors@.len(),
                        all == views(done_errors@),
                        views(self.sweeps@) == sweeps + views(more),
                        error_views(self.adapter_errors@) == errors + attributed(
                            adapter_id@,
                            all.take(i as int),
                        ),
                    decreases done_errors@.len() - i,
                {
                    let ghost was = error_views(self.adapter_errors@);
                    self.note_error(adapter_id, done_errors[i].clone());
                    proof {
                        assert(was.push((adapter_id@, done_errors@[i as int]@)) =~= errors
                            + attributed(adapter_id@, all.take(i + 1)));
                    }
                    i = i + 1;
                }
                proof {
                    assert(all.take(i as int) =~= all);
                }
            },
            Err(e) => {
                self.note_error(adapter_id, e.to_string());
                proof {
                    assert(sweeps + Seq::<ReportView>::empty() =~= sweeps);
                }
            },
        }
        let ghost mid = error_views(self.adapter_errors@);
        if let Some(kind) = ended {
            let mut message = "the connection ended in a wire-contract violation: ".to_owned();
            message.append(kind.name());
            self.note_error(adapter_id, message);
        }
        proof {
            assert(error_views(self.adapter_errors@) =~= errors + adapter_trouble(
                adapter_id@,
                match outcome {
                    Ok(done) => Ok(views(done.errors@)),
                    Err(e) => Err(e@),
                },
                ended,
            ));
        }
    }
}

/// Errors with the adapter that they are of.
pub open spec fn attributed(adapter_id: Seq<char>, errors: Seq<Seq<char>>) -> Seq<
    (Seq<char>, Seq<char>),
> {
    Seq::new(errors.len(), |i: int| (adapter_id, errors[i]))
}

/// Everything that went wrong with an adapter as a whole.
pub open spec fn adapter_trouble(
    adapter_id: Seq<char>,
    outcome: Result<Seq<Seq<char>>, StoreErrorView>,
    ended: Option<ProtocolViolationKind>,
) -> Seq<(Seq<char>, Seq<char>)> {
    let own = match outcome {
        Ok(errors) => attributed(adapter_id, errors),
        Err(e) => seq![(adapter_id, e.message())],
    };
    match ended {
        Some(kind) => own.push(
            (
                adapter_id,
                "the connection ended in a wire-contract violation: "@ + kind.spec_name(),
            ),
        ),
        None => own,
    }
}

/// The adapters that a refresh is to read.
pub open spec fn wanted(rows: Seq<AdapterView>, only: Option<Seq<char>>) -> Seq<AdapterView>
    decreases rows.len(),
{
    if rows.len() == 0 {
        Seq::empty()
    } else {
        let before = wanted(rows.drop_last(), only);
        if only is None || only == Some(rows.last().adapter_id) {
            before.push(rows.last())
        } else {
            before
        }
    }
}

/// The adapters that a refresh is to read, in order. Without a connected adapter
/// there is nothing to refresh.
pub fn select_adapters(store: &Store, options: &RefreshOptions) -> (r: Result<
    Vec<AdapterRow>,
    StoreError,
>)
    ensures
        match r {
            Ok(rows) => store@.adapters.len() > 0 && views(rows@) == wanted(
                store@.adapters,
                opt_view(options.adapter_id),
            ),
            Err(e) => store@.adapters.len() == 0 && e@ == StoreErrorView::Usage(
                "no adapters connected -- run `sumer connect <argv...>` first"@,
            ),
        },
{
    let tables = store.tables();
    let rows = &tables.adapters;
    if rows.len() == 0 {
        return Err(
            StoreError::Usage(
                "no adapters connected -- run `sumer connect <argv...>` first".to_owned(),
            ),
        );
    }
    let ghost only = opt_view(options.adapter_id);
    let ghost all = views(rows@);
    let mut r: Vec<AdapterRow> = Vec::new();
    let mut i: usize = 0;
    proof {
        assert(views(r@) =~= wanted(all.take(0), only));
    }
    while i < rows.len()
        invariant
            i <= rows@.len(),
            all == views(rows@),
            only == opt_view(options.adapter_id),
            views(r@) == wanted(all.take(i as int), only),
        decreases rows@.len() - i,
    {
        proof {
            assert(all.take(i + 1).drop_last() =~= all.take(i as int));
            assert(all.take(i + 1).last() == rows@[i as int]@);
        }
        let taken = match &options.adapter_id {
            Some(id) => same(id.as_str(), rows[i].adapter_id.as_str()),
            None => true,
        };
        if taken {
            let row = rows[i].clone();
            proof {
                lemma_views_push(r@, row);
            }
            r.push(row);
        }
        i = i + 1;
    }
    proof {
        assert(all.take(i as int) =~= all);
    }
    Ok(r)
}

/// How an outcome is stored beside a balance line: its name, and of a stale one
/// when it was current.
pub open spec fn label_of(outcome: ReadOutcome) -> Seq<char> {
    match outcome {
        ReadOutcome::Stale { as_of } => "stale:"@ + as_of@,
        _ => outcome.spec_name(),
    }
}

/// How an outcome is stored beside a balance line.
pub fn outcome_label(outcome: &ReadOutcome) -> (r: String)
    ensures
        r@ == label_of(*outcome),
{
    match outcome {
        ReadOutcome::Stale { as_of } => {
            let mut out = "stale:".to_owned();
            out.append(as_of.as_str());
            out
        },
        _ => outcome_name(outcome).to_owned(),
    }
}

/// Whether the user has to renew a credential.
pub open spec fn needs_renewal(statuses: Seq<StatusView>) -> bool {
    exists|i: int|
        0 <= i < statuses.len() && asks_renewal((#[trigger] statuses[i]).outcome)
}

/// Whether an outcome asks the user to renew a credential.
pub open spec fn asks_renewal(outcome: ReadOutcome) -> bool {
    outcome is ReauthRequired || outcome is ScaRequired || outcome is Revoked
}

pub(crate) fn renewal_needed(statuses: &Vec<ResourceStatus>) -> (r: bool)
    ensures
        r == needs_renewal(views(statuses@)),
{
    let mut i: usize = 0;
    while i < statuses.len()
        invariant
            i <= statuses@.len(),
            forall|k: int|
                0 <= k < i ==> !asks_renewal((#[trigger] views(statuses@)[k]).outcome),
        decreases statuses@.len() - i,
    {
        proof {
            assert(views(statuses@)[i as int] == statuses@[i as int]@);
        }
        let asked = match &statuses[i].outcome {
            ReadOutcome::ReauthRequired => true,
            ReadOutcome::ScaRequired => true,
            ReadOutcome::Revoked => true,
            _ => false,
        };
        if asked {
            return true;
        }
        i = i + 1;
    }
    false
}

/// Where a resource's history begins, if a status says so.
pub open spec fn start_in(statuses: Seq<StatusView>, resource_id: Seq<char>) -> Option<Rfc3339> {
    match status_of(statuses, resource_id) {
        Some(status) => status.history_start,
        None => None,
    }
}

/// Where a resource's history begins, if a status says so.
pub fn history_start(statuses: &Vec<ResourceStatus>, resource_id: &str) -> (r: Option<Rfc3339>)
    ensures
        r == start_in(views(statuses@), resource_id@),
{
    match find_status(statuses.as_slice(), resource_id) {
        Some(i) => match &statuses[i].history_start {
            Some(start) => Some(start.clone()),
            None => None,
        },
        None => None,
    }
}

/// The store after these resources were listed.
pub open spec fn listed_all(
    s: StoreView,
    adapter_id: Seq<char>,
    resources: Seq<DescriptorView>,
) -> StoreView
    decreases resources.len(),
{
    if resources.len() == 0 {
        s
    } else {
        let d = resources.last();
        listed_all(s, adapter_id, resources.drop_last()).with_resource(
            adapter_id,
            d.resource_id,
            d.kind,
            d.label,
        )
    }
}

proof fn lemma_listing_keeps_adapters(
    s: StoreView,
    adapter_id: Seq<char>,
    resources: Seq<DescriptorView>,
)
    ensures
        listed_all(s, adapter_id, resources).adapters == s.adapters,
    decreases resources.len(),
{
    if resources.len() > 0 {
        lemma_listing_keeps_adapters(s, adapter_id, resources.drop_last());
    }
}

/// Notes what an adapter listed.
pub fn note_listing(store: &mut Store, adapter_id: &str, resources: &Vec<ResourceDescriptor>) -> (r:
    Result<(), StoreError>)
    ensures
        match r {
            Ok(_) => {
                &&& old(store)@.has_adapter(adapter_id@) || resources@.len() == 0
                &&& final(store)@ == listed_all(old(store)@, adapter_id@, views(resources@))
            },
            Err(e) => {
                &&& !old(store)@.has_adapter(adapter_id@)
                &&& resources@.len() > 0
                &&& final(store)@ == old(store)@
                &&& e@ == StoreErrorView::Sqlite("FOREIGN KEY constraint failed"@)
            },
        },
{
    let ghost s = store@;
    let ghost all = views(resources@);
    let mut i: usize = 0;
    while i < resources.len()
        invariant
            i <= resources@.len(),
            all == views(resources@),
            store@ == listed_all(s, adapter_id@, all.take(i as int)),
            s == old(store)@,
            i > 0 ==> s.has_adapter(adapter_id@),
        decreases resources@.len() - i,
    {
        proof {
            assert(all.take(i + 1).drop_last() =~= all.take(i as int));
            assert(all.take(i + 1).last() == resources@[i as int]@);
            lemma_listing_keeps_adapters(s, adapter_id@, all.take(i as int));
        }
        let d = &resources[i];
        if let Err(e) = upsert_resource(
            store,
            adapter_id,
            d.resource_id.as_str(),
            d.kind.as_str(),
            d.label.as_str(),
        ) {
            proof {
                assert(!s.has_adapter(adapter_id@));
                assert(i == 0);
                assert(all.take(0) =~= Seq::<DescriptorView>::empty());
            }
            return Err(e);
        }
        i = i + 1;
    }
    proof {
        assert(all.take(i as int) =~= all);
    }
    Ok(())
}

} // verus!
