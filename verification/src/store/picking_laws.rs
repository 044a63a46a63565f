//! What the store's listings pick: exactly the rows asked for, each once, in the
//! order in which they are stored.

use crate::store::commands::of_category;
use crate::store::gate::named;
use crate::store::model::{arrivals_of, lines_of, newest_read};
use crate::store::refresh::wanted;
use crate::store::rows::{
    AdapterView, BalanceRowView, ReadView, ResourceView, RetractionView, StoredBalanceView,
    StoredView,
};
use crate::store::sweep::own_records;
use crate::store::tables::{high_water, resources_of, retractions_of, rows_of};
use crate::wire::record::ObservationView;
use crate::wire::status::DegradedView;
use vstd::prelude::*;

verus! {

/// The lines of a category are those lines that are under its name, and no
/// others.
pub proof fn law_a_category_has_its_own_lines(lines: Seq<BalanceRowView>, category: Seq<char>)
    ensures
        of_category(lines, category) == lines.filter(|l: BalanceRowView| l.category == category),
    decreases lines.len(),
{
    reveal(Seq::filter);
    if lines.len() > 0 {
        law_a_category_has_its_own_lines(lines.drop_last(), category);
    }
}

/// The resources of an adapter are those listed under it; without an adapter, all.
pub proof fn law_an_adapter_has_its_own_resources(rows: Seq<ResourceView>, adapter_id: Seq<char>)
    ensures
        resources_of(rows, None) == rows,
        resources_of(rows, Some(adapter_id)) == rows.filter(
            |r: ResourceView| r.adapter_id == adapter_id,
        ),
    decreases rows.len(),
{
    reveal(Seq::filter);
    if rows.len() > 0 {
        law_an_adapter_has_its_own_resources(rows.drop_last(), adapter_id);
        assert(rows =~= rows.drop_last().push(rows.last()));
    } else {
        assert(resources_of(rows, None) =~= rows);
    }
}

/// A record's rows are those filed under its adapter and its id; without an id,
/// all of its adapter's.
pub proof fn law_a_record_has_its_own_rows(
    rows: Seq<StoredView>,
    adapter_id: Seq<char>,
    local_id: Seq<char>,
)
    ensures
        rows_of(rows, adapter_id, None) == rows.filter(|r: StoredView| r.adapter_id == adapter_id),
        rows_of(rows, adapter_id, Some(local_id)) == rows.filter(
            |r: StoredView| r.adapter_id == adapter_id && r.observation.local_id == local_id,
        ),
    decreases rows.len(),
{
    reveal(Seq::filter);
    if rows.len() > 0 {
        law_a_record_has_its_own_rows(rows.drop_last(), adapter_id, local_id);
    }
}

/// A record's retractions are those of its adapter and its id: no other record's
/// retraction is among them.
pub proof fn law_a_record_has_its_own_retractions(
    rows: Seq<RetractionView>,
    adapter_id: Seq<char>,
    local_id: Seq<char>,
)
    ensures
        retractions_of(rows, adapter_id, local_id) == rows.filter(
            |r: RetractionView| r.adapter_id == adapter_id && r.local_id == local_id,
        ),
    decreases rows.len(),
{
    reveal(Seq::filter);
    if rows.len() > 0 {
        law_a_record_has_its_own_retractions(rows.drop_last(), adapter_id, local_id);
    }
}

/// A refresh reads the one adapter that was asked for, or every one.
pub proof fn law_a_refresh_reads_whom_it_was_asked_to(
    rows: Seq<AdapterView>,
    adapter_id: Seq<char>,
)
    ensures
        wanted(rows, None) == rows,
        wanted(rows, Some(adapter_id)) == rows.filter(
            |r: AdapterView| r.adapter_id == adapter_id,
        ),
    decreases rows.len(),
{
    reveal(Seq::filter);
    if rows.len() > 0 {
        law_a_refresh_reads_whom_it_was_asked_to(rows.drop_last(), adapter_id);
        assert(rows =~= rows.drop_last().push(rows.last()));
    } else {
        assert(wanted(rows, None) =~= rows);
    }
}

/// The records of a page that a sweep takes are those that name both the adapter
/// and the resource.
pub proof fn law_a_sweep_takes_its_own_records(
    records: Seq<ObservationView>,
    adapter_id: Seq<char>,
    resource_id: Seq<char>,
)
    ensures
        own_records(records, adapter_id, resource_id) == records.filter(
            |o: ObservationView|
                o.provenance.adapter_id == adapter_id && o.resource_id == resource_id,
        ),
    decreases records.len(),
{
    reveal(Seq::filter);
    if records.len() > 0 {
        law_a_sweep_takes_its_own_records(records.drop_last(), adapter_id, resource_id);
    }
}

/// The arrivals of an adapter are the records filed under it.
pub proof fn law_arrivals_are_the_filed_records(rows: Seq<StoredView>, adapter_id: Seq<char>)
    ensures
        arrivals_of(rows, adapter_id) == rows.filter(
            |r: StoredView| r.adapter_id == adapter_id,
        ).map_values(|r: StoredView| r.observation),
    decreases rows.len(),
{
    reveal(Seq::filter);
    let mine = |r: StoredView| r.adapter_id == adapter_id;
    let said = |r: StoredView| r.observation;
    if rows.len() > 0 {
        let front = rows.drop_last();
        law_arrivals_are_the_filed_records(front, adapter_id);
        if rows.last().adapter_id == adapter_id {
            assert(front.filter(mine).push(rows.last()).map_values(said) =~= front.filter(
                mine,
            ).map_values(said).push(rows.last().observation));
        }
    } else {
        assert(rows.filter(mine).map_values(said) =~= Seq::<ObservationView>::empty());
    }
}

/// The names of the dropped records are those that a status gives, in its order.
pub proof fn law_every_name_of_a_dropped_record_counts(
    degraded: Seq<DegradedView>,
    id: Seq<char>,
)
    ensures
        named(degraded).contains(id) <==> exists|i: int|
            0 <= i < degraded.len() && (#[trigger] degraded[i]).local_id == Some(id),
    decreases degraded.len(),
{
    if degraded.len() > 0 {
        let front = degraded.drop_last();
        law_every_name_of_a_dropped_record_counts(front, id);
        let (was, now) = (named(front), named(degraded));
        if now.contains(id) {
            let k = choose|k: int| 0 <= k < now.len() && now[k] == id;
            if k < was.len() {
                assert(was[k] == id);
                let i = choose|i: int|
                    0 <= i < front.len() && (#[trigger] front[i]).local_id == Some(id);
                assert(degraded[i].local_id == Some(id));
            } else {
                assert(degraded[degraded.len() - 1].local_id == Some(id));
            }
        }
        if exists|i: int| 0 <= i < degraded.len() && (#[trigger] degraded[i]).local_id == Some(id) {
            let i = choose|i: int|
                0 <= i < degraded.len() && (#[trigger] degraded[i]).local_id == Some(id);
            if i < front.len() {
                assert(front[i].local_id == Some(id));
                let k = choose|k: int| 0 <= k < was.len() && was[k] == id;
                assert(now[k] == id);
            } else {
                assert(now[was.len() as int] == id);
            }
        }
    }
}

/// Which read of an adapter is the newest: the last one that is its own.
pub proof fn law_the_newest_read_is_the_last(reads: Seq<ReadView>, adapter_id: Seq<char>, i: int)
    requires
        0 <= i < reads.len(),
        reads[i].adapter_id == adapter_id,
        forall|k: int| i < k < reads.len() ==> (#[trigger] reads[k]).adapter_id != adapter_id,
    ensures
        newest_read(reads, adapter_id) == Some(reads[i].read_id),
    decreases reads.len(),
{
    if i < reads.len() - 1 {
        assert(reads[reads.len() - 1].adapter_id != adapter_id);
        law_the_newest_read_is_the_last(reads.drop_last(), adapter_id, i);
    }
}

/// An adapter that was never read has no newest read.
pub proof fn law_an_adapter_never_read_has_no_newest_read(
    reads: Seq<ReadView>,
    adapter_id: Seq<char>,
)
    requires
        forall|k: int| 0 <= k < reads.len() ==> (#[trigger] reads[k]).adapter_id != adapter_id,
    ensures
        newest_read(reads, adapter_id) is None,
    decreases reads.len(),
{
    if reads.len() > 0 {
        assert(reads[reads.len() - 1].adapter_id != adapter_id);
        assert forall|k: int| 0 <= k < reads.drop_last().len() implies (
        #[trigger] reads.drop_last()[k]).adapter_id != adapter_id by {
            assert(reads.drop_last()[k] == reads[k]);
        }
        law_an_adapter_never_read_has_no_newest_read(reads.drop_last(), adapter_id);
    }
}

/// A resource's balance lines are those stored of it, each as it was reported and
/// stored, and each with whether the adapter's newest read wrote it.
pub proof fn law_a_resource_has_its_own_lines(
    rows: Seq<StoredBalanceView>,
    adapter_id: Seq<char>,
    resource_id: Seq<char>,
    latest: Option<int>,
)
    ensures
        lines_of(rows, adapter_id, resource_id, latest) == rows.filter(
            |r: StoredBalanceView|
                r.adapter_id == adapter_id && r.balance.resource_id == resource_id,
        ).map_values(
            |r: StoredBalanceView|
                BalanceRowView {
                    balance_id: r.balance_id,
                    adapter_id: r.adapter_id,
                    resource_id: r.balance.resource_id,
                    category: r.balance.category,
                    canonical_hint: r.balance.canonical_hint,
                    amount: r.balance.amount,
                    provider_id: r.balance.provenance.provider_id,
                    received_at: r.balance.provenance.received_at,
                    staleness: r.balance.provenance.staleness,
                    outcome: r.outcome,
                    from_latest_read: latest == Some(r.read_id),
                },
        ),
    decreases rows.len(),
{
    reveal(Seq::filter);
    let mine = |r: StoredBalanceView|
        r.adapter_id == adapter_id && r.balance.resource_id == resource_id;
    let said = |r: StoredBalanceView|
        BalanceRowView {
            balance_id: r.balance_id,
            adapter_id: r.adapter_id,
            resource_id: r.balance.resource_id,
            category: r.balance.category,
            canonical_hint: r.balance.canonical_hint,
            amount: r.balance.amount,
            provider_id: r.balance.provenance.provider_id,
            received_at: r.balance.provenance.received_at,
            staleness: r.balance.provenance.staleness,
            outcome: r.outcome,
            from_latest_read: latest == Some(r.read_id),
        };
    if rows.len() > 0 {
        let front = rows.drop_last();
        law_a_resource_has_its_own_lines(front, adapter_id, resource_id, latest);
        if mine(rows.last()) {
            assert(front.filter(mine).push(rows.last()).map_values(said) =~= front.filter(
                mine,
            ).map_values(said).push(said(rows.last())));
        }
    } else {
        assert(rows.filter(mine).map_values(said) =~= Seq::<BalanceRowView>::empty());
    }
}

/// A record's mark is the highest revision among its own retractions; without one
/// it has none.
pub proof fn law_the_mark_is_the_highest_of_its_own(
    rows: Seq<RetractionView>,
    adapter_id: Seq<char>,
    local_id: Seq<char>,
)
    ensures
        match high_water(rows, adapter_id, local_id) {
            Some(mark) => {
                &&& exists|i: int|
                    0 <= i < rows.len() && (#[trigger] rows[i]).adapter_id == adapter_id
                        && rows[i].local_id == local_id && rows[i].revision == mark
                &&& forall|i: int|
                    0 <= i < rows.len() && (#[trigger] rows[i]).adapter_id == adapter_id
                        && rows[i].local_id == local_id ==> rows[i].revision <= mark
            },
            None => forall|i: int|
                0 <= i < rows.len() ==> (#[trigger] rows[i]).adapter_id != adapter_id
                    || rows[i].local_id != local_id,
        },
    decreases rows.len(),
{
    if rows.len() > 0 {
        let front = rows.drop_last();
        law_the_mark_is_the_highest_of_its_own(front, adapter_id, local_id);
        if let Some(mark) = high_water(front, adapter_id, local_id) {
            let i = choose|i: int|
                0 <= i < front.len() && (#[trigger] front[i]).adapter_id == adapter_id
                    && front[i].local_id == local_id && front[i].revision == mark;
            assert(rows[i].revision == mark);
        }
        assert forall|i: int| 0 <= i < front.len() implies #[trigger] rows[i] == front[i] by {}
        assert(rows[rows.len() - 1] == rows.last());
    }
}

} // verus!
