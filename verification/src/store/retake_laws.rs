//! What a page that was lost before its commit costs: nothing but the time to take
//! it again.

use crate::store::ingest::{ingested, ingested_all};
use crate::store::live::{live_among, live_entry, live_listing, sorted_keys, LiveView};
use crate::store::model::{arrivals_of, observation_ids, StoreView};
use crate::store::order::Key;
use crate::store::report::{InputView, NoteView, ReportView};
use crate::store::retract::{conclusion, noted, reason_for, row_of, tally, Tally};
use crate::store::rows::{RetractionView, StoredView};
use crate::store::sweep::{
    advanced, begun, committed, concludes, gate_at_commit, next_page, opened, own_records,
    took_page, StepView,
};
use crate::store::tables::lemma_same_arrivals;
use crate::wire::failure::ProtocolViolationKind;
use crate::wire::record::ObservationView;
use crate::wire::status::{status_of, StatusView};
use vstd::prelude::*;

verus! {

/// Whether two rows store the same, whichever crawl did.
pub open spec fn same_row(a: StoredView, b: StoredView) -> bool {
    b == (StoredView { crawl_id: b.crawl_id, last_seen_crawl: b.last_seen_crawl, ..a })
}

/// Whether two tables store the same records, whichever crawls did.
pub open spec fn same_rows(a: Seq<StoredView>, b: Seq<StoredView>) -> bool {
    a.len() == b.len() && forall|i: int|
        0 <= i < a.len() ==> #[trigger] same_row(a[i], b[i])
}

/// Whether two retractions say the same, whichever crawl said it and when.
pub open spec fn same_retraction(a: RetractionView, b: RetractionView) -> bool {
    b == (RetractionView { crawl_id: b.crawl_id, retracted_at: b.retracted_at, ..a })
}

/// Whether two lists of retractions say the same.
pub open spec fn same_retractions(a: Seq<RetractionView>, b: Seq<RetractionView>) -> bool {
    a.len() == b.len() && forall|i: int|
        0 <= i < a.len() ==> #[trigger] same_retraction(a[i], b[i])
}

/// Whether two stores say the same of every record and every resource.
spec fn alike(s: StoreView, t: StoreView) -> bool {
    &&& same_rows(s.observations, t.observations)
    &&& s.retractions == t.retractions
    &&& s.resources == t.resources
}

proof fn lemma_alike_arrivals(s: StoreView, t: StoreView, adapter_id: Seq<char>)
    requires
        alike(s, t),
    ensures
        arrivals_of(s.observations, adapter_id) == arrivals_of(t.observations, adapter_id),
        observation_ids(s.observations) == observation_ids(t.observations),
{
    assert forall|i: int| 0 <= i < s.observations.len() implies (
    #[trigger] s.observations[i]).observation == t.observations[i].observation
        && s.observations[i].adapter_id == t.observations[i].adapter_id by {
        assert(same_row(s.observations[i], t.observations[i]));
    }
    lemma_same_arrivals(s.observations, t.observations, adapter_id);
    assert forall|i: int| 0 <= i < s.observations.len() implies (
    #[trigger] s.observations[i]).observation_id == t.observations[i].observation_id by {
        assert(same_row(s.observations[i], t.observations[i]));
    }
    assert(observation_ids(s.observations) =~= observation_ids(t.observations));
}

proof fn lemma_alike_ingested(
    s: StoreView,
    t: StoreView,
    input: InputView,
    c: int,
    d: int,
    o: ObservationView,
)
    requires
        alike(s, t),
    ensures
        alike(ingested(s, input, c, o).0, ingested(t, input, d, o).0),
        ingested(s, input, c, o).1 == ingested(t, input, d, o).1,
{
    lemma_alike_arrivals(s, t, input.adapter_id);
    let (a, b) = (ingested(s, input, c, o).0, ingested(t, input, d, o).0);
    assert(s.buried(input.adapter_id, o.local_id, s.chain(input.adapter_id, o.local_id).len())
        == t.buried(input.adapter_id, o.local_id, t.chain(input.adapter_id, o.local_id).len()));
    assert forall|i: int| 0 <= i < a.observations.len() implies #[trigger] same_row(
        a.observations[i],
        b.observations[i],
    ) by {
        if i < s.observations.len() {
            assert(same_row(s.observations[i], t.observations[i]));
        }
    }
}

proof fn lemma_alike_ingested_all(
    s: StoreView,
    t: StoreView,
    input: InputView,
    c: int,
    d: int,
    records: Seq<ObservationView>,
)
    requires
        alike(s, t),
    ensures
        alike(ingested_all(s, input, c, records).0, ingested_all(t, input, d, records).0),
        ingested_all(s, input, c, records).1 == ingested_all(t, input, d, records).1,
    decreases records.len(),
{
    if records.len() > 0 {
        let front = records.drop_last();
        lemma_alike_ingested_all(s, t, input, c, d, front);
        lemma_alike_ingested(
            ingested_all(s, input, c, front).0,
            ingested_all(t, input, d, front).0,
            input,
            c,
            d,
            records.last(),
        );
    }
}

proof fn lemma_alike_live(
    s: StoreView,
    t: StoreView,
    adapter_id: Seq<char>,
    resource_id: Seq<char>,
    keys: Seq<Key>,
)
    requires
        alike(s, t),
    ensures
        live_among(s, adapter_id, resource_id, keys) == live_among(t, adapter_id, resource_id, keys),
    decreases keys.len(),
{
    lemma_alike_arrivals(s, t, adapter_id);
    if keys.len() > 0 {
        lemma_alike_live(s, t, adapter_id, resource_id, keys.drop_last());
        let id = keys.last().second;
        assert(live_entry(s, adapter_id, resource_id, id) == live_entry(
            t,
            adapter_id,
            resource_id,
            id,
        ));
    }
}

proof fn lemma_alike_row(
    a: Seq<StoredView>,
    b: Seq<StoredView>,
    adapter_id: Seq<char>,
    local_id: Seq<char>,
    revision: nat,
)
    requires
        same_rows(a, b),
    ensures
        match (row_of(a, adapter_id, local_id, revision), row_of(b, adapter_id, local_id, revision)) {
            (Some(x), Some(y)) => same_row(x, y),
            (None, None) => true,
            _ => false,
        },
    decreases a.len(),
{
    if a.len() > 0 {
        assert(same_row(a[a.len() - 1], b[b.len() - 1]));
        assert forall|i: int| 0 <= i < a.drop_last().len() implies #[trigger] same_row(
            a.drop_last()[i],
            b.drop_last()[i],
        ) by {
            assert(same_row(a[i], b[i]));
        }
        lemma_alike_row(a.drop_last(), b.drop_last(), adapter_id, local_id, revision);
    }
}

proof fn lemma_alike_reason(s: StoreView, t: StoreView, input: InputView, local_id: Seq<char>)
    requires
        alike(s, t),
    ensures
        reason_for(s, input, local_id) == reason_for(t, input, local_id),
{
    lemma_alike_arrivals(s, t, input.adapter_id);
    let chain = s.chain(input.adapter_id, local_id);
    lemma_alike_row(
        s.observations,
        t.observations,
        input.adapter_id,
        local_id,
        chain.last().revision,
    );
}

proof fn lemma_alike_tally(
    s: StoreView,
    t: StoreView,
    input: InputView,
    c: int,
    d: int,
    now: Seq<char>,
    later: Seq<char>,
    observed: Seq<Seq<char>>,
    exempt: Seq<Seq<char>>,
    live: Seq<LiveView>,
)
    requires
        alike(s, t),
    ensures
        ({
            let x = tally(s, input, c, now, observed, exempt, live);
            let y = tally(t, input, d, later, observed, exempt, live);
            &&& same_retractions(x.retractions, y.retractions)
            &&& y == (Tally { retractions: y.retractions, ..x })
        }),
    decreases live.len(),
{
    if live.len() > 0 {
        let front = live.drop_last();
        lemma_alike_tally(s, t, input, c, d, now, later, observed, exempt, front);
        lemma_alike_reason(s, t, input, live.last().local_id);
        let (p, q) = (
            tally(s, input, c, now, observed, exempt, front).retractions,
            tally(t, input, d, later, observed, exempt, front).retractions,
        );
        let (x, y) = (
            tally(s, input, c, now, observed, exempt, live).retractions,
            tally(t, input, d, later, observed, exempt, live).retractions,
        );
        assert forall|i: int| 0 <= i < x.len() implies #[trigger] same_retraction(x[i], y[i]) by {
            if i < p.len() {
                assert(same_retraction(p[i], q[i]));
            }
        }
    }
}

proof fn lemma_alike_conclusion(
    s: StoreView,
    t: StoreView,
    input: InputView,
    c: int,
    d: int,
    now: Seq<char>,
    later: Seq<char>,
    observed: Seq<Seq<char>>,
    exempt: Seq<Seq<char>>,
)
    requires
        alike(s, t),
    ensures
        ({
            let x = conclusion(s, input, c, now, observed, exempt);
            let y = conclusion(t, input, d, later, observed, exempt);
            &&& same_retractions(x.retractions, y.retractions)
            &&& x.notes == y.notes
        }),
{
    let (own, resource) = (input.adapter_id, input.resource_id);
    lemma_alike_arrivals(s, t, own);
    lemma_alike_live(s, t, own, resource, sorted_keys(arrivals_of(s.observations, own)));
    let live = live_listing(s, own, resource);
    assert(live == live_listing(t, own, resource));
    assert(s.resource_row(own, resource) == t.resource_row(own, resource));
    lemma_alike_tally(s, t, input, c, d, now, later, observed, exempt, live);
}

pub proof fn lemma_noted_rows(
    s: StoreView,
    input: InputView,
    c: int,
    now: Seq<char>,
    notes: Seq<NoteView>,
)
    ensures
        noted(s, input, c, now, notes).observations == s.observations,
        noted(s, input, c, now, notes).retractions == s.retractions,
    decreases notes.len(),
{
    if notes.len() > 0 {
        lemma_noted_rows(s, input, c, now, notes.drop_last());
    }
}

/// A sweep's only page that is lost before its commit leaves the store as it was when
/// the sweep began: its crawl is open, and nothing else has changed. The next sweep
/// of the resource that is served the same page comes to what the lost one would
/// have: the same verdict, the same records under the same revisions, the same
/// retractions and the same report.
pub proof fn law_a_lost_only_page_is_taken_again(
    s: StoreView,
    input: InputView,
    now: Seq<char>,
    later: Seq<char>,
    records: Seq<ObservationView>,
    statuses: Seq<StatusView>,
    violation: Option<ProtocolViolationKind>,
)
    requires
        !input.options.resume,
        status_of(statuses, input.resource_id) matches Some(status) && next_page(status) is None,
    ensures
        ({
            let kept = opened(s, input, now);
            let (lost, first) = took_page(
                kept,
                begun(s, input, now),
                records,
                statuses,
                violation,
            );
            let (done, second) = took_page(
                opened(kept, input, later),
                begun(kept, input, later),
                records,
                statuses,
                violation,
            );
            &&& kept == (StoreView { crawls: kept.crawls, ..s })
            &&& kept.crawls.len() == s.crawls.len() + 1
            &&& !kept.crawls.last().drained && !kept.crawls.last().complete
            &&& same_rows(lost.observations, done.observations)
            &&& same_retractions(lost.retractions, done.retractions)
            &&& first matches StepView::Done(x) && second matches StepView::Done(y) && y == (
            ReportView { crawl_id: y.crawl_id, ..x })
        }),
{
    let kept = opened(s, input, now);
    let again = opened(kept, input, later);
    let (w, v) = (begun(s, input, now), begun(kept, input, later));
    let status = status_of(statuses, input.resource_id)->0;
    let own = own_records(records, input.adapter_id, input.resource_id);
    assert forall|i: int| 0 <= i < kept.observations.len() implies #[trigger] same_row(
        kept.observations[i],
        again.observations[i],
    ) by {}
    assert(alike(kept, again));
    lemma_alike_ingested_all(kept, again, input, w.crawl_id, v.crawl_id, own);
    let (a, counts) = ingested_all(kept, input, w.crawl_id, own);
    let (b, _) = ingested_all(again, input, v.crawl_id, own);
    let (x, y) = (advanced(w, records, status, counts), advanced(v, records, status, counts));
    let gate = gate_at_commit(x.gate, violation);
    assert(gate == gate_at_commit(y.gate, violation));
    lemma_alike_conclusion(
        a,
        b,
        input,
        w.crawl_id,
        v.crawl_id,
        now,
        later,
        x.observed,
        x.exempt,
    );
    let (p, q) = (concludes(a, x, gate), concludes(b, y, gate));
    assert(same_retractions(p.retractions, q.retractions));
    lemma_noted_rows(
        StoreView { retractions: a.retractions + p.retractions, ..a },
        input,
        w.crawl_id,
        now,
        p.notes,
    );
    lemma_noted_rows(
        StoreView { retractions: b.retractions + q.retractions, ..b },
        input,
        v.crawl_id,
        later,
        q.notes,
    );
    let (lost, _) = committed(a, x, violation);
    let (done, _) = committed(b, y, violation);
    assert(lost.observations == a.observations && done.observations == b.observations);
    assert(lost.retractions == a.retractions + p.retractions);
    assert(done.retractions == b.retractions + q.retractions);
    assert forall|i: int| 0 <= i < lost.retractions.len() implies #[trigger] same_retraction(
        lost.retractions[i],
        done.retractions[i],
    ) by {
        if i >= a.retractions.len() {
            let k = i - a.retractions.len();
            assert(same_retraction(p.retractions[k], q.retractions[k]));
        }
    }
}

} // verus!
