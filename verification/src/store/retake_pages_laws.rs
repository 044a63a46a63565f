//! What it costs a sweep of several pages to lose the last of them: the pages that
//! were committed stay, and the next sweep concludes what the lost one would have.

use crate::host::fold::{law_keys_do_not_meet, lemma_chain_grows, ChainKey};
use crate::store::ingest::{ingested, ingested_all, lemma_ingested, unchanged};
use crate::store::live::{
    law_the_listing_is_the_live_set, live_entry, live_keys, live_listing, LiveView,
};
use crate::store::model::{arrivals_of, StoreView};
use crate::store::order::{key_before, lemma_one_listing, ordered, Key};
use crate::store::report::{InputView, ReportView};
use crate::store::retake_laws::{lemma_noted_rows, same_retraction, same_retractions};
use crate::store::retract::{conclusion, reason_for, row_of, tally, Tally};
use crate::store::rows::{RetractionView, StoredView};
use crate::store::sweep::{
    advanced, begun, committed, concludes, gate_at_commit, has_foreign, ids_of, opened,
    own_records, took_page, took_pages, PageView, StepView, SweepView,
};
use crate::store::sweep_laws::lemma_own_records;
use crate::wire::failure::ProtocolViolationKind;
use crate::wire::record::ObservationView;
use crate::wire::status::{status_of, StatusView};
use vstd::prelude::*;

verus! {

/// Whether two lists name the same records, whatever they say of them and whatever
/// the host stamped them with.
pub open spec fn same_records(a: Seq<ObservationView>, b: Seq<ObservationView>) -> bool {
    a.len() == b.len() && forall|i: int|
        0 <= i < a.len() ==> {
            let (o, p) = (#[trigger] a[i], b[i]);
            &&& o.provenance.adapter_id == p.provenance.adapter_id
            &&& o.resource_id == p.resource_id
            &&& o.local_id == p.local_id
        }
}

/// Whether a page is served again.
pub open spec fn same_page(a: PageView, b: PageView) -> bool {
    &&& same_records(a.records, b.records)
    &&& a.statuses == b.statuses
    &&& a.violation == b.violation
}

/// Whether pages are served again.
pub open spec fn same_pages(a: Seq<PageView>, b: Seq<PageView>) -> bool {
    a.len() == b.len() && forall|i: int| 0 <= i < a.len() ==> #[trigger] same_page(a[i], b[i])
}

/// Whether two reports come to the same, whichever crawl they are of: the same
/// verdict, as many retractions, the same notes and as many records. What had to
/// be stored of those records, and what was stored already, may differ.
pub open spec fn same_report(a: ReportView, b: ReportView) -> bool {
    &&& b == (ReportView {
        crawl_id: b.crawl_id,
        new: b.new,
        revised: b.revised,
        unchanged: b.unchanged,
        ..a
    })
    &&& a.new + a.revised + a.unchanged == b.new + b.revised + b.unchanged
}

/// Whether two sweeps are at the same point, whichever crawls they are.
spec fn in_parallel(w: SweepView, v: SweepView) -> bool {
    &&& v == (SweepView { crawl_id: v.crawl_id, now: v.now, report: v.report, ..w })
    &&& same_report(w.report, v.report)
}

/// Whether two stores say the same of a record.
spec fn same_record(s: StoreView, t: StoreView, own: Seq<char>, id: Seq<char>) -> bool {
    &&& s.chain(own, id) == t.chain(own, id)
    &&& forall|revision: nat|
        #[trigger] row_of(s.observations, own, id, revision) == row_of(
            t.observations,
            own,
            id,
            revision,
        )
}

/// Whether two stores say the same of all records but these.
spec fn agree(s: StoreView, t: StoreView, own: Seq<char>, seen: Seq<Seq<char>>) -> bool {
    &&& s.retractions == t.retractions
    &&& s.resources == t.resources
    &&& forall|id: Seq<char>| !seen.contains(id) ==> #[trigger] same_record(s, t, own, id)
}

proof fn lemma_agree_on_more(
    s: StoreView,
    t: StoreView,
    own: Seq<char>,
    seen: Seq<Seq<char>>,
    more: Seq<Seq<char>>,
)
    requires
        agree(s, t, own, seen),
    ensures
        agree(s, t, own, seen + more),
{
    assert forall|id: Seq<char>| !(seen + more).contains(id) implies #[trigger] same_record(
        s,
        t,
        own,
        id,
    ) by {
        if seen.contains(id) {
            let i = choose|i: int| 0 <= i < seen.len() && seen[i] == id;
            assert((seen + more)[i] == id);
        }
    }
}

proof fn lemma_agree_in_turn(
    s: StoreView,
    t: StoreView,
    u: StoreView,
    own: Seq<char>,
    seen: Seq<Seq<char>>,
)
    requires
        agree(s, t, own, seen),
        agree(t, u, own, seen),
    ensures
        agree(s, u, own, seen),
{
    assert forall|id: Seq<char>| !seen.contains(id) implies #[trigger] same_record(
        s,
        u,
        own,
        id,
    ) by {
        assert(same_record(s, t, own, id));
        assert(same_record(t, u, own, id));
        assert forall|revision: nat|
            #[trigger] row_of(s.observations, own, id, revision) == row_of(
                u.observations,
                own,
                id,
                revision,
            ) by {
            assert(row_of(t.observations, own, id, revision) == row_of(
                u.observations,
                own,
                id,
                revision,
            ));
        }
    }
}

proof fn lemma_agree_back(s: StoreView, t: StoreView, own: Seq<char>, seen: Seq<Seq<char>>)
    requires
        agree(s, t, own, seen),
    ensures
        agree(t, s, own, seen),
{
    assert forall|id: Seq<char>| !seen.contains(id) implies #[trigger] same_record(
        t,
        s,
        own,
        id,
    ) by {
        assert(same_record(s, t, own, id));
        assert forall|revision: nat|
            #[trigger] row_of(t.observations, own, id, revision) == row_of(
                s.observations,
                own,
                id,
                revision,
            ) by {
            assert(row_of(s.observations, own, id, revision) == row_of(
                t.observations,
                own,
                id,
                revision,
            ));
        }
    }
}

/// Rows that differ in those of one record alone hold the same of every other.
proof fn lemma_other_rows_stay(
    a: Seq<StoredView>,
    b: Seq<StoredView>,
    changed: Seq<char>,
    own: Seq<char>,
    id: Seq<char>,
    revision: nat,
)
    requires
        id != changed,
        a.len() == b.len(),
        forall|i: int|
            0 <= i < a.len() ==> (#[trigger] a[i]) == b[i] || a[i].observation.local_id == changed
                && b[i].observation.local_id == changed,
    ensures
        row_of(a, own, id, revision) == row_of(b, own, id, revision),
    decreases a.len(),
{
    if a.len() > 0 {
        let k = a.len() - 1;
        assert(a[k] == b[k] || a[k].observation.local_id == changed && b[k].observation.local_id
            == changed);
        assert forall|i: int| 0 <= i < a.drop_last().len() implies (#[trigger] a.drop_last()[i])
            == b.drop_last()[i] || a.drop_last()[i].observation.local_id == changed
            && b.drop_last()[i].observation.local_id == changed by {
            assert(a.drop_last()[i] == a[i] && b.drop_last()[i] == b[i]);
        }
        lemma_other_rows_stay(a.drop_last(), b.drop_last(), changed, own, id, revision);
    }
}

/// Taking a record changes what is stored of that record alone.
proof fn lemma_ingested_agrees(
    s: StoreView,
    input: InputView,
    c: int,
    o: ObservationView,
    seen: Seq<Seq<char>>,
)
    requires
        seen.contains(o.local_id),
    ensures
        agree(s, ingested(s, input, c, o).0, input.adapter_id, seen),
{
    let own = input.adapter_id;
    let after = ingested(s, input, c, o).0;
    lemma_ingested(s, input, c, o);
    assert forall|id: Seq<char>| !seen.contains(id) implies #[trigger] same_record(
        s,
        after,
        own,
        id,
    ) by {
        let key = ChainKey { adapter_id: own, local_id: id };
        if unchanged(s, own, o) {
            assert forall|revision: nat|
                #[trigger] row_of(s.observations, own, id, revision) == row_of(
                    after.observations,
                    own,
                    id,
                    revision,
                ) by {
                lemma_other_rows_stay(
                    s.observations,
                    after.observations,
                    o.local_id,
                    own,
                    id,
                    revision,
                );
            }
        } else {
            law_keys_do_not_meet(arrivals_of(s.observations, own), o, key);
            assert(after.observations.drop_last() =~= s.observations);
            assert(after.observations.last().observation == o);
        }
    }
}

proof fn lemma_ingested_all_agrees(
    s: StoreView,
    input: InputView,
    c: int,
    records: Seq<ObservationView>,
    seen: Seq<Seq<char>>,
)
    requires
        forall|i: int| 0 <= i < records.len() ==> seen.contains((#[trigger] records[i]).local_id),
    ensures
        agree(s, ingested_all(s, input, c, records).0, input.adapter_id, seen),
    decreases records.len(),
{
    if records.len() > 0 {
        let front = records.drop_last();
        assert forall|i: int| 0 <= i < front.len() implies seen.contains(
            (#[trigger] front[i]).local_id,
        ) by {
            assert(front[i] == records[i]);
        }
        lemma_ingested_all_agrees(s, input, c, front, seen);
        let before = ingested_all(s, input, c, front).0;
        let o = records[records.len() - 1];
        assert(seen.contains(o.local_id));
        lemma_ingested_agrees(before, input, c, o, seen);
        lemma_agree_in_turn(
            s,
            before,
            ingested_all(s, input, c, records).0,
            input.adapter_id,
            seen,
        );
    }
}

/// Every record is counted once.
proof fn lemma_counted(s: StoreView, input: InputView, c: int, records: Seq<ObservationView>)
    ensures
        ({
            let counts = ingested_all(s, input, c, records).1;
            counts.new + counts.revised + counts.unchanged == records.len()
        }),
    decreases records.len(),
{
    if records.len() > 0 {
        lemma_counted(s, input, c, records.drop_last());
    }
}

/// Pages that name the same records bring the same ids to a sweep.
proof fn lemma_same_ids(
    a: Seq<ObservationView>,
    b: Seq<ObservationView>,
    adapter_id: Seq<char>,
    resource_id: Seq<char>,
)
    requires
        same_records(a, b),
    ensures
        ids_of(own_records(a, adapter_id, resource_id)) == ids_of(
            own_records(b, adapter_id, resource_id),
        ),
        own_records(a, adapter_id, resource_id).len() == own_records(
            b,
            adapter_id,
            resource_id,
        ).len(),
    decreases a.len(),
{
    if a.len() > 0 {
        let (x, y) = (a.drop_last(), b.drop_last());
        assert forall|i: int| 0 <= i < x.len() implies {
            let (o, p) = (#[trigger] x[i], y[i]);
            &&& o.provenance.adapter_id == p.provenance.adapter_id
            &&& o.resource_id == p.resource_id
            &&& o.local_id == p.local_id
        } by {
            assert(x[i] == a[i] && y[i] == b[i]);
        }
        lemma_same_ids(x, y, adapter_id, resource_id);
        let k = a.len() - 1;
        assert(a[k].local_id == b[k].local_id);
        let (p, q) = (
            own_records(x, adapter_id, resource_id),
            own_records(y, adapter_id, resource_id),
        );
        if a[k].provenance.adapter_id == adapter_id && a[k].resource_id == resource_id {
            assert(ids_of(p.push(a[k])) =~= ids_of(p).push(a[k].local_id));
            assert(ids_of(q.push(b[k])) =~= ids_of(q).push(b[k].local_id));
        }
    }
}

proof fn lemma_same_foreign(
    a: Seq<ObservationView>,
    b: Seq<ObservationView>,
    adapter_id: Seq<char>,
)
    requires
        same_records(a, b),
    ensures
        has_foreign(a, adapter_id) == has_foreign(b, adapter_id),
{
    if has_foreign(a, adapter_id) {
        let i = choose|i: int|
            0 <= i < a.len() && (#[trigger] a[i]).provenance.adapter_id != adapter_id;
        assert(b[i].provenance.adapter_id != adapter_id);
    }
    if has_foreign(b, adapter_id) {
        let i = choose|i: int|
            0 <= i < b.len() && (#[trigger] b[i]).provenance.adapter_id != adapter_id;
        assert(a[i].provenance.adapter_id == b[i].provenance.adapter_id);
    }
}

/// What a page brings to two sweeps that are at the same point, before it is asked
/// whether that was the last.
proof fn lemma_advanced(s: StoreView, t: StoreView, w: SweepView, v: SweepView, a: PageView, b: PageView, status: StatusView)
    requires
        in_parallel(w, v),
        same_page(a, b),
    ensures
        ({
            let own = own_records(a.records, w.input.adapter_id, w.input.resource_id);
            let again = own_records(b.records, w.input.adapter_id, w.input.resource_id);
            let (x, n) = ingested_all(s, w.input, w.crawl_id, own);
            let (y, m) = ingested_all(t, v.input, v.crawl_id, again);
            let (p, q) = (advanced(w, a.records, status, n), advanced(v, b.records, status, m));
            &&& in_parallel(p, q)
            &&& p.input == w.input
            &&& p.observed == w.observed + ids_of(own)
            &&& agree(s, x, w.input.adapter_id, p.observed)
            &&& agree(t, y, w.input.adapter_id, p.observed)
        }),
{
    let (adapter_id, resource_id) = (w.input.adapter_id, w.input.resource_id);
    let own = own_records(a.records, adapter_id, resource_id);
    let again = own_records(b.records, adapter_id, resource_id);
    lemma_same_ids(a.records, b.records, adapter_id, resource_id);
    lemma_same_foreign(a.records, b.records, adapter_id);
    lemma_counted(s, w.input, w.crawl_id, own);
    lemma_counted(t, v.input, v.crawl_id, again);
    let observed = w.observed + ids_of(own);
    assert forall|i: int| 0 <= i < own.len() implies observed.contains(
        (#[trigger] own[i]).local_id,
    ) by {
        assert(observed[w.observed.len() + i] == ids_of(own)[i]);
    }
    assert forall|i: int| 0 <= i < again.len() implies observed.contains(
        (#[trigger] again[i]).local_id,
    ) by {
        assert(ids_of(own)[i] == ids_of(again)[i]);
        assert(observed[w.observed.len() + i] == ids_of(again)[i]);
    }
    lemma_ingested_all_agrees(s, w.input, w.crawl_id, own, observed);
    lemma_ingested_all_agrees(t, v.input, v.crawl_id, again, observed);
}

/// A change of crawls alone changes nothing that is stored of a record.
proof fn lemma_crawls_aside(s: StoreView, t: StoreView, own: Seq<char>, seen: Seq<Seq<char>>)
    requires
        t == (StoreView { crawls: t.crawls, ..s }),
    ensures
        agree(s, t, own, seen),
{
    assert forall|id: Seq<char>| !seen.contains(id) implies #[trigger] same_record(
        s,
        t,
        own,
        id,
    ) by {}
}

/// What two sweeps at the same point come to after a page that neither of them ends
/// with.
proof fn lemma_next_in_parallel(
    s: StoreView,
    t: StoreView,
    w: SweepView,
    v: SweepView,
    a: PageView,
    b: PageView,
)
    requires
        in_parallel(w, v),
        same_page(a, b),
        took_page(s, w, a.records, a.statuses, a.violation).1 is Next,
    ensures
        ({
            let (x, first) = took_page(s, w, a.records, a.statuses, a.violation);
            let (y, second) = took_page(t, v, b.records, b.statuses, b.violation);
            &&& second is Next
            &&& in_parallel(first->Next_0, second->Next_0)
            &&& first->Next_0.input == w.input
            &&& exists|more: Seq<Seq<char>>| #[trigger]
                (w.observed + more) == first->Next_0.observed
            &&& agree(s, x, w.input.adapter_id, first->Next_0.observed)
            &&& agree(t, y, w.input.adapter_id, first->Next_0.observed)
        }),
{
    let status = status_of(a.statuses, w.input.resource_id)->0;
    lemma_advanced(s, t, w, v, a, b, status);
    let own = own_records(a.records, w.input.adapter_id, w.input.resource_id);
    let again = own_records(b.records, w.input.adapter_id, w.input.resource_id);
    let (after, n) = ingested_all(s, w.input, w.crawl_id, own);
    let (other, m) = ingested_all(t, v.input, v.crawl_id, again);
    let p = advanced(w, a.records, status, n);
    let (x, first) = took_page(s, w, a.records, a.statuses, a.violation);
    let (y, second) = took_page(t, v, b.records, b.statuses, b.violation);
    let id = w.input.adapter_id;
    assert(first->Next_0.observed == w.observed + ids_of(own));
    lemma_crawls_aside(after, x, id, p.observed);
    lemma_crawls_aside(other, y, id, p.observed);
    lemma_agree_in_turn(s, after, x, id, p.observed);
    lemma_agree_in_turn(t, other, y, id, p.observed);
}

/// What two sweeps at the same point come to after pages that neither of them ends
/// with.
proof fn lemma_run_in_parallel(
    s: StoreView,
    t: StoreView,
    w: SweepView,
    v: SweepView,
    a: Seq<PageView>,
    b: Seq<PageView>,
)
    requires
        in_parallel(w, v),
        same_pages(a, b),
        took_pages(s, w, a).1 is Next,
    ensures
        ({
            let (x, first) = took_pages(s, w, a);
            let (y, second) = took_pages(t, v, b);
            &&& second is Next
            &&& in_parallel(first->Next_0, second->Next_0)
            &&& first->Next_0.input == w.input
            &&& agree(s, x, w.input.adapter_id, first->Next_0.observed)
            &&& agree(t, y, w.input.adapter_id, first->Next_0.observed)
        }),
    decreases a.len(),
{
    let id = w.input.adapter_id;
    if a.len() == 0 {
        lemma_crawls_aside(s, s, id, w.observed);
        lemma_crawls_aside(t, t, id, w.observed);
    } else {
        let (c, d) = (a.drop_last(), b.drop_last());
        assert forall|i: int| 0 <= i < c.len() implies #[trigger] same_page(c[i], d[i]) by {
            assert(same_page(a[i], b[i]));
        }
        lemma_run_in_parallel(s, t, w, v, c, d);
        let (before, first) = took_pages(s, w, c);
        let (other, second) = took_pages(t, v, d);
        let (p, q) = (first->Next_0, second->Next_0);
        let k = a.len() - 1;
        assert(same_page(a[k], b[k]));
        lemma_next_in_parallel(before, other, p, q, a[k], b[k]);
        let (x, y) = (took_pages(s, w, a).0, took_pages(t, v, b).0);
        let last = took_pages(s, w, a).1->Next_0;
        let more = choose|more: Seq<Seq<char>>| #[trigger] (p.observed + more) == last.observed;
        lemma_agree_on_more(s, before, id, p.observed, more);
        lemma_agree_on_more(t, other, id, p.observed, more);
        lemma_agree_in_turn(s, before, x, id, last.observed);
        lemma_agree_in_turn(t, other, y, id, last.observed);
    }
}

/// The live records that a sweep did not carry.
spec fn absent(live: Seq<LiveView>, observed: Seq<Seq<char>>) -> Seq<LiveView>
    decreases live.len(),
{
    if live.len() == 0 {
        Seq::empty()
    } else if observed.contains(live.last().local_id) {
        absent(live.drop_last(), observed)
    } else {
        absent(live.drop_last(), observed).push(live.last())
    }
}

proof fn lemma_absent(own: Seq<char>, live: Seq<LiveView>, observed: Seq<Seq<char>>)
    requires
        ordered(live_keys(own, live)),
    ensures
        ({
            let left = absent(live, observed);
            &&& ordered(live_keys(own, left))
            &&& forall|i: int|
                0 <= i < left.len() ==> live.contains(#[trigger] left[i]) && !observed.contains(
                    left[i].local_id,
                )
            &&& forall|l: LiveView|
                live.contains(l) && !observed.contains(l.local_id) ==> #[trigger] left.contains(l)
            &&& observed.len() == 0 ==> left == live
        }),
    decreases live.len(),
{
    let left = absent(live, observed);
    if live.len() > 0 {
        let front = live.drop_last();
        let last = live.last();
        let keys = live_keys(own, live);
        assert forall|i: int, j: int| 0 <= i < j < live_keys(own, front).len() implies key_before(
            #[trigger] live_keys(own, front)[i],
            #[trigger] live_keys(own, front)[j],
        ) by {
            assert(live_keys(own, front)[i] == keys[i] && live_keys(own, front)[j] == keys[j]);
        }
        lemma_absent(own, front, observed);
        let was = absent(front, observed);
        assert forall|i: int| 0 <= i < left.len() implies live.contains(#[trigger] left[i])
            && !observed.contains(left[i].local_id) by {
            if i < was.len() {
                assert(left[i] == was[i]);
                assert(front.contains(was[i]));
                let k = choose|k: int| 0 <= k < front.len() && front[k] == was[i];
                assert(live[k] == left[i]);
            } else {
                assert(live[live.len() - 1] == left[i]);
            }
        }
        assert forall|l: LiveView|
            live.contains(l) && !observed.contains(l.local_id) implies #[trigger] left.contains(
            l,
        ) by {
            let k = choose|k: int| 0 <= k < live.len() && live[k] == l;
            if k < front.len() {
                assert(front[k] == l);
                assert(was.contains(l));
                let i = choose|i: int| 0 <= i < was.len() && was[i] == l;
                assert(left[i] == l);
            } else {
                assert(left[left.len() - 1] == l);
            }
        }
        let now = live_keys(own, left);
        assert forall|i: int, j: int| 0 <= i < j < now.len() implies key_before(
            #[trigger] now[i],
            #[trigger] now[j],
        ) by {
            if j < was.len() {
                assert(now[i] == live_keys(own, was)[i] && now[j] == live_keys(own, was)[j]);
            } else {
                assert(left[i] == was[i]);
                assert(front.contains(was[i]));
                let k = choose|k: int| 0 <= k < front.len() && front[k] == was[i];
                assert(key_before(keys[k], keys[live.len() - 1]));
            }
        }
        if observed.len() == 0 {
            assert(left =~= live);
        }
    } else {
        assert(left =~= live);
    }
}

/// What is not carried has no part in a tally but that of the absent.
proof fn lemma_tally_of_absent(
    s: StoreView,
    input: InputView,
    c: int,
    now: Seq<char>,
    observed: Seq<Seq<char>>,
    exempt: Seq<Seq<char>>,
    live: Seq<LiveView>,
)
    ensures
        tally(s, input, c, now, observed, exempt, live) == tally(
            s,
            input,
            c,
            now,
            observed,
            exempt,
            absent(live, observed),
        ),
    decreases live.len(),
{
    if live.len() > 0 {
        let front = live.drop_last();
        lemma_tally_of_absent(s, input, c, now, observed, exempt, front);
        assert(absent(front, observed).push(live.last()).drop_last() =~= absent(front, observed));
    }
}

/// Two stores that agree on what a sweep did not carry have the same of it live.
proof fn lemma_same_absent(
    s: StoreView,
    t: StoreView,
    own: Seq<char>,
    resource_id: Seq<char>,
    observed: Seq<Seq<char>>,
)
    requires
        agree(s, t, own, observed),
    ensures
        absent(live_listing(s, own, resource_id), observed) == absent(
            live_listing(t, own, resource_id),
            observed,
        ),
{
    let (x, y) = (live_listing(s, own, resource_id), live_listing(t, own, resource_id));
    let (p, q) = (absent(x, observed), absent(y, observed));
    law_the_listing_is_the_live_set(s, own, resource_id);
    law_the_listing_is_the_live_set(t, own, resource_id);
    lemma_absent(own, x, observed);
    lemma_absent(own, y, observed);
    lemma_absent_entries(s, t, own, resource_id, observed);
    lemma_agree_back(s, t, own, observed);
    lemma_absent_entries(t, s, own, resource_id, observed);
    let (a, b) = (live_keys(own, p), live_keys(own, q));
    assert forall|key: Key| a.contains(key) <==> b.contains(key) by {
        if a.contains(key) {
            let i = choose|i: int| 0 <= i < a.len() && a[i] == key;
            assert(q.contains(p[i]));
            let j = choose|j: int| 0 <= j < q.len() && q[j] == p[i];
            assert(b[j] == key);
        }
        if b.contains(key) {
            let i = choose|i: int| 0 <= i < b.len() && b[i] == key;
            assert(p.contains(q[i]));
            let j = choose|j: int| 0 <= j < p.len() && p[j] == q[i];
            assert(a[j] == key);
        }
    }
    lemma_one_listing(a, b);
    assert(p.len() == a.len() && q.len() == b.len());
    assert forall|i: int| 0 <= i < p.len() implies p[i] == q[i] by {
        assert(a[i] == b[i]);
        assert(x.contains(p[i]) && y.contains(q[i]));
        let j = choose|j: int| 0 <= j < x.len() && x[j] == p[i];
        let k = choose|k: int| 0 <= k < y.len() && y[k] == q[i];
        assert(live_entry(s, own, resource_id, x[j].local_id) == Some(x[j]));
        assert(live_entry(t, own, resource_id, y[k].local_id) == Some(y[k]));
        assert(same_record(s, t, own, p[i].local_id) || same_record(t, s, own, p[i].local_id));
    }
    assert(p =~= q);
}

proof fn lemma_absent_entries(
    s: StoreView,
    t: StoreView,
    own: Seq<char>,
    resource_id: Seq<char>,
    observed: Seq<Seq<char>>,
)
    requires
        agree(s, t, own, observed),
    ensures
        ({
            let p = absent(live_listing(s, own, resource_id), observed);
            let q = absent(live_listing(t, own, resource_id), observed);
            forall|i: int| 0 <= i < p.len() ==> q.contains(#[trigger] p[i])
        }),
{
    let (x, y) = (live_listing(s, own, resource_id), live_listing(t, own, resource_id));
    let (p, q) = (absent(x, observed), absent(y, observed));
    law_the_listing_is_the_live_set(s, own, resource_id);
    law_the_listing_is_the_live_set(t, own, resource_id);
    lemma_absent(own, x, observed);
    lemma_absent(own, y, observed);
    assert forall|i: int| 0 <= i < p.len() implies q.contains(#[trigger] p[i]) by {
        let l = p[i];
        assert(x.contains(l));
        let j = choose|j: int| 0 <= j < x.len() && x[j] == l;
        assert(live_entry(s, own, resource_id, x[j].local_id) == Some(x[j]));
        assert(same_record(s, t, own, l.local_id));
        assert(live_entry(t, own, resource_id, l.local_id) == Some(l));
        let key = Key { first: own, second: l.local_id };
        assert(live_keys(own, y).contains(key));
        let k = choose|k: int| 0 <= k < y.len() && live_keys(own, y)[k] == key;
        assert(y[k].local_id == l.local_id);
        assert(live_entry(t, own, resource_id, y[k].local_id) == Some(y[k]));
        assert(y[k] == l);
        assert(y.contains(l));
    }
}

proof fn lemma_agree_tally(
    s: StoreView,
    t: StoreView,
    input: InputView,
    c: int,
    d: int,
    now: Seq<char>,
    later: Seq<char>,
    observed: Seq<Seq<char>>,
    exempt: Seq<Seq<char>>,
    live: Seq<LiveView>,
)
    requires
        agree(s, t, input.adapter_id, observed),
        forall|i: int| 0 <= i < live.len() ==> !observed.contains((#[trigger] live[i]).local_id),
    ensures
        ({
            let x = tally(s, input, c, now, observed, exempt, live);
            let y = tally(t, input, d, later, observed, exempt, live);
            &&& same_retractions(x.retractions, y.retractions)
            &&& y == (Tally { retractions: y.retractions, ..x })
        }),
    decreases live.len(),
{
    if live.len() > 0 {
        let front = live.drop_last();
        let l = live[live.len() - 1];
        assert forall|i: int| 0 <= i < front.len() implies !observed.contains(
            (#[trigger] front[i]).local_id,
        ) by {
            assert(front[i] == live[i]);
        }
        lemma_agree_tally(s, t, input, c, d, now, later, observed, exempt, front);
        assert(same_record(s, t, input.adapter_id, l.local_id));
        let chain = s.chain(input.adapter_id, l.local_id);
        assert(row_of(s.observations, input.adapter_id, l.local_id, chain.last().revision)
            == row_of(t.observations, input.adapter_id, l.local_id, chain.last().revision));
        assert(reason_for(s, input, l.local_id) == reason_for(t, input, l.local_id));
        let (p, q) = (
            tally(s, input, c, now, observed, exempt, front).retractions,
            tally(t, input, d, later, observed, exempt, front).retractions,
        );
        let (x, y) = (
            tally(s, input, c, now, observed, exempt, live).retractions,
            tally(t, input, d, later, observed, exempt, live).retractions,
        );
        assert forall|i: int| 0 <= i < x.len() implies #[trigger] same_retraction(x[i], y[i]) by {
            if i < p.len() {
                assert(same_retraction(p[i], q[i]));
            }
        }
    }
}

/// Two stores that agree on what a sweep did not carry lead to the same conclusion.
proof fn lemma_agree_conclusion(
    s: StoreView,
    t: StoreView,
    input: InputView,
    c: int,
    d: int,
    now: Seq<char>,
    later: Seq<char>,
    observed: Seq<Seq<char>>,
    exempt: Seq<Seq<char>>,
)
    requires
        agree(s, t, input.adapter_id, observed),
    ensures
        ({
            let x = conclusion(s, input, c, now, observed, exempt);
            let y = conclusion(t, input, d, later, observed, exempt);
            &&& same_retractions(x.retractions, y.retractions)
            &&& x.notes == y.notes
        }),
{
    let (own, resource) = (input.adapter_id, input.resource_id);
    let (p, q) = (live_listing(s, own, resource), live_listing(t, own, resource));
    let left = absent(p, observed);
    assert(s.resource_row(own, resource) == t.resource_row(own, resource));
    law_the_listing_is_the_live_set(s, own, resource);
    law_the_listing_is_the_live_set(t, own, resource);
    lemma_absent(own, p, observed);
    lemma_absent(own, q, observed);
    lemma_same_absent(s, t, own, resource, observed);
    lemma_tally_of_absent(s, input, c, now, observed, exempt, p);
    lemma_tally_of_absent(t, input, d, later, observed, exempt, q);
    lemma_agree_tally(s, t, input, c, d, now, later, observed, exempt, left);
}

/// What two sweeps at the same point come to when both commit.
proof fn lemma_committed_in_parallel(
    s: StoreView,
    t: StoreView,
    w: SweepView,
    v: SweepView,
    violation: Option<ProtocolViolationKind>,
)
    requires
        in_parallel(w, v),
        agree(s, t, w.input.adapter_id, w.observed),
    ensures
        ({
            let (x, a) = committed(s, w, violation);
            let (y, b) = committed(t, v, violation);
            &&& same_retractions(x.retractions, y.retractions)
            &&& same_report(a, b)
        }),
{
    let gate = gate_at_commit(w.gate, violation);
    assert(gate == gate_at_commit(v.gate, violation));
    lemma_agree_conclusion(
        s,
        t,
        w.input,
        w.crawl_id,
        v.crawl_id,
        w.now,
        v.now,
        w.observed,
        w.exempt,
    );
    let (p, q) = (concludes(s, w, gate), concludes(t, v, gate));
    assert(same_retractions(p.retractions, q.retractions));
    lemma_noted_rows(
        StoreView { retractions: s.retractions + p.retractions, ..s },
        w.input,
        w.crawl_id,
        w.now,
        p.notes,
    );
    lemma_noted_rows(
        StoreView { retractions: t.retractions + q.retractions, ..t },
        v.input,
        v.crawl_id,
        v.now,
        q.notes,
    );
    let (x, y) = (committed(s, w, violation).0.retractions, committed(t, v, violation).0.retractions);
    assert(x == s.retractions + p.retractions);
    assert(y == t.retractions + q.retractions);
    assert forall|i: int| 0 <= i < x.len() implies #[trigger] same_retraction(x[i], y[i]) by {
        if i >= s.retractions.len() {
            let k = i - s.retractions.len();
            assert(same_retraction(p.retractions[k], q.retractions[k]));
        }
    }
}

/// Whether two steps come to the same.
pub open spec fn same_step(a: StepView, b: StepView) -> bool {
    match (a, b) {
        (StepView::Done(x), StepView::Done(y)) => same_report(x, y),
        (StepView::Next(x), StepView::Next(y)) => x.page == y.page && same_report(
            x.report,
            y.report,
        ),
        _ => false,
    }
}

/// What two sweeps at the same point come to after a page, on stores that agree on
/// what the sweeps did not carry so far.
proof fn lemma_last_in_parallel(
    s: StoreView,
    t: StoreView,
    w: SweepView,
    v: SweepView,
    a: PageView,
    b: PageView,
)
    requires
        in_parallel(w, v),
        same_page(a, b),
        agree(s, t, w.input.adapter_id, w.observed),
    ensures
        ({
            let (x, first) = took_page(s, w, a.records, a.statuses, a.violation);
            let (y, second) = took_page(t, v, b.records, b.statuses, b.violation);
            &&& same_retractions(x.retractions, y.retractions)
            &&& same_step(first, second)
        }),
{
    let (x, first) = took_page(s, w, a.records, a.statuses, a.violation);
    let (y, second) = took_page(t, v, b.records, b.statuses, b.violation);
    let id = w.input.adapter_id;
    if let Some(status) = status_of(a.statuses, w.input.resource_id) {
        lemma_advanced(s, t, w, v, a, b, status);
        let own = own_records(a.records, id, w.input.resource_id);
        let again = own_records(b.records, id, w.input.resource_id);
        let (after, n) = ingested_all(s, w.input, w.crawl_id, own);
        let (other, m) = ingested_all(t, v.input, v.crawl_id, again);
        let p = advanced(w, a.records, status, n);
        let q = advanced(v, b.records, status, m);
        lemma_agree_on_more(s, t, id, w.observed, ids_of(own));
        lemma_agree_back(s, after, id, p.observed);
        lemma_agree_in_turn(after, s, t, id, p.observed);
        lemma_agree_in_turn(after, t, other, id, p.observed);
        if p.page is None {
            lemma_committed_in_parallel(after, other, p, q, a.violation);
        } else {
            assert(x.retractions == y.retractions);
            lemma_same_retractions_hold(x.retractions);
        }
    } else {
        assert(x.retractions == y.retractions);
        lemma_same_retractions_hold(x.retractions);
    }
}

proof fn lemma_same_retractions_hold(rows: Seq<RetractionView>)
    ensures
        same_retractions(rows, rows),
{
    assert forall|i: int| 0 <= i < rows.len() implies #[trigger] same_retraction(
        rows[i],
        rows[i],
    ) by {}
}

/// The ids of the records that pages bring to a sweep, in order.
spec fn carried(pages: Seq<PageView>, input: InputView) -> Seq<Seq<char>>
    decreases pages.len(),
{
    if pages.len() == 0 {
        Seq::empty()
    } else {
        carried(pages.drop_last(), input) + ids_of(
            own_records(pages.last().records, input.adapter_id, input.resource_id),
        )
    }
}

/// How many of these ids, each counted once, nothing is stored of.
spec fn unheard(s: StoreView, own: Seq<char>, ids: Seq<Seq<char>>) -> nat
    decreases ids.len(),
{
    if ids.len() == 0 {
        0
    } else {
        let front = ids.drop_last();
        unheard(s, own, front) + if s.chain(own, ids.last()).len() == 0 && !front.contains(
            ids.last(),
        ) {
            1nat
        } else {
            0
        }
    }
}

/// Whether a store has heard of these ids too, and of no others.
spec fn heard_of(s: StoreView, t: StoreView, own: Seq<char>, ids: Seq<Seq<char>>) -> bool {
    forall|id: Seq<char>|
        (#[trigger] t.chain(own, id)).len() == 0 <==> s.chain(own, id).len() == 0
            && !ids.contains(id)
}

proof fn lemma_contains_sum(a: Seq<Seq<char>>, b: Seq<Seq<char>>, id: Seq<char>)
    ensures
        (a + b).contains(id) <==> a.contains(id) || b.contains(id),
{
    if (a + b).contains(id) {
        let i = choose|i: int| 0 <= i < (a + b).len() && (a + b)[i] == id;
        if i < a.len() {
            assert(a[i] == id);
        } else {
            assert(b[i - a.len()] == id);
        }
    }
    if a.contains(id) {
        let i = choose|i: int| 0 <= i < a.len() && a[i] == id;
        assert((a + b)[i] == id);
    }
    if b.contains(id) {
        let i = choose|i: int| 0 <= i < b.len() && b[i] == id;
        assert((a + b)[a.len() + i] == id);
    }
}

/// What is unheard of in two lists is what is so in the first, and in the second
/// once the first was heard.
proof fn lemma_unheard_sum(
    s: StoreView,
    t: StoreView,
    own: Seq<char>,
    a: Seq<Seq<char>>,
    b: Seq<Seq<char>>,
)
    requires
        heard_of(s, t, own, a),
    ensures
        unheard(s, own, a + b) == unheard(s, own, a) + unheard(t, own, b),
    decreases b.len(),
{
    if b.len() == 0 {
        assert(a + b =~= a);
    } else {
        let front = b.drop_last();
        lemma_unheard_sum(s, t, own, a, front);
        assert((a + b).drop_last() =~= a + front);
        assert((a + b).last() == b.last());
        lemma_contains_sum(a, front, b.last());
        assert(t.chain(own, b.last()).len() == 0 <==> s.chain(own, b.last()).len() == 0
            && !a.contains(b.last()));
    }
}

proof fn lemma_heard_sum(
    s: StoreView,
    t: StoreView,
    u: StoreView,
    own: Seq<char>,
    a: Seq<Seq<char>>,
    b: Seq<Seq<char>>,
)
    requires
        heard_of(s, t, own, a),
        heard_of(t, u, own, b),
    ensures
        heard_of(s, u, own, a + b),
{
    assert forall|id: Seq<char>|
        (#[trigger] u.chain(own, id)).len() == 0 <==> s.chain(own, id).len() == 0 && !(a
            + b).contains(id) by {
        lemma_contains_sum(a, b, id);
        assert(t.chain(own, id).len() == 0 <==> s.chain(own, id).len() == 0 && !a.contains(id));
    }
}

/// Two stores that have heard of the same ids count the same as unheard of.
proof fn lemma_same_unheard(s: StoreView, t: StoreView, own: Seq<char>, ids: Seq<Seq<char>>)
    requires
        forall|id: Seq<char>|
            (#[trigger] s.chain(own, id)).len() == 0 <==> t.chain(own, id).len() == 0,
    ensures
        unheard(s, own, ids) == unheard(t, own, ids),
    decreases ids.len(),
{
    if ids.len() > 0 {
        lemma_same_unheard(s, t, own, ids.drop_last());
        assert(s.chain(own, ids.last()).len() == 0 <==> t.chain(own, ids.last()).len() == 0);
    }
}

proof fn lemma_none_unheard(s: StoreView, own: Seq<char>, ids: Seq<Seq<char>>)
    requires
        forall|i: int| 0 <= i < ids.len() ==> s.chain(own, #[trigger] ids[i]).len() > 0,
    ensures
        unheard(s, own, ids) == 0,
    decreases ids.len(),
{
    if ids.len() > 0 {
        let front = ids.drop_last();
        assert forall|i: int| 0 <= i < front.len() implies s.chain(own, #[trigger] front[i]).len()
            > 0 by {
            assert(front[i] == ids[i]);
        }
        lemma_none_unheard(s, own, front);
        assert(s.chain(own, ids[ids.len() - 1]).len() > 0);
    }
}

/// What counts as new is what was unheard of.
proof fn lemma_new_were_unheard(
    s: StoreView,
    input: InputView,
    c: int,
    records: Seq<ObservationView>,
)
    requires
        forall|i: int|
            0 <= i < records.len() ==> (#[trigger] records[i]).provenance.adapter_id
                == input.adapter_id,
    ensures
        ({
            let (after, counts) = ingested_all(s, input, c, records);
            &&& counts.new == unheard(s, input.adapter_id, ids_of(records))
            &&& heard_of(s, after, input.adapter_id, ids_of(records))
        }),
    decreases records.len(),
{
    let own = input.adapter_id;
    let after = ingested_all(s, input, c, records).0;
    if records.len() == 0 {
        assert forall|id: Seq<char>|
            (#[trigger] after.chain(own, id)).len() == 0 <==> s.chain(own, id).len() == 0
                && !ids_of(records).contains(id) by {}
    } else {
        let front = records.drop_last();
        let o = records[records.len() - 1];
        assert forall|i: int| 0 <= i < front.len() implies (
        #[trigger] front[i]).provenance.adapter_id == own by {
            assert(front[i] == records[i]);
        }
        lemma_new_were_unheard(s, input, c, front);
        let before = ingested_all(s, input, c, front).0;
        lemma_ingested(before, input, c, o);
        assert(ids_of(records).drop_last() =~= ids_of(front));
        assert(ids_of(records).last() == o.local_id);
        assert(o.provenance.adapter_id == own);
        assert(before.chain(own, o.local_id).len() == 0 <==> s.chain(own, o.local_id).len() == 0
            && !ids_of(front).contains(o.local_id));
        assert(ids_of(records) =~= ids_of(front) + seq![o.local_id]);
        assert forall|id: Seq<char>|
            (#[trigger] after.chain(own, id)).len() == 0 <==> s.chain(own, id).len() == 0
                && !ids_of(records).contains(id) by {
            assert(before.chain(own, id).len() == 0 <==> s.chain(own, id).len() == 0 && !ids_of(
                front,
            ).contains(id));
            lemma_contains_sum(ids_of(front), seq![o.local_id], id);
            assert(seq![o.local_id].contains(id) <==> id == o.local_id) by {
                assert(seq![o.local_id][0] == o.local_id);
            }
            if !unchanged(before, own, o) {
                lemma_chain_grows(
                    arrivals_of(before.observations, own),
                    o,
                    ChainKey { adapter_id: own, local_id: id },
                );
            }
        }
    }
}

/// The report that a step comes to so far.
pub open spec fn report_of(step: StepView) -> ReportView {
    match step {
        StepView::Next(sweep) => sweep.report,
        StepView::Done(report) => report,
    }
}

/// How many new records a page adds to a report.
proof fn lemma_page_new(s: StoreView, w: SweepView, p: PageView)
    ensures
        ({
            let own = w.input.adapter_id;
            let ids = ids_of(own_records(p.records, own, w.input.resource_id));
            let (after, step) = took_page(s, w, p.records, p.statuses, p.violation);
            &&& report_of(step).new == w.report.new + (if status_of(
                p.statuses,
                w.input.resource_id,
            ) is Some {
                unheard(s, own, ids)
            } else {
                0
            })
            &&& step is Next ==> heard_of(s, after, own, ids) && step->Next_0.input == w.input
        }),
{
    let own = w.input.adapter_id;
    let records = own_records(p.records, own, w.input.resource_id);
    lemma_own_records(p.records, own, w.input.resource_id);
    lemma_new_were_unheard(s, w.input, w.crawl_id, records);
    let (after, step) = took_page(s, w, p.records, p.statuses, p.violation);
    if step is Next {
        let mid = ingested_all(s, w.input, w.crawl_id, records).0;
        assert forall|id: Seq<char>|
            (#[trigger] after.chain(own, id)).len() == 0 <==> s.chain(own, id).len() == 0
                && !ids_of(records).contains(id) by {
            assert(after.chain(own, id) == mid.chain(own, id));
        }
    }
}

/// How many new records pages add to a report.
proof fn lemma_run_new(s: StoreView, w: SweepView, pages: Seq<PageView>)
    requires
        took_pages(s, w, pages).1 is Next,
    ensures
        ({
            let own = w.input.adapter_id;
            let ids = carried(pages, w.input);
            let (after, step) = took_pages(s, w, pages);
            &&& step->Next_0.report.new == w.report.new + unheard(s, own, ids)
            &&& heard_of(s, after, own, ids)
            &&& step->Next_0.input == w.input
        }),
    decreases pages.len(),
{
    let own = w.input.adapter_id;
    if pages.len() == 0 {
        assert forall|id: Seq<char>|
            (#[trigger] s.chain(own, id)).len() == 0 <==> s.chain(own, id).len() == 0 && !carried(
                pages,
                w.input,
            ).contains(id) by {}
    } else {
        let front = pages.drop_last();
        let last = pages.last();
        lemma_run_new(s, w, front);
        let (before, step) = took_pages(s, w, front);
        lemma_page_new(before, step->Next_0, last);
        let a = carried(front, w.input);
        let b = ids_of(own_records(last.records, own, w.input.resource_id));
        lemma_unheard_sum(s, before, own, a, b);
        lemma_heard_sum(s, before, took_pages(s, w, pages).0, own, a, b);
    }
}

proof fn lemma_same_carried(a: Seq<PageView>, b: Seq<PageView>, input: InputView)
    requires
        same_pages(a, b),
    ensures
        carried(a, input) == carried(b, input),
    decreases a.len(),
{
    if a.len() > 0 {
        let (c, d) = (a.drop_last(), b.drop_last());
        assert forall|i: int| 0 <= i < c.len() implies #[trigger] same_page(c[i], d[i]) by {
            assert(same_page(a[i], b[i]));
        }
        lemma_same_carried(c, d, input);
        let k = a.len() - 1;
        assert(same_page(a[k], b[k]));
        lemma_same_ids(a[k].records, b[k].records, input.adapter_id, input.resource_id);
    }
}

/// What the next sweep counts as new is what the lost one did, less what was kept.
proof fn lemma_new_again(
    s: StoreView,
    w: SweepView,
    t: StoreView,
    v: SweepView,
    pages: Seq<PageView>,
    again: Seq<PageView>,
)
    requires
        pages.len() > 0,
        same_pages(pages, again),
        v.input == w.input,
        w.report.new == 0,
        v.report.new == 0,
        took_pages(s, w, pages.drop_last()).1 is Next,
        took_pages(t, v, again.drop_last()).1 is Next,
        t == (StoreView { crawls: t.crawls, ..took_pages(s, w, pages.drop_last()).0 }),
    ensures
        report_of(took_pages(s, w, pages).1).new == report_of(
            took_pages(s, w, pages.drop_last()).1,
        ).new + report_of(took_pages(t, v, again).1).new,
{
    let own = w.input.adapter_id;
    let (front, rest) = (pages.drop_last(), again.drop_last());
    assert forall|i: int| 0 <= i < front.len() implies #[trigger] same_page(front[i], rest[i]) by {
        assert(same_page(pages[i], again[i]));
    }
    let (kept, first) = took_pages(s, w, front);
    let (other, second) = took_pages(t, v, rest);
    lemma_same_carried(front, rest, w.input);
    lemma_run_new(s, w, front);
    lemma_run_new(t, v, rest);
    let ids = carried(front, w.input);
    assert forall|i: int| 0 <= i < ids.len() implies t.chain(own, #[trigger] ids[i]).len() > 0 by {
        assert(ids.contains(ids[i]));
        assert(t.chain(own, ids[i]) == kept.chain(own, ids[i]));
    }
    lemma_none_unheard(t, own, ids);
    let k = pages.len() - 1;
    assert(same_page(pages[k], again[k]));
    lemma_same_ids(pages[k].records, again[k].records, own, w.input.resource_id);
    lemma_page_new(kept, first->Next_0, pages[k]);
    lemma_page_new(other, second->Next_0, again[k]);
    assert forall|id: Seq<char>|
        (#[trigger] kept.chain(own, id)).len() == 0 <==> other.chain(own, id).len() == 0 by {
        assert(t.chain(own, id) == kept.chain(own, id));
        assert(other.chain(own, id).len() == 0 <==> t.chain(own, id).len() == 0 && !ids.contains(
            id,
        ));
        assert(kept.chain(own, id).len() == 0 <==> s.chain(own, id).len() == 0 && !ids.contains(
            id,
        ));
    }
    lemma_same_unheard(
        kept,
        other,
        own,
        ids_of(own_records(pages[k].records, own, w.input.resource_id)),
    );
}

/// The last page of a sweep, of however many, is lost before its commit. What the
/// earlier pages brought stays, and nothing is retracted. The next sweep of the
/// resource, from the start of history, that is served the same pages comes to
/// what the lost one would have: the same retractions, but for the crawl that says
/// so and when, and the same report, but for the crawl and for how many of the
/// records were stored already. What the kept pages brought as new is not new
/// again; every other record that was new to the lost sweep is new to the next.
pub proof fn law_a_lost_page_is_taken_again(
    s: StoreView,
    input: InputView,
    now: Seq<char>,
    later: Seq<char>,
    pages: Seq<PageView>,
    again: Seq<PageView>,
)
    requires
        !input.options.resume,
        pages.len() > 0,
        same_pages(pages, again),
        took_pages(
            opened(s, input, now),
            begun(s, input, now),
            pages.drop_last(),
        ).1 is Next,
    ensures
        ({
            let (start, sweep) = (opened(s, input, now), begun(s, input, now));
            let kept = took_pages(start, sweep, pages.drop_last()).0;
            let (lost, first) = took_pages(start, sweep, pages);
            let (done, second) = took_pages(
                opened(kept, input, later),
                begun(kept, input, later),
                again,
            );
            &&& kept.retractions == s.retractions
            &&& same_retractions(lost.retractions, done.retractions)
            &&& same_step(first, second)
            &&& report_of(first).new == report_of(
                took_pages(start, sweep, pages.drop_last()).1,
            ).new + report_of(second).new
        }),
{
    let (start, w) = (opened(s, input, now), begun(s, input, now));
    let (front, rest) = (pages.drop_last(), again.drop_last());
    let kept = took_pages(start, w, front).0;
    let (t, v) = (opened(kept, input, later), begun(kept, input, later));
    assert forall|i: int| 0 <= i < front.len() implies #[trigger] same_page(front[i], rest[i]) by {
        assert(same_page(pages[i], again[i]));
    }
    assert(in_parallel(w, v));
    lemma_run_in_parallel(start, t, w, v, front, rest);
    let p = took_pages(start, w, front).1->Next_0;
    let (other, second) = took_pages(t, v, rest);
    let q = second->Next_0;
    lemma_crawls_aside(kept, t, input.adapter_id, p.observed);
    lemma_agree_in_turn(kept, t, other, input.adapter_id, p.observed);
    let k = pages.len() - 1;
    assert(same_page(pages[k], again[k]));
    lemma_last_in_parallel(kept, other, p, q, pages[k], again[k]);
    lemma_new_again(start, w, t, v, pages, again);
}

} // verus!
