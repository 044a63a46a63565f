//! Which sweeps are evidence of absence, told from the pages that they were served.

use crate::store::gate::{has_anonymous, judged, named, GateView};
use crate::store::model::StoreView;
use crate::store::report::InputView;
use crate::store::sweep::{
    begun, committed, gate_at_commit, ids_of, own_records, start_of, took_page, took_pages,
    PageView, StepView, SweepView,
};
use crate::text::decimal;
use crate::wire::failure::ProtocolViolationKind;
use crate::wire::page::CursorResumable;
use crate::wire::record::ObservationView;
use crate::wire::status::{status_of, DegradedView, StatusView};
use vstd::prelude::*;

verus! {

/// Whether a page leaves no doubt about what it does not carry: it has the resource's
/// status, which says that the page was fetched, drops no record without its name, and
/// has an exact cursor; and none of its records comes from another adapter.
pub open spec fn leaves_no_doubt(p: PageView, input: InputView) -> bool {
    &&& status_of(p.statuses, input.resource_id) matches Some(status)
    &&& status.outcome is Fetched
    &&& forall|i: int|
        0 <= i < status.degraded.len() ==> (#[trigger] status.degraded[i]).local_id is Some
    &&& status.page matches Some(page) ==> page.cursor_resumable == CursorResumable::Exact
    &&& forall|i: int|
        0 <= i < p.records.len() ==> (#[trigger] p.records[i]).provenance.adapter_id
            == input.adapter_id
}

/// Whether a page says that it is the last.
pub open spec fn is_the_last(p: PageView, input: InputView) -> bool {
    status_of(p.statuses, input.resource_id) matches Some(status) && status.page matches Some(page)
        && page.next is None
}

/// Whether one of these pages carries a record of the resource under this id.
pub open spec fn carries(pages: Seq<PageView>, input: InputView, local_id: Seq<char>) -> bool {
    exists|i: int, j: int|
        0 <= i < pages.len() && 0 <= j < pages[i].records.len() && {
            let o = #[trigger] pages[i].records[j];
            o.provenance.adapter_id == input.adapter_id && o.resource_id == input.resource_id
                && o.local_id == local_id
        }
}

/// Whether a page's status says that a record under this id was dropped.
pub open spec fn drops(p: PageView, input: InputView, local_id: Seq<char>) -> bool {
    status_of(p.statuses, input.resource_id) matches Some(status) && exists|j: int|
        0 <= j < status.degraded.len() && (#[trigger] status.degraded[j]).local_id == Some(local_id)
}

/// Whether one of these pages says that a record under this id was dropped.
pub open spec fn drops_among(pages: Seq<PageView>, input: InputView, local_id: Seq<char>) -> bool {
    exists|i: int| 0 <= i < pages.len() && drops(#[trigger] pages[i], input, local_id)
}

proof fn lemma_one_page(s: StoreView, w: SweepView, p: PageView)
    requires
        status_of(p.statuses, w.input.resource_id) is Some,
    ensures
        ({
            let status = status_of(p.statuses, w.input.resource_id)->0;
            let own = own_records(p.records, w.input.adapter_id, w.input.resource_id);
            let foreign = exists|i: int|
                0 <= i < p.records.len() && (#[trigger] p.records[i]).provenance.adapter_id
                    != w.input.adapter_id;
            match took_page(s, w, p.records, p.statuses, p.violation).1 {
                StepView::Next(v) => {
                    &&& v.input == w.input
                    &&& v.page_number == w.page_number + 1
                    &&& v.gate.began_at_start_of_history == w.gate.began_at_start_of_history
                    &&& v.gate.hello_derivation == w.gate.hello_derivation
                    &&& v.gate.connection_violation == w.gate.connection_violation
                    &&& v.gate.every_page_fetched == (w.gate.every_page_fetched
                        && status.outcome is Fetched)
                    &&& v.gate.anonymous_degrade == (w.gate.anonymous_degrade || has_anonymous(
                        status.degraded,
                    ))
                    &&& v.gate.every_cursor_exact == (w.gate.every_cursor_exact && (
                    status.page matches Some(page) ==> page.cursor_resumable
                        == CursorResumable::Exact))
                    &&& v.gate.foreign_provenance == (w.gate.foreign_provenance || foreign)
                    &&& v.report.complete == w.report.complete
                    &&& v.observed == w.observed + ids_of(own)
                    &&& v.exempt == w.exempt + named(status.degraded)
                    &&& status.page matches Some(page) && page.next is Some
                },
                StepView::Done(report) => {
                    let sound = w.gate.every_page_fetched && status.outcome is Fetched
                        && !w.gate.anonymous_degrade && !has_anonymous(status.degraded)
                        && w.gate.every_cursor_exact && (status.page matches Some(page)
                        ==> page.cursor_resumable == CursorResumable::Exact)
                        && !w.gate.foreign_provenance && !foreign;
                    report.complete == (if is_the_last(p, w.input) {
                        w.gate.connection_violation is None && p.violation is None
                            && w.gate.began_at_start_of_history && w.gate.hello_derivation.len() > 0
                            && sound
                    } else {
                        status.page is Some && w.report.complete
                    })
                },
            }
        }),
{
}

/// Whether nothing that a sweep has seen counts against it.
spec fn unblemished(g: GateView) -> bool {
    g.every_page_fetched && !g.anonymous_degrade && g.every_cursor_exact && !g.foreign_provenance
}

proof fn lemma_no_doubt(s: StoreView, w: SweepView, p: PageView)
    requires
        status_of(p.statuses, w.input.resource_id) is Some,
    ensures
        took_page(s, w, p.records, p.statuses, p.violation).1 matches StepView::Next(v)
            ==> unblemished(v.gate) == (unblemished(w.gate) && leaves_no_doubt(p, w.input)),
        took_page(s, w, p.records, p.statuses, p.violation).1 matches StepView::Done(report)
            ==> is_the_last(p, w.input) ==> report.complete == (w.gate.connection_violation is None
            && p.violation is None && w.gate.began_at_start_of_history
            && w.gate.hello_derivation.len() > 0 && unblemished(w.gate) && leaves_no_doubt(
            p,
            w.input,
        )),
{
    lemma_one_page(s, w, p);
}

/// What one more page makes of a sweep that is still going after it.
proof fn lemma_next(s: StoreView, w: SweepView, pages: Seq<PageView>)
    requires
        pages.len() > 0,
        took_pages(s, w, pages).1 is Next,
    ensures
        ({
            let u = took_pages(s, w, pages.drop_last()).1->Next_0;
            let v = took_pages(s, w, pages).1->Next_0;
            let p = pages.last();
            &&& took_pages(s, w, pages.drop_last()).1 is Next
            &&& v.input == u.input
            &&& v.page_number == u.page_number + 1
            &&& v.gate.began_at_start_of_history == u.gate.began_at_start_of_history
            &&& v.gate.hello_derivation == u.gate.hello_derivation
            &&& v.gate.connection_violation == u.gate.connection_violation
            &&& v.report.complete == u.report.complete
            &&& unblemished(v.gate) == (unblemished(u.gate) && leaves_no_doubt(p, u.input))
            &&& !is_the_last(p, u.input)
        }),
{
    let (t, step) = took_pages(s, w, pages.drop_last());
    let p = pages.last();
    if let StepView::Next(u) = step {
        if status_of(p.statuses, u.input.resource_id) is Some {
            lemma_one_page(t, u, p);
            lemma_no_doubt(t, u, p);
        }
    }
}

/// What a sweep has come to after these pages, if it is still going.
proof fn lemma_so_far(s: StoreView, w: SweepView, pages: Seq<PageView>)
    requires
        unblemished(w.gate),
        !w.report.complete,
        took_pages(s, w, pages).1 is Next,
    ensures
        ({
            let v = took_pages(s, w, pages).1->Next_0;
            &&& v.input == w.input
            &&& v.page_number == w.page_number + pages.len()
            &&& v.gate.began_at_start_of_history == w.gate.began_at_start_of_history
            &&& v.gate.hello_derivation == w.gate.hello_derivation
            &&& v.gate.connection_violation == w.gate.connection_violation
            &&& !v.report.complete
            &&& unblemished(v.gate) <==> no_doubt_among(pages, w.input)
            &&& none_is_the_last(pages, w.input)
        }),
    decreases pages.len(),
{
    if pages.len() > 0 {
        lemma_next(s, w, pages);
        lemma_so_far(s, w, pages.drop_last());
        lemma_all_pages(pages, w.input);
    }
}

/// Whether none of these pages leaves a doubt.
pub open spec fn no_doubt_among(pages: Seq<PageView>, input: InputView) -> bool {
    forall|i: int| 0 <= i < pages.len() ==> leaves_no_doubt(#[trigger] pages[i], input)
}

/// Whether none of these pages says that it is the last.
pub open spec fn none_is_the_last(pages: Seq<PageView>, input: InputView) -> bool {
    forall|i: int| 0 <= i < pages.len() ==> !is_the_last(#[trigger] pages[i], input)
}

proof fn lemma_all_pages(pages: Seq<PageView>, input: InputView)
    requires
        pages.len() > 0,
    ensures
        no_doubt_among(pages, input) <==> no_doubt_among(pages.drop_last(), input)
            && leaves_no_doubt(pages.last(), input),
        none_is_the_last(pages, input) <==> none_is_the_last(pages.drop_last(), input)
            && !is_the_last(pages.last(), input),
{
    let front = pages.drop_last();
    assert(pages[pages.len() - 1] == pages.last());
    assert forall|i: int| 0 <= i < front.len() implies #[trigger] front[i] == pages[i] by {}
    if no_doubt_among(pages, input) {
        assert forall|i: int| 0 <= i < front.len() implies leaves_no_doubt(
            #[trigger] front[i],
            input,
        ) by {
            assert(front[i] == pages[i]);
        }
    }
    if no_doubt_among(front, input) && leaves_no_doubt(pages.last(), input) {
        assert forall|i: int| 0 <= i < pages.len() implies leaves_no_doubt(
            #[trigger] pages[i],
            input,
        ) by {
            if i < front.len() {
                assert(front[i] == pages[i]);
            }
        }
    }
    if none_is_the_last(pages, input) {
        assert forall|i: int| 0 <= i < front.len() implies !is_the_last(
            #[trigger] front[i],
            input,
        ) by {
            assert(front[i] == pages[i]);
        }
    }
    if none_is_the_last(front, input) && !is_the_last(pages.last(), input) {
        assert forall|i: int| 0 <= i < pages.len() implies !is_the_last(
            #[trigger] pages[i],
            input,
        ) by {
            if i < front.len() {
                assert(front[i] == pages[i]);
            }
        }
    }
}

/// What a sweep that is still going remembers of these pages.
proof fn lemma_remembered(s: StoreView, w: SweepView, pages: Seq<PageView>, id: Seq<char>)
    requires
        w.observed.len() == 0,
        w.exempt.len() == 0,
    ensures
        took_pages(s, w, pages).1 matches StepView::Next(v) ==> {
            &&& v.input == w.input
            &&& v.observed.contains(id) <==> carries(pages, w.input, id)
            &&& v.exempt.contains(id) <==> drops_among(pages, w.input, id)
        },
    decreases pages.len(),
{
    if pages.len() > 0 {
        let front = pages.drop_last();
        let p = pages.last();
        lemma_remembered(s, w, front, id);
        let (t, step) = took_pages(s, w, front);
        if let StepView::Next(u) = step {
            if status_of(p.statuses, w.input.resource_id) is Some {
                lemma_one_page(t, u, p);
                assert(front.push(p) =~= pages);
                lemma_carried_so_far(front, p, w.input, u.observed, id);
                lemma_dropped_so_far(front, p, w.input, u.exempt, id);
            }
        }
    }
}

proof fn lemma_in_sum(a: Seq<Seq<char>>, b: Seq<Seq<char>>, id: Seq<char>)
    ensures
        (a + b).contains(id) <==> a.contains(id) || b.contains(id),
{
    let c = a + b;
    if a.contains(id) {
        let i = choose|i: int| 0 <= i < a.len() && a[i] == id;
        assert(c[i] == id);
    }
    if b.contains(id) {
        let i = choose|i: int| 0 <= i < b.len() && b[i] == id;
        assert(c[a.len() + i] == id);
    }
    if c.contains(id) {
        let i = choose|i: int| 0 <= i < c.len() && c[i] == id;
        if i < a.len() {
            assert(a[i] == id);
        } else {
            assert(b[i - a.len()] == id);
        }
    }
}

proof fn lemma_own_ids(records: Seq<ObservationView>, input: InputView, id: Seq<char>)
    ensures
        ids_of(own_records(records, input.adapter_id, input.resource_id)).contains(id)
            <==> exists|j: int|
            0 <= j < records.len() && (#[trigger] records[j]).provenance.adapter_id
                == input.adapter_id && records[j].resource_id == input.resource_id
                && records[j].local_id == id,
    decreases records.len(),
{
    let own = own_records(records, input.adapter_id, input.resource_id);
    let ids = ids_of(own);
    if records.len() > 0 {
        let front = records.drop_last();
        let before = ids_of(own_records(front, input.adapter_id, input.resource_id));
        let o = records.last();
        lemma_own_ids(front, input, id);
        let mine = o.provenance.adapter_id == input.adapter_id && o.resource_id
            == input.resource_id;
        if mine {
            assert(ids =~= before + seq![o.local_id]);
            lemma_in_sum(before, seq![o.local_id], id);
            if o.local_id == id {
                assert(seq![o.local_id][0] == id);
                assert(records[records.len() - 1] == o);
            }
        }
        if before.contains(id) {
            let j = choose|j: int|
                0 <= j < front.len() && (#[trigger] front[j]).provenance.adapter_id
                    == input.adapter_id && front[j].resource_id == input.resource_id
                    && front[j].local_id == id;
            assert(records[j] == front[j]);
        }
        if exists|j: int|
            0 <= j < records.len() && (#[trigger] records[j]).provenance.adapter_id
                == input.adapter_id && records[j].resource_id == input.resource_id
                && records[j].local_id == id {
            let j = choose|j: int|
                0 <= j < records.len() && (#[trigger] records[j]).provenance.adapter_id
                    == input.adapter_id && records[j].resource_id == input.resource_id
                    && records[j].local_id == id;
            if j < front.len() {
                assert(front[j] == records[j]);
            }
        }
    }
}

proof fn lemma_names(degraded: Seq<DegradedView>, id: Seq<char>)
    ensures
        named(degraded).contains(id) <==> exists|j: int|
            0 <= j < degraded.len() && (#[trigger] degraded[j]).local_id == Some(id),
    decreases degraded.len(),
{
    if degraded.len() > 0 {
        let front = degraded.drop_last();
        let before = named(front);
        lemma_names(front, id);
        if let Some(name) = degraded.last().local_id {
            assert(named(degraded) =~= before + seq![name]);
            lemma_in_sum(before, seq![name], id);
            if name == id {
                assert(seq![name][0] == id);
                assert(degraded[degraded.len() - 1].local_id == Some(id));
            }
        }
        if before.contains(id) {
            let j = choose|j: int|
                0 <= j < front.len() && (#[trigger] front[j]).local_id == Some(id);
            assert(degraded[j] == front[j]);
        }
        if exists|j: int| 0 <= j < degraded.len() && (#[trigger] degraded[j]).local_id == Some(id) {
            let j = choose|j: int|
                0 <= j < degraded.len() && (#[trigger] degraded[j]).local_id == Some(id);
            if j < front.len() {
                assert(front[j] == degraded[j]);
            }
        }
    }
}

proof fn lemma_carried_so_far(
    front: Seq<PageView>,
    p: PageView,
    input: InputView,
    observed: Seq<Seq<char>>,
    id: Seq<char>,
)
    requires
        observed.contains(id) <==> carries(front, input, id),
    ensures
        (observed + ids_of(
            own_records(p.records, input.adapter_id, input.resource_id),
        )).contains(id) <==> carries(front.push(p), input, id),
{
    let ids = ids_of(own_records(p.records, input.adapter_id, input.resource_id));
    let pages = front.push(p);
    lemma_in_sum(observed, ids, id);
    lemma_own_ids(p.records, input, id);
    if carries(front, input, id) {
        let (i, j) = choose|i: int, j: int|
            0 <= i < front.len() && 0 <= j < front[i].records.len() && {
                let o = #[trigger] front[i].records[j];
                o.provenance.adapter_id == input.adapter_id && o.resource_id == input.resource_id
                    && o.local_id == id
            };
        assert(pages[i].records[j] == front[i].records[j]);
    }
    if ids.contains(id) {
        let j = choose|j: int|
            0 <= j < p.records.len() && (#[trigger] p.records[j]).provenance.adapter_id
                == input.adapter_id && p.records[j].resource_id == input.resource_id
                && p.records[j].local_id == id;
        assert(pages[front.len() as int].records[j] == p.records[j]);
    }
    if carries(pages, input, id) {
        let (i, j) = choose|i: int, j: int|
            0 <= i < pages.len() && 0 <= j < pages[i].records.len() && {
                let o = #[trigger] pages[i].records[j];
                o.provenance.adapter_id == input.adapter_id && o.resource_id == input.resource_id
                    && o.local_id == id
            };
        if i < front.len() {
            assert(front[i].records[j] == pages[i].records[j]);
        } else {
            assert(p.records[j] == pages[i].records[j]);
        }
    }
}

proof fn lemma_dropped_so_far(
    front: Seq<PageView>,
    p: PageView,
    input: InputView,
    exempt: Seq<Seq<char>>,
    id: Seq<char>,
)
    requires
        status_of(p.statuses, input.resource_id) is Some,
        exempt.contains(id) <==> drops_among(front, input, id),
    ensures
        (exempt + named(status_of(p.statuses, input.resource_id)->0.degraded)).contains(id)
            <==> drops_among(front.push(p), input, id),
{
    let degraded = status_of(p.statuses, input.resource_id)->0.degraded;
    let pages = front.push(p);
    lemma_in_sum(exempt, named(degraded), id);
    lemma_names(degraded, id);
    if drops_among(front, input, id) {
        let i = choose|i: int| 0 <= i < front.len() && drops(#[trigger] front[i], input, id);
        assert(pages[i] == front[i]);
    }
    if drops(p, input, id) {
        assert(pages[front.len() as int] == p);
    }
    if drops_among(pages, input, id) {
        let i = choose|i: int| 0 <= i < pages.len() && drops(#[trigger] pages[i], input, id);
        if i < front.len() {
            assert(front[i] == pages[i]);
        }
    }
}

/// A sweep is complete exactly if its connection never broke the contract, it began at
/// the start of history under a derivation, no page of it left a doubt, and its last page
/// said that it was the last.
pub proof fn law_a_sweep_is_complete_exactly_if(
    s: StoreView,
    store: StoreView,
    input: InputView,
    now: Seq<char>,
    pages: Seq<PageView>,
)
    requires
        pages.len() > 0,
        took_pages(store, begun(s, input, now), pages.drop_last()).1 is Next,
        took_pages(store, begun(s, input, now), pages).1 is Done,
    ensures
        took_pages(store, begun(s, input, now), pages).1->Done_0.complete <==> {
            &&& input.connection_violation is None
            &&& pages.last().violation is None
            &&& start_of(s, input) is None
            &&& input.hello_derivation.len() > 0
            &&& no_doubt_among(pages, input)
            &&& is_the_last(pages.last(), input)
        },
{
    let w = begun(s, input, now);
    let front = pages.drop_last();
    let p = pages.last();
    lemma_so_far(store, w, front);
    lemma_all_pages(pages, input);
    let (t, step) = took_pages(store, w, front);
    if status_of(p.statuses, input.resource_id) is Some {
        lemma_one_page(t, step->Next_0, p);
        lemma_no_doubt(t, step->Next_0, p);
    }
}

/// What a sweep in progress remembers is what its pages said: the ids of the resource's
/// own records that they carried, and the names of those that they had to drop. It goes
/// on only while no page said that it was the last.
pub proof fn law_a_sweep_remembers_its_pages(
    s: StoreView,
    store: StoreView,
    input: InputView,
    now: Seq<char>,
    pages: Seq<PageView>,
    id: Seq<char>,
)
    requires
        took_pages(store, begun(s, input, now), pages).1 is Next,
    ensures
        ({
            let v = took_pages(store, begun(s, input, now), pages).1->Next_0;
            &&& v.page_number == pages.len()
            &&& v.observed.contains(id) <==> carries(pages, input, id)
            &&& v.exempt.contains(id) <==> drops_among(pages, input, id)
            &&& none_is_the_last(pages, input)
        }),
{
    lemma_so_far(store, begun(s, input, now), pages);
    lemma_remembered(store, begun(s, input, now), pages, id);
}

/// Why a sweep is no evidence. What the connection did comes first; then where the sweep
/// began, whether it came to an end, a page that was not fetched, a record that nobody can
/// name, a cursor that is not exact, a missing derivation, and another adapter's record.
pub proof fn law_what_disqualifies_is_said(g: GateView)
    ensures
        g.connection_violation is Some ==> g.disqualifier() == g.connection_violation,
        g.connection_violation is None ==> {
            &&& !g.began_at_start_of_history ==> g.disqualifier() == Some(
                "did not begin at the start of available history"@,
            )
            &&& g.began_at_start_of_history && !g.drained ==> g.disqualifier() == Some(
                "did not drain to next: null"@,
            )
            &&& g.began_at_start_of_history && g.drained ==> {
                &&& !g.every_page_fetched ==> g.disqualifier() == Some(
                    if g.not_fetched is Some {
                        g.not_fetched->0
                    } else {
                        "a page did not report fetched"@
                    },
                )
                &&& g.every_page_fetched && g.anonymous_degrade ==> g.disqualifier() == Some(
                    "an anonymous degraded record"@,
                )
                &&& g.every_page_fetched && !g.anonymous_degrade && !g.every_cursor_exact
                    ==> g.disqualifier() == Some("a page cursor was not exact-resumable"@)
                &&& g.every_page_fetched && !g.anonymous_degrade && g.every_cursor_exact
                    && g.hello_derivation.len() == 0 ==> g.disqualifier() == Some(
                    "no hello local_id_derivation on the crawl"@,
                )
                &&& g.every_page_fetched && !g.anonymous_degrade && g.every_cursor_exact
                    && g.hello_derivation.len() > 0 && g.foreign_provenance ==> g.disqualifier()
                    == Some("an observation's provenance named another adapter"@)
                &&& g.every_page_fetched && !g.anonymous_degrade && g.every_cursor_exact
                    && g.hello_derivation.len() > 0 && !g.foreign_provenance ==> g.disqualifier()
                    is None
            }
        },
{
}

/// The first page that was not fetched is named, with its answer and its place, counted
/// from one; later ones are not.
pub proof fn law_the_first_page_not_fetched_is_named(
    g: GateView,
    status: StatusView,
    page_number: nat,
)
    ensures
        ({
            let now = judged(g, status, page_number);
            &&& status.outcome is Fetched || g.not_fetched is Some ==> now.not_fetched
                == g.not_fetched
            &&& !(status.outcome is Fetched) && g.not_fetched is None ==> now.not_fetched == Some(
                status.outcome.spec_name() + " on page "@ + decimal(page_number + 1),
            )
            &&& now.drained == g.drained
            &&& now.hello_derivation == g.hello_derivation
        }),
{
}

/// A sweep is judged by what its connection has done by the time of its commit, and says
/// by what name it goes. What was known before stands.
pub proof fn law_a_violation_counts_at_commit(g: GateView, violation: Option<ProtocolViolationKind>)
    ensures
        ({
            let now = gate_at_commit(g, violation);
            &&& g.connection_violation is Some || violation is None ==> now == g
            &&& g.connection_violation is None && violation is Some ==> now == (GateView {
                connection_violation: Some(
                    "the connection broke the wire contract: "@ + violation->0.spec_name(),
                ),
                ..g
            })
        }),
{
}

/// A sweep's report says what its crawl's row says: whether it was complete, why not, how
/// many it retracted and what was noted.
pub proof fn law_a_report_is_what_was_written(
    s: StoreView,
    w: SweepView,
    violation: Option<ProtocolViolationKind>,
    k: int,
)
    requires
        0 <= k < s.crawls.len(),
        s.crawls[k].crawl_id == w.crawl_id,
    ensures
        ({
            let (t, report) = committed(s, w, violation);
            let row = t.crawls[k];
            &&& t.crawls.len() == s.crawls.len()
            &&& row.complete == report.complete
            &&& row.drained == w.gate.drained
            &&& row.disqualified_reason == report.disqualified_reason
            &&& report.complete <==> report.disqualified_reason is None
            &&& row.drained ==> row.next_page is None
            &&& !row.drained ==> row.next_page == s.crawls[k].next_page
            &&& t.retractions.len() == s.retractions.len() + report.retracted
            &&& t.discrepancies.len() == s.discrepancies.len() + report.discrepancies.len()
            &&& t.observations == s.observations
            &&& t.reads == s.reads
            &&& t.balances == s.balances
            &&& forall|j: int|
                0 <= j < s.crawls.len() && (#[trigger] s.crawls[j]).crawl_id != w.crawl_id
                    ==> t.crawls[j] == s.crawls[j]
        }),
{
    let c = crate::store::sweep::concludes(s, w, gate_at_commit(w.gate, violation));
    let base = StoreView { retractions: s.retractions + c.retractions, ..s };
    crate::store::retraction_laws::lemma_noted(base, w.input, w.crawl_id, w.now, c.notes);
}

} // verus!
