//! What one page makes of a sweep and of the profile.

use crate::store::ingest::ingested_all;
use crate::store::model::StoreView;
use crate::store::report::ReportView;
use crate::store::retract::{concluded, conclusion, Conclusion};
use crate::store::sweep::{
    committed, gate_at_commit, own_records, page_limit_reason, took_page, PageView, StepView,
    SweepView, MAX_PAGES,
};
use crate::text::decimal;
use crate::wire::failure::ProtocolViolationKind;
use crate::wire::page::CursorResumable;
use crate::wire::status::status_of;
use vstd::prelude::*;

verus! {

/// A page without a status of the swept resource ends the sweep: nothing of it is stored,
/// and the crawl's row and the report say which page it was.
pub proof fn law_a_page_without_a_status_ends_the_sweep(s: StoreView, w: SweepView, p: PageView)
    requires
        status_of(p.statuses, w.input.resource_id) is None,
    ensures
        ({
            let reason = "page_"@ + decimal(w.page_number)
                + "_reported_no_status_for_this_resource"@;
            &&& took_page(s, w, p.records, p.statuses, p.violation).0 == s.with_verdict(
                w.crawl_id,
                false,
                false,
                Some(reason),
            )
            &&& took_page(s, w, p.records, p.statuses, p.violation).1 == StepView::Done(
                ReportView { disqualified_reason: Some(reason), error: Some(reason), ..w.report },
            )
        }),
{
}

/// A page that names another one stores the resource's own records, moves the crawl's place
/// to resume from, and lets the sweep go on with the page that it named, counting on.
pub proof fn law_a_page_leads_to_the_next(s: StoreView, w: SweepView, p: PageView)
    requires
        status_of(p.statuses, w.input.resource_id) matches Some(status) && status.page matches Some(
            page,
        ) && page.next is Some,
        w.page_number + 1 < 100_000,
    ensures
        ({
            let page = status_of(p.statuses, w.input.resource_id)->0.page->0;
            let (t, step) = took_page(s, w, p.records, p.statuses, p.violation);
            let (after, n) = ingested_all(
                s,
                w.input,
                w.crawl_id,
                own_records(p.records, w.input.adapter_id, w.input.resource_id),
            );
            &&& step is Next
            &&& step->Next_0.page == page.next
            &&& step->Next_0.page_number == w.page_number + 1
            &&& step->Next_0.crawl_id == w.crawl_id
            &&& step->Next_0.input == w.input
            &&& step->Next_0.now == w.now
            &&& step->Next_0.report == (ReportView {
                new: w.report.new + n.new,
                revised: w.report.revised + n.revised,
                unchanged: w.report.unchanged + n.unchanged,
                ..w.report
            })
            &&& step->Next_0.resume.start == w.resume.start
            &&& step->Next_0.resume.resumable == Some(page.cursor_resumable)
            &&& t == after.with_cursor(
                w.crawl_id,
                if page.cursor_resumable == CursorResumable::Exact {
                    page.next
                } else {
                    w.resume.start
                },
            )
        }),
{
}

/// The number of pages after which a sweep is given up.
pub proof fn law_how_many_pages_are_too_many()
    ensures
        MAX_PAGES == 100_000,
        page_limit_reason() == "page_limit_100000_reached_without_draining"@,
{
    reveal_strlit("page_limit_100000_reached_without_draining");
    reveal_strlit("page_limit_");
    reveal_strlit("_reached_without_draining");
    reveal_with_fuel(decimal, 7);
    assert(decimal(100000) =~= seq!['1', '0', '0', '0', '0', '0']);
    assert(page_limit_reason() =~= "page_limit_100000_reached_without_draining"@);
}

/// A sweep that is led on for too long is given up: what it stored stays, and so does its
/// place to resume from.
pub proof fn law_an_endless_sweep_is_given_up(s: StoreView, w: SweepView, p: PageView)
    requires
        status_of(p.statuses, w.input.resource_id) matches Some(status) && status.page matches Some(
            page,
        ) && page.next is Some,
        w.page_number + 1 >= 100_000,
    ensures
        ({
            let page = status_of(p.statuses, w.input.resource_id)->0.page->0;
            let (t, step) = took_page(s, w, p.records, p.statuses, p.violation);
            let (after, n) = ingested_all(
                s,
                w.input,
                w.crawl_id,
                own_records(p.records, w.input.adapter_id, w.input.resource_id),
            );
            let reason = "page_limit_100000_reached_without_draining"@;
            &&& t == after.with_cursor(
                w.crawl_id,
                if page.cursor_resumable == CursorResumable::Exact {
                    page.next
                } else {
                    w.resume.start
                },
            ).with_verdict(w.crawl_id, false, false, Some(reason))
            &&& step == StepView::Done(
                ReportView {
                    new: w.report.new + n.new,
                    revised: w.report.revised + n.revised,
                    unchanged: w.report.unchanged + n.unchanged,
                    disqualified_reason: Some(reason),
                    error: Some(reason),
                    ..w.report
                },
            )
        }),
{
    law_how_many_pages_are_too_many();
}

/// A page that names no other stores the resource's own records and commits the sweep,
/// with all that it has seen until then.
pub proof fn law_a_last_page_commits(s: StoreView, w: SweepView, p: PageView)
    requires
        status_of(p.statuses, w.input.resource_id) matches Some(status) && (
        status.page matches Some(page) ==> page.next is None),
    ensures
        ({
            let (t, step) = took_page(s, w, p.records, p.statuses, p.violation);
            let (after, n) = ingested_all(
                s,
                w.input,
                w.crawl_id,
                own_records(p.records, w.input.adapter_id, w.input.resource_id),
            );
            exists|v: SweepView|
                {
                    &&& (t, step) == ({
                        let (last, report) = #[trigger] committed(after, v, p.violation);
                        (last, StepView::Done(report))
                    })
                    &&& v.input == w.input
                    &&& v.crawl_id == w.crawl_id
                    &&& v.now == w.now
                    &&& v.report.new == w.report.new + n.new
                    &&& v.report.revised == w.report.revised + n.revised
                    &&& v.report.unchanged == w.report.unchanged + n.unchanged
                    &&& v.report.error == w.report.error
                    &&& v.gate.drained == (status_of(
                        p.statuses,
                        w.input.resource_id,
                    )->0.page is Some)
                }
        }),
{
    let status = status_of(p.statuses, w.input.resource_id)->0;
    let (after, n) = ingested_all(
        s,
        w.input,
        w.crawl_id,
        own_records(p.records, w.input.adapter_id, w.input.resource_id),
    );
    let v = crate::store::sweep::advanced(w, p.records, status, n);
    assert(took_page(s, w, p.records, p.statuses, p.violation) == ({
        let (last, report) = committed(after, v, p.violation);
        (last, StepView::Done(report))
    }));
}

/// A commit writes down what the sweep concludes if nothing counts against it, and nothing
/// if something does; either way the derivation and the definition that it ran under, and
/// its verdict. The vantage is adopted only by a complete one.
pub proof fn law_what_a_commit_writes(
    s: StoreView,
    w: SweepView,
    violation: Option<ProtocolViolationKind>,
)
    ensures
        ({
            let reason = gate_at_commit(w.gate, violation).disqualifier();
            let c = if reason is None {
                conclusion(s, w.input, w.crawl_id, w.now, w.observed, w.exempt)
            } else {
                Conclusion { retractions: Seq::empty(), notes: Seq::empty() }
            };
            let (t, report) = committed(s, w, violation);
            &&& t == concluded(s, w.input, w.crawl_id, w.now, c).with_derivation(
                w.input.adapter_id,
                w.input.hello_derivation,
            ).with_definition(
                w.input.adapter_id,
                w.input.resource_id,
                w.input.fingerprint,
                if reason is None {
                    Some(w.input.provider_id)
                } else {
                    None
                },
            ).with_verdict(w.crawl_id, w.gate.drained, reason is None, reason)
            &&& report == (ReportView {
                complete: reason is None,
                disqualified_reason: reason,
                retracted: c.retractions.len(),
                discrepancies: c.notes,
                ..w.report
            })
        }),
{
}

} // verus!
