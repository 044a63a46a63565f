//! The sweep: one read of one resource's history, page by page, and the
//! retractions it does or does not earn.
//!
//! The caller performs the reads. Each step here takes what a read brought and
//! makes everything of it at once: one step is one transaction.

use crate::host::failure::{HostError, HostErrorView};
use crate::host::fold::Fold;
use crate::host::paging::{recorded, ResumeState, ResumeView};
use crate::host::reads::HistoryRead;
use crate::store::error::StoreError;
use crate::store::gate::{judge_page, judged, named, Gate, GateView};
use crate::store::ingest::{
    admits_all, ingest_page, ingested_all, lemma_ingested_all, Counts,
};
use crate::store::live::replay;
use crate::store::model::{
    arrivals_of, crawl_ids, is_crawl, next_id, observation_ids, StoreView,
};
use crate::store::report::{InputView, NoteView, ReportView, SweepInput, SweepReport};
use crate::store::retract::{concluded, conclusion, derive_retractions, Conclusion};
use crate::store::rows::RetractionView;
use crate::store::tables::{
    finish_crawl, high_water, lemma_crawls_stay, mark_of, open_crawl, repeated, resumable_crawl,
    retraction_high_water, set_adapter_derivation, set_crawl_cursor, set_resource_definition, Store,
};
use crate::text::{copy_opt, decimal, lemma_views_push, push_decimal, same, views};
use crate::wire::failure::{ProtocolViolationKind, WireErrorCode};
use crate::wire::page::{copy_page, PageRequest, ResourceQuery};
use crate::wire::record::{Observation, ObservationView};
use crate::wire::status::{find_status, status_of, StatusView};
use vstd::prelude::*;

verus! {

/// Where a sweep gives up on an adapter that never comes to an end.
pub const MAX_PAGES: usize = 100_000;

/// Whether a failed call means that the connection broke the wire contract, and
/// not merely that it failed.
pub open spec fn breaks_contract(error: HostErrorView) -> bool {
    match error {
        HostErrorView::Wire(err) => err.code == WireErrorCode::InvalidRequest,
        HostErrorView::ProtocolViolation(_) => true,
        _ => false,
    }
}

/// Tells a broken contract from an honest failure.
pub fn broke_the_contract(error: &HostError) -> (r: bool)
    ensures
        r == breaks_contract(error@),
{
    match error {
        HostError::Wire(err) => err.code == WireErrorCode::InvalidRequest,
        HostError::ProtocolViolation(_) => true,
        HostError::Timeout => false,
        HostError::AdapterCrashed { .. } => false,
        HostError::Spawn(_) => false,
        HostError::IdsExhausted => false,
    }
}

/// Where a resume picks up. A cursor means nothing under another derivation or
/// another definition than the one it was given under, so there it is dropped.
pub open spec fn resume_place(s: StoreView, input: InputView) -> Option<PageRequest> {
    match s.resumable(input.adapter_id, input.resource_id) {
        Some(crawl) => if crawl.local_id_derivation == input.hello_derivation && crawl.fingerprint
            == Some(input.fingerprint) {
            crawl.next_page
        } else {
            None
        },
        None => None,
    }
}

/// Where a resume picks up, if there is a place that is safe.
pub fn resume_point(store: &Store, input: &SweepInput) -> (r: Option<PageRequest>)
    ensures
        r == resume_place(store@, input@),
{
    match resumable_crawl(store, input.adapter_id.as_str(), input.resource_id.as_str()) {
        Some(crawl) => {
            let defined = match &crawl.fingerprint {
                Some(fingerprint) => same(fingerprint.as_str(), input.fingerprint.as_str()),
                None => false,
            };
            if same(crawl.local_id_derivation.as_str(), input.hello_derivation.as_str())
                && defined {
                crawl.next_page
            } else {
                None
            }
        },
        None => None,
    }
}

/// Where a sweep starts: at the start of history, unless a resume was asked for
/// and there is a place to resume from.
pub open spec fn start_of(s: StoreView, input: InputView) -> Option<PageRequest> {
    if input.options.resume {
        resume_place(s, input)
    } else {
        None
    }
}

/// How far a sweep has come.
pub struct SweepView {
    pub input: InputView,
    pub crawl_id: int,
    pub gate: GateView,
    pub resume: ResumeView,
    /// The page to ask for next.
    pub page: Option<PageRequest>,
    pub page_number: nat,
    pub observed: Seq<Seq<char>>,
    pub exempt: Seq<Seq<char>>,
    pub now: Seq<char>,
    pub report: ReportView,
}

/// A sweep that was just begun.
pub open spec fn begun(s: StoreView, input: InputView, now: Seq<char>) -> SweepView {
    let start = start_of(s, input);
    SweepView {
        input,
        crawl_id: next_id(crawl_ids(s.crawls)),
        gate: GateView {
            began_at_start_of_history: start is None,
            drained: false,
            every_page_fetched: true,
            anonymous_degrade: false,
            every_cursor_exact: true,
            hello_derivation: input.hello_derivation,
            foreign_provenance: false,
            not_fetched: None,
            connection_violation: input.connection_violation,
        },
        resume: ResumeView { start, resumable: None, exact_next: None },
        page: start,
        page_number: 0,
        observed: Seq::empty(),
        exempt: Seq::empty(),
        now,
        report: ReportView {
            crawl_id: Some(next_id(crawl_ids(s.crawls)) as i64),
            ..ReportView::unbegun(input.adapter_id, input.resource_id)
        },
    }
}

/// The store after a sweep was begun.
pub open spec fn opened(s: StoreView, input: InputView, now: Seq<char>) -> StoreView {
    s.with_crawl(
        input.adapter_id,
        input.resource_id,
        now,
        start_of(s, input),
        input.hello_derivation,
        Some(input.fingerprint),
    )
}

/// The records of a page that belong to the swept resource.
pub open spec fn own_records(
    records: Seq<ObservationView>,
    adapter_id: Seq<char>,
    resource_id: Seq<char>,
) -> Seq<ObservationView>
    decreases records.len(),
{
    if records.len() == 0 {
        Seq::empty()
    } else {
        let before = own_records(records.drop_last(), adapter_id, resource_id);
        let o = records.last();
        if o.provenance.adapter_id == adapter_id && o.resource_id == resource_id {
            before.push(o)
        } else {
            before
        }
    }
}

/// Whether a page carries a record that names another adapter, under whatever
/// resource.
pub open spec fn has_foreign(records: Seq<ObservationView>, adapter_id: Seq<char>) -> bool {
    exists|i: int|
        0 <= i < records.len() && (#[trigger] records[i]).provenance.adapter_id != adapter_id
}

/// The ids of records.
pub open spec fn ids_of(records: Seq<ObservationView>) -> Seq<Seq<char>> {
    Seq::new(records.len(), |i: int| records[i].local_id)
}

/// What one step of a sweep comes to.
pub enum StepView {
    Next(SweepView),
    Done(ReportView),
}

/// The report of a sweep that could not go on.
pub open spec fn stopped(report: ReportView, reason: Seq<char>) -> ReportView {
    ReportView { disqualified_reason: Some(reason), error: Some(reason), ..report }
}

/// The reason of a sweep whose read failed.
pub open spec fn failure_reason(w: SweepView, error: HostErrorView) -> Seq<char> {
    "adapter_failed_on_page_"@ + decimal(w.page_number) + ": "@ + error.message()
}

/// The report of a sweep whose read failed.
pub open spec fn failed_report(w: SweepView, error: HostErrorView) -> ReportView {
    stopped(
        ReportView {
            contract_violation: if breaks_contract(error) {
                Some("history.read broke the wire contract: "@ + error.message())
            } else {
                w.report.contract_violation
            },
            ..w.report
        },
        failure_reason(w, error),
    )
}

/// A sweep after a page, before it is asked whether that was the last.
pub open spec fn advanced(
    w: SweepView,
    records: Seq<ObservationView>,
    status: StatusView,
    counts: Counts,
) -> SweepView {
    let own = own_records(records, w.input.adapter_id, w.input.resource_id);
    let next = next_page(status);
    SweepView {
        gate: GateView {
            foreign_provenance: w.gate.foreign_provenance || has_foreign(
                records,
                w.input.adapter_id,
            ),
            drained: next is None && status.page is Some,
            ..judged(w.gate, status, w.page_number)
        },
        resume: match status.page {
            Some(page) => recorded(w.resume, page.cursor_resumable, page.next),
            None => w.resume,
        },
        page: next,
        observed: w.observed + ids_of(own),
        exempt: w.exempt + named(status.degraded),
        report: ReportView {
            new: w.report.new + counts.new,
            revised: w.report.revised + counts.revised,
            unchanged: w.report.unchanged + counts.unchanged,
            ..w.report
        },
        ..w
    }
}

/// The page that a status says comes next. A read that did not happen names
/// none, and is no drained one either.
pub open spec fn next_page(status: StatusView) -> Option<PageRequest> {
    match status.page {
        Some(page) => page.next,
        None => None,
    }
}

/// What a sweep is judged by at the moment of its commit: what the connection has
/// done by now counts, though every reply that the sweep was handed is a good one.
pub open spec fn gate_at_commit(g: GateView, violation: Option<ProtocolViolationKind>) -> GateView {
    match (g.connection_violation, violation) {
        (None, Some(kind)) => GateView {
            connection_violation: Some(
                "the connection broke the wire contract: "@ + kind.spec_name(),
            ),
            ..g
        },
        _ => g,
    }
}

/// What the last page of a sweep concludes; nothing if the sweep is partial.
pub open spec fn concludes(s: StoreView, w: SweepView, gate: GateView) -> Conclusion {
    if gate.disqualifier() is None {
        conclusion(s, w.input, w.crawl_id, w.now, w.observed, w.exempt)
    } else {
        Conclusion { retractions: Seq::empty(), notes: Seq::empty() }
    }
}

/// The store and the report after the last page: retractions only if nothing counts
/// against the sweep, and the vantage is adopted only then.
pub open spec fn committed(
    s: StoreView,
    w: SweepView,
    violation: Option<ProtocolViolationKind>,
) -> (StoreView, ReportView) {
    let gate = gate_at_commit(w.gate, violation);
    let reason = gate.disqualifier();
    let complete = reason is None;
    let c = concludes(s, w, gate);
    (
        concluded(s, w.input, w.crawl_id, w.now, c).with_derivation(
            w.input.adapter_id,
            w.input.hello_derivation,
        ).with_definition(
            w.input.adapter_id,
            w.input.resource_id,
            w.input.fingerprint,
            if complete {
                Some(w.input.provider_id)
            } else {
                None
            },
        ).with_verdict(w.crawl_id, gate.drained, complete, reason),
        ReportView {
            complete,
            disqualified_reason: reason,
            retracted: c.retractions.len(),
            discrepancies: c.notes,
            ..w.report
        },
    )
}

/// The reason of a sweep that a page said nothing to.
pub open spec fn no_status_reason(page_number: nat) -> Seq<char> {
    "page_"@ + decimal(page_number) + "_reported_no_status_for_this_resource"@
}

/// The reason of a sweep that never came to an end.
pub open spec fn page_limit_reason() -> Seq<char> {
    "page_limit_"@ + decimal(MAX_PAGES as nat) + "_reached_without_draining"@
}

/// Whether every record that a page brings to a sweep can be stored.
pub open spec fn admits_page(
    s: StoreView,
    w: SweepView,
    records: Seq<ObservationView>,
    statuses: Seq<StatusView>,
) -> bool {
    status_of(statuses, w.input.resource_id) is Some ==> admits_all(
        s,
        w.input,
        w.crawl_id,
        own_records(records, w.input.adapter_id, w.input.resource_id),
    )
}

/// What a page makes of a store and a sweep.
pub open spec fn took_page(
    s: StoreView,
    w: SweepView,
    records: Seq<ObservationView>,
    statuses: Seq<StatusView>,
    violation: Option<ProtocolViolationKind>,
) -> (StoreView, StepView) {
    match status_of(statuses, w.input.resource_id) {
        None => {
            let reason = no_status_reason(w.page_number);
            (
                s.with_verdict(w.crawl_id, false, false, Some(reason)),
                StepView::Done(stopped(w.report, reason)),
            )
        },
        Some(status) => {
            let own = own_records(records, w.input.adapter_id, w.input.resource_id);
            let (after, counts) = ingested_all(s, w.input, w.crawl_id, own);
            let now = advanced(w, records, status, counts);
            if now.page is None {
                let (last, report) = committed(after, now, violation);
                (last, StepView::Done(report))
            } else {
                let moved = after.with_cursor(
                    w.crawl_id,
                    crate::host::paging::resume_point(now.resume),
                );
                if w.page_number + 1 >= MAX_PAGES {
                    let reason = page_limit_reason();
                    (
                        moved.with_verdict(w.crawl_id, false, false, Some(reason)),
                        StepView::Done(stopped(now.report, reason)),
                    )
                } else {
                    (
                        moved,
                        StepView::Next(SweepView { page_number: w.page_number + 1, ..now }),
                    )
                }
            }
        },
    }
}

/// A page that a sweep is served, and what the connection has been caught at by
/// then.
pub struct PageView {
    pub records: Seq<ObservationView>,
    pub statuses: Seq<StatusView>,
    pub violation: Option<ProtocolViolationKind>,
}

/// What these pages make of a store and a sweep, one by one. Once the sweep is
/// over, no page changes anything.
pub open spec fn took_pages(s: StoreView, w: SweepView, pages: Seq<PageView>) -> (
    StoreView,
    StepView,
)
    decreases pages.len(),
{
    if pages.len() == 0 {
        (s, StepView::Next(w))
    } else {
        let (before, step) = took_pages(s, w, pages.drop_last());
        let p = pages.last();
        match step {
            StepView::Next(next) => took_page(before, next, p.records, p.statuses, p.violation),
            StepView::Done(_) => (before, step),
        }
    }
}

/// A sweep in progress.
pub struct Sweep {
    input: SweepInput,
    crawl_id: i64,
    gate: Gate,
    resume_state: ResumeState,
    page: Option<PageRequest>,
    page_number: usize,
    observed_ids: Vec<String>,
    exempt_ids: Vec<String>,
    now: String,
    report: SweepReport,
    fold: Fold,
    marks: Vec<(String, u64)>,
}

impl View for Sweep {
    type V = SweepView;

    closed spec fn view(&self) -> SweepView {
        SweepView {
            input: self.input@,
            crawl_id: self.crawl_id as int,
            gate: self.gate@,
            resume: self.resume_state@,
            page: self.page,
            page_number: self.page_number as nat,
            observed: views(self.observed_ids@),
            exempt: views(self.exempt_ids@),
            now: self.now@,
            report: self.report@,
        }
    }
}

/// What one step of a sweep comes to.
pub enum Step {
    /// There is another page to ask for.
    Next(Sweep),
    /// The sweep is over.
    Done(SweepReport),
}

impl View for Step {
    type V = StepView;

    open spec fn view(&self) -> StepView {
        match self {
            Step::Next(sweep) => StepView::Next(sweep@),
            Step::Done(report) => StepView::Done(report@),
        }
    }
}

/// Whether what a sweep remembers of the store is what the store holds.
pub open spec fn in_step(
    arrivals: Seq<ObservationView>,
    marks: Seq<(String, u64)>,
    crawl_id: int,
    adapter_id: Seq<char>,
    s: StoreView,
) -> bool {
    &&& arrivals == arrivals_of(s.observations, adapter_id)
    &&& forall|local_id: Seq<char>|
        #[trigger] mark_of(marks, local_id) == high_water(s.retractions, adapter_id, local_id)
    &&& is_crawl(s.crawls, crawl_id)
}

impl Sweep {
    /// Whether the sweep is one of this store, which nothing else has changed
    /// since.
    pub closed spec fn follows(self, s: StoreView) -> bool {
        &&& in_step(self.fold@, self.marks@, self.crawl_id as int, self.input@.adapter_id, s)
        &&& self.page_number < MAX_PAGES
    }

    /// Begins a sweep: opens its crawl, at the start of history or, if that was
    /// asked for, where an earlier one stopped.
    pub fn begin(store: &mut Store, input: SweepInput, now: &str) -> (r: Sweep)
        requires
            next_id(crawl_ids(old(store)@.crawls)) <= i64::MAX,
            old(store)@.observations.len() < u64::MAX,
        ensures
            final(store)@ == opened(old(store)@, input@, now@),
            r@ == begun(old(store)@, input@, now@),
            r.follows(final(store)@),
    {
        let ghost s = store@;
        let start = if input.options.resume {
            resume_point(store, &input)
        } else {
            None
        };
        let crawl_id = open_crawl(
            store,
            input.adapter_id.as_str(),
            input.resource_id.as_str(),
            now,
            &start,
            input.hello_derivation.as_str(),
            Some(input.fingerprint.as_str()),
        );
        let fold = replay(store, input.adapter_id.as_str());
        let marks = retraction_high_water(store, input.adapter_id.as_str());
        let mut report = SweepReport::empty(
            input.adapter_id.as_str(),
            input.resource_id.as_str(),
        );
        report.crawl_id = Some(crawl_id);
        let gate = Gate {
            began_at_start_of_history: start.is_none(),
            drained: false,
            every_page_fetched: true,
            anonymous_degrade: false,
            every_cursor_exact: true,
            hello_derivation: input.hello_derivation.clone(),
            foreign_provenance: false,
            not_fetched: None,
            connection_violation: copy_opt(&input.connection_violation),
        };
        let r = Sweep {
            input,
            crawl_id,
            gate,
            resume_state: ResumeState::new(copy_page(&start)),
            page: start,
            page_number: 0,
            observed_ids: Vec::new(),
            exempt_ids: Vec::new(),
            now: now.to_owned(),
            report,
            fold,
            marks,
        };
        proof {
            assert(r@.observed =~= Seq::<Seq<char>>::empty());
            assert(r@.exempt =~= Seq::<Seq<char>>::empty());
            assert(store@.crawls[s.crawls.len() as int].crawl_id == crawl_id);
        }
        r
    }

    /// What to ask the adapter for.
    pub fn request(&self) -> (r: ResourceQuery)
        ensures
            r.resource_id@ == self@.input.resource_id,
            r.page == self@.page,
    {
        ResourceQuery { resource_id: self.input.resource_id.clone(), page: copy_page(&self.page) }
    }

    /// Ends a sweep whose read failed. The crawl stays where it is: what was
    /// committed stays, and nothing is retracted.
    pub fn on_failure(self, store: &mut Store, error: &HostError) -> (r: SweepReport)
        ensures
            final(store)@ == old(store)@.with_verdict(
                self@.crawl_id,
                false,
                false,
                Some(failure_reason(self@, error@)),
            ),
            r@ == failed_report(self@, error@),
    {
        let message = error.to_string();
        let mut reason = "adapter_failed_on_page_".to_owned();
        push_decimal(&mut reason, self.page_number as u64);
        reason.append(": ");
        reason.append(message.as_str());
        let mut report = self.report;
        if broke_the_contract(error) {
            let mut violation = "history.read broke the wire contract: ".to_owned();
            violation.append(message.as_str());
            report.contract_violation = Some(violation);
        }
        stop(store, self.crawl_id, report, reason)
    }
}

fn stop(store: &mut Store, crawl_id: i64, report: SweepReport, reason: String) -> (r: SweepReport)
    ensures
        final(store)@ == old(store)@.with_verdict(crawl_id as int, false, false, Some(reason@)),
        r@ == stopped(report@, reason@),
{
    let mut report = report;
    let why = Some(reason.clone());
    finish_crawl(store, crawl_id, false, false, &why);
    report.disqualified_reason = why;
    report.error = Some(reason);
    report
}

proof fn lemma_foreign_step(records: Seq<ObservationView>, adapter_id: Seq<char>)
    requires
        records.len() > 0,
    ensures
        has_foreign(records, adapter_id) == (has_foreign(records.drop_last(), adapter_id)
            || records.last().provenance.adapter_id != adapter_id),
{
    let front = records.drop_last();
    if has_foreign(front, adapter_id) {
        let i = choose|i: int|
            0 <= i < front.len() && (#[trigger] front[i]).provenance.adapter_id != adapter_id;
        assert(records[i].provenance.adapter_id != adapter_id);
    }
    if has_foreign(records, adapter_id) {
        let i = choose|i: int|
            0 <= i < records.len() && (#[trigger] records[i]).provenance.adapter_id != adapter_id;
        if i < front.len() {
            assert(front[i].provenance.adapter_id != adapter_id);
        }
    }
    if records.last().provenance.adapter_id != adapter_id {
        assert(records[records.len() - 1].provenance.adapter_id != adapter_id);
    }
}

/// Takes the records of the swept resource out of a page. A record that names
/// another adapter is refused: there is nowhere honest to put it, and it must
/// not count as one that this adapter reported.
fn sort_out(
    observations: Vec<Observation>,
    adapter_id: &str,
    resource_id: &str,
    observed_ids: &mut Vec<String>,
) -> (r: (Vec<Observation>, bool))
    ensures
        views(r.0@) == own_records(views(observations@), adapter_id@, resource_id@),
        r.1 == has_foreign(views(observations@), adapter_id@),
        views(final(observed_ids)@) == views(old(observed_ids)@) + ids_of(views(r.0@)),
        r.0@.len() <= observations@.len(),
        forall|i: int|
            0 <= i < r.0@.len() ==> (#[trigger] r.0@[i])@.provenance.adapter_id == adapter_id@,
{
    let ghost all = views(observations@);
    let ghost given = observations@;
    let ghost before = views(observed_ids@);
    let mut own: Vec<Observation> = Vec::new();
    let mut foreign = false;
    proof {
        assert(views(own@) =~= own_records(all.take(0), adapter_id@, resource_id@));
        assert(before =~= before + ids_of(views(own@)));
    }
    for o in iter: observations
        invariant
            iter.seq() == given,
            all == views(given),
            views(own@) == own_records(
                all.take(iter.index() as int),
                adapter_id@,
                resource_id@,
            ),
            foreign == has_foreign(all.take(iter.index() as int), adapter_id@),
            views(observed_ids@) == before + ids_of(views(own@)),
            own@.len() <= iter.index(),
            forall|i: int|
                0 <= i < own@.len() ==> (#[trigger] own@[i])@.provenance.adapter_id == adapter_id@,
    {
        let ghost k = iter.index() as int;
        let ghost front = all.take(k + 1);
        proof {
            assert(front.drop_last() =~= all.take(k));
            assert(front.last() == o@);
            lemma_foreign_step(front, adapter_id@);
        }
        if !same(o.provenance.adapter_id.as_str(), adapter_id) {
            foreign = true;
        } else if same(o.resource_id.as_str(), resource_id) {
            let id = o.local_id.clone();
            proof {
                lemma_views_push(observed_ids@, id);
                lemma_views_push(own@, o);
                assert(ids_of(views(own@).push(o@)) =~= ids_of(views(own@)).push(id@));
                assert(before + ids_of(views(own@)).push(id@) =~= (before + ids_of(
                    views(own@),
                )).push(id@));
            }
            observed_ids.push(id);
            own.push(o);
        }
    }
    proof {
        assert(all.take(all.len() as int) =~= all);
    }
    (own, foreign)
}

impl Sweep {
    /// Takes one page. The last page of a sweep is one step: its records, what
    /// is concluded from the whole, and the crawl's verdict come together or
    /// not at all. `violation` is what the connection has been caught at by now. A
    /// page with a record that cannot be stored is refused as a whole: the store
    /// stays as it was, and the crawl open.
    pub fn on_page(
        self,
        store: &mut Store,
        read: HistoryRead,
        violation: Option<ProtocolViolationKind>,
    ) -> (r: Result<Step, StoreError>)
        requires
            self.follows(old(store)@),
            next_id(observation_ids(old(store)@.observations)) + read.observations@.len() - 1
                <= i64::MAX,
            old(store)@.observations.len() + read.observations@.len() <= i64::MAX,
            self@.report.new + self@.report.revised + self@.report.unchanged
                + read.observations@.len() <= usize::MAX,
        ensures
            ({
                let admitted = admits_page(
                    old(store)@,
                    self@,
                    views(read.observations@),
                    views(read.statuses@),
                );
                match r {
                    Ok(step) => {
                        &&& admitted
                        &&& (final(store)@, step@) == took_page(
                            old(store)@,
                            self@,
                            views(read.observations@),
                            views(read.statuses@),
                            violation,
                        )
                        &&& step matches Step::Next(sweep) ==> sweep.follows(final(store)@)
                    },
                    Err(e) => !admitted && final(store)@ == old(store)@ && e@ == repeated(),
                }
            }),
    {
        let ghost s = store@;
        let ghost w = self@;
        let ghost records = views(read.observations@);
        let ghost statuses = views(read.statuses@);
        let sweep = self;
        let at = match find_status(
            read.statuses.as_slice(),
            sweep.input.resource_id.as_str(),
        ) {
            Some(at) => at,
            None => {
                let mut reason = "page_".to_owned();
                push_decimal(&mut reason, sweep.page_number as u64);
                reason.append("_reported_no_status_for_this_resource");
                return Ok(Step::Done(stop(store, sweep.crawl_id, sweep.report, reason)));
            },
        };
        let status = &read.statuses[at];
        proof {
            assert(status_of(statuses, w.input.resource_id) == Some(status@));
        }
        let mut sweep = match sweep.advance(store, status, read.observations) {
            Ok(sweep) => sweep,
            Err(e) => {
                return Err(e);
            },
        };
        let last = sweep.page.is_none();
        if last {
            return Ok(Step::Done(sweep.commit(store, violation)));
        }
        let ghost mid = store@;
        set_crawl_cursor(store, sweep.crawl_id, sweep.resume_state.next_request());
        proof {
            lemma_crawls_stay(mid.crawls, store@.crawls);
        }
        if sweep.page_number + 1 >= MAX_PAGES {
            let mut reason = "page_limit_".to_owned();
            push_decimal(&mut reason, MAX_PAGES as u64);
            reason.append("_reached_without_draining");
            return Ok(Step::Done(stop(store, sweep.crawl_id, sweep.report, reason)));
        }
        sweep.page_number = sweep.page_number + 1;
        Ok(Step::Next(sweep))
    }

    /// Takes a page's status and its records.
    fn advance(
        self,
        store: &mut Store,
        status: &crate::wire::status::ResourceStatus,
        observations: Vec<Observation>,
    ) -> (r: Result<Sweep, StoreError>)
        requires
            self.follows(old(store)@),
            next_id(observation_ids(old(store)@.observations)) + observations@.len() - 1
                <= i64::MAX,
            old(store)@.observations.len() + observations@.len() <= i64::MAX,
            self@.report.new + self@.report.revised + self@.report.unchanged + observations@.len()
                <= usize::MAX,
        ensures
            ({
                let own = own_records(
                    views(observations@),
                    self@.input.adapter_id,
                    self@.input.resource_id,
                );
                let admitted = admits_all(old(store)@, self@.input, self@.crawl_id, own);
                let (after, counts) = ingested_all(
                    old(store)@,
                    self@.input,
                    self@.crawl_id,
                    own,
                );
                match r {
                    Ok(sweep) => {
                        &&& admitted
                        &&& final(store)@ == after
                        &&& after.observations.len() <= i64::MAX
                        &&& sweep@ == advanced(self@, views(observations@), status@, counts)
                        &&& sweep.follows(after)
                    },
                    Err(e) => !admitted && final(store)@ == old(store)@ && e@ == repeated(),
                }
            }),
    {
        let ghost s = store@;
        let ghost w = self@;
        let Sweep {
            input,
            crawl_id,
            mut gate,
            mut resume_state,
            page: _,
            page_number,
            mut observed_ids,
            mut exempt_ids,
            now,
            mut report,
            mut fold,
            marks,
        } = self;
        judge_page(&mut gate, status, page_number, &mut exempt_ids);
        let (own, foreign) = sort_out(
            observations,
            input.adapter_id.as_str(),
            input.resource_id.as_str(),
            &mut observed_ids,
        );
        if foreign {
            gate.foreign_provenance = true;
        }
        let page = match &status.page {
            Some(page) => {
                resume_state.record(page.cursor_resumable, copy_page(&page.next));
                copy_page(&page.next)
            },
            None => None,
        };
        gate.drained = page.is_none() && status.page.is_some();
        let counts = match ingest_page(store, &input, crawl_id, &mut fold, &marks, &own) {
            Ok(counts) => counts,
            Err(e) => {
                return Err(e);
            },
        };
        proof {
            lemma_ingested_all(s, w.input, w.crawl_id, views(own@));
        }
        report.new = report.new + counts.new;
        report.revised = report.revised + counts.revised;
        report.unchanged = report.unchanged + counts.unchanged;
        Ok(
            Sweep {
                input,
                crawl_id,
                gate,
                resume_state,
                page,
                page_number,
                observed_ids,
                exempt_ids,
                now,
                report,
                fold,
                marks,
            },
        )
    }

    fn commit(self, store: &mut Store, violation: Option<ProtocolViolationKind>) -> (r: SweepReport)
        requires
            in_step(
                self.fold@,
                self.marks@,
                self.crawl_id as int,
                self.input@.adapter_id,
                old(store)@,
            ),
            old(store)@.observations.len() <= i64::MAX,
        ensures
            (final(store)@, r@) == committed(old(store)@, self@, violation),
    {
        let ghost s = store@;
        let ghost w = self@;
        let mut sweep = self;
        if let Some(kind) = violation {
            if sweep.gate.connection_violation.is_none() {
                let mut what = "the connection broke the wire contract: ".to_owned();
                what.append(kind.name());
                sweep.gate.connection_violation = Some(what);
            }
        }
        proof {
            assert(sweep.gate@ == gate_at_commit(w.gate, violation));
        }
        let mut report = sweep.report;
        let reason = sweep.gate.disqualifier();
        let complete = reason.is_none();
        if complete {
            let outcome = derive_retractions(
                store,
                &sweep.input,
                sweep.crawl_id,
                &sweep.fold,
                &sweep.observed_ids,
                &sweep.exempt_ids,
                sweep.now.as_str(),
            );
            report.complete = true;
            report.retracted = outcome.retracted;
            report.discrepancies = outcome.discrepancies;
        } else {
            proof {
                let none = Conclusion {
                    retractions: Seq::<RetractionView>::empty(),
                    notes: Seq::<NoteView>::empty(),
                };
                assert(s.retractions + none.retractions =~= s.retractions);
                assert(concluded(s, w.input, w.crawl_id, w.now, none) == s);
            }
            report.complete = false;
            report.retracted = 0;
            report.discrepancies = Vec::new();
            proof {
                assert(report@.discrepancies =~= Seq::<NoteView>::empty());
            }
        }
        set_adapter_derivation(
            store,
            sweep.input.adapter_id.as_str(),
            sweep.input.hello_derivation.as_str(),
        );
        set_resource_definition(
            store,
            sweep.input.adapter_id.as_str(),
            sweep.input.resource_id.as_str(),
            sweep.input.fingerprint.as_str(),
            if complete {
                Some(sweep.input.provider_id.as_str())
            } else {
                None
            },
        );
        finish_crawl(store, sweep.crawl_id, sweep.gate.drained, complete, &reason);
        report.disqualified_reason = reason;
        report
    }
}

} // verus!
