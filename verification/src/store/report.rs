//! What a sweep is given, and what it reports.

use crate::text::{opt_view, views};
use crate::wire::record::opt_time_view;
use crate::wire::timestamp::Rfc3339;
use vstd::prelude::*;

verus! {

/// What the user asked of a sweep.
#[derive(Debug, Clone, Copy, PartialEq, Eq, Structural)]
pub struct SweepOptions {
    /// Continue a crawl that was cut short, from where it stopped. Such a sweep
    /// has not seen the history below that place, so it retracts nothing.
    pub resume: bool,
    /// The only way to retract everything that a resource has.
    pub confirm_empty: bool,
}

/// Everything about a resource that is fixed before the first page.
#[derive(Debug)]
pub struct SweepInput {
    /// The adapter that the connection announced.
    pub adapter_id: String,
    pub resource_id: String,
    /// The derivation that the connection serving this sweep announced.
    pub hello_derivation: String,
    /// The resource's definition as it was just listed.
    pub fingerprint: String,
    /// The vantage that this sweep reads from.
    pub provider_id: String,
    /// Where the adapter said that its history begins.
    pub history_start: Option<Rfc3339>,
    /// What the connection already did to the wire contract in this refresh.
    pub connection_violation: Option<String>,
    pub options: SweepOptions,
}

/// What a sweep is given.
pub struct InputView {
    pub adapter_id: Seq<char>,
    pub resource_id: Seq<char>,
    pub hello_derivation: Seq<char>,
    pub fingerprint: Seq<char>,
    pub provider_id: Seq<char>,
    pub history_start: Option<Seq<char>>,
    pub connection_violation: Option<Seq<char>>,
    pub options: SweepOptions,
}

impl View for SweepInput {
    type V = InputView;

    open spec fn view(&self) -> InputView {
        InputView {
            adapter_id: self.adapter_id@,
            resource_id: self.resource_id@,
            hello_derivation: self.hello_derivation@,
            fingerprint: self.fingerprint@,
            provider_id: self.provider_id@,
            history_start: opt_time_view(self.history_start),
            connection_violation: opt_view(self.connection_violation),
            options: self.options,
        }
    }
}

/// Something about a sweep that the user should know.
#[derive(Debug)]
pub struct Discrepancy {
    pub kind: String,
    pub detail: String,
}

/// What a discrepancy says.
pub struct NoteView {
    pub kind: Seq<char>,
    pub detail: Seq<char>,
}

impl View for Discrepancy {
    type V = NoteView;

    open spec fn view(&self) -> NoteView {
        NoteView { kind: self.kind@, detail: self.detail@ }
    }
}

/// How a sweep went.
#[derive(Debug)]
pub struct SweepReport {
    pub adapter_id: String,
    pub resource_id: String,
    pub crawl_id: Option<i64>,
    pub new: usize,
    pub revised: usize,
    pub unchanged: usize,
    pub retracted: usize,
    pub complete: bool,
    pub disqualified_reason: Option<String>,
    pub discrepancies: Vec<Discrepancy>,
    /// Set if the read itself failed.
    pub error: Option<String>,
    /// Set if this sweep's own read broke the wire contract; it counts against
    /// every sweep that the same connection serves after it.
    pub contract_violation: Option<String>,
}

/// What a report says.
pub struct ReportView {
    pub adapter_id: Seq<char>,
    pub resource_id: Seq<char>,
    pub crawl_id: Option<i64>,
    pub new: nat,
    pub revised: nat,
    pub unchanged: nat,
    pub retracted: nat,
    pub complete: bool,
    pub disqualified_reason: Option<Seq<char>>,
    pub discrepancies: Seq<NoteView>,
    pub error: Option<Seq<char>>,
    pub contract_violation: Option<Seq<char>>,
}

impl View for SweepReport {
    type V = ReportView;

    open spec fn view(&self) -> ReportView {
        ReportView {
            adapter_id: self.adapter_id@,
            resource_id: self.resource_id@,
            crawl_id: self.crawl_id,
            new: self.new as nat,
            revised: self.revised as nat,
            unchanged: self.unchanged as nat,
            retracted: self.retracted as nat,
            complete: self.complete,
            disqualified_reason: opt_view(self.disqualified_reason),
            discrepancies: views(self.discrepancies@),
            error: opt_view(self.error),
            contract_violation: opt_view(self.contract_violation),
        }
    }
}

impl ReportView {
    /// The report of a sweep that has not begun.
    pub open spec fn unbegun(adapter_id: Seq<char>, resource_id: Seq<char>) -> ReportView {
        ReportView {
            adapter_id,
            resource_id,
            crawl_id: None,
            new: 0,
            revised: 0,
            unchanged: 0,
            retracted: 0,
            complete: false,
            disqualified_reason: None,
            discrepancies: Seq::empty(),
            error: None,
            contract_violation: None,
        }
    }
}

impl SweepReport {
    /// The report of a sweep that has not begun.
    pub fn empty(adapter_id: &str, resource_id: &str) -> (r: SweepReport)
        ensures
            r@ == ReportView::unbegun(adapter_id@, resource_id@),
    {
        let r = SweepReport {
            adapter_id: adapter_id.to_owned(),
            resource_id: resource_id.to_owned(),
            crawl_id: None,
            new: 0,
            revised: 0,
            unchanged: 0,
            retracted: 0,
            complete: false,
            disqualified_reason: None,
            discrepancies: Vec::new(),
            error: None,
            contract_violation: None,
        };
        proof {
            assert(r@.discrepancies =~= Seq::<NoteView>::empty());
        }
        r
    }
}

} // verus!
