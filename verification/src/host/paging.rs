//! The resume policy: what to send again if a paginated read had to be
//! started over right now.
//!
//! The page loop itself advances on each reply's own `next`; what is kept here
//! is only the durable point that survives an interruption.

use crate::wire::page::{copy_page, CursorResumable, PageRequest};
use vstd::prelude::*;

verus! {

/// What is known of one resource's read.
pub struct ResumeView {
    /// What the read started from; `None` is the start of available history.
    pub start: Option<PageRequest>,
    /// The family of the last completed page's cursor.
    pub resumable: Option<CursorResumable>,
    /// The `next` of the last completed page whose cursor was exact.
    pub exact_next: Option<PageRequest>,
}

/// The durable resume point of a read.
pub open spec fn resume_point(v: ResumeView) -> Option<PageRequest> {
    match v.resumable {
        Some(CursorResumable::Exact) => v.exact_next,
        _ => v.start,
    }
}

/// A read after one more completed page.
pub open spec fn recorded(
    v: ResumeView,
    resumable: CursorResumable,
    next: Option<PageRequest>,
) -> ResumeView {
    ResumeView {
        start: v.start,
        resumable: Some(resumable),
        exact_next: if resumable == CursorResumable::Exact {
            next
        } else {
            v.exact_next
        },
    }
}

/// How to resume one resource's read, across any number of pages.
#[derive(Debug)]
pub struct ResumeState {
    start: Option<PageRequest>,
    resumable: Option<CursorResumable>,
    exact_next: Option<PageRequest>,
}

impl View for ResumeState {
    type V = ResumeView;

    closed spec fn view(&self) -> ResumeView {
        ResumeView {
            start: self.start,
            resumable: self.resumable,
            exact_next: self.exact_next,
        }
    }
}

impl ResumeState {
    /// A read that starts at `start` and has completed no page.
    pub fn new(start: Option<PageRequest>) -> (r: ResumeState)
        ensures
            r@ == (ResumeView { start, resumable: None, exact_next: None }),
    {
        ResumeState { start, resumable: None, exact_next: None }
    }

    /// What to send again if the read had to be started over right now, on a
    /// fresh connection. `None` asks for the start of available history, or,
    /// under exact cursors, says that the read is drained.
    pub fn next_request(&self) -> (r: Option<PageRequest>)
        ensures
            r == resume_point(self@),
    {
        match self.resumable {
            None => copy_page(&self.start),
            Some(CursorResumable::Exact) => copy_page(&self.exact_next),
            Some(CursorResumable::BatchRestart) => copy_page(&self.start),
            Some(CursorResumable::NotResumable) => copy_page(&self.start),
        }
    }

    /// Records a page that was received in full.
    pub fn record(&mut self, resumable: CursorResumable, next: Option<PageRequest>)
        ensures
            final(self)@ == recorded(old(self)@, resumable, next),
    {
        self.resumable = Some(resumable);
        if resumable == CursorResumable::Exact {
            self.exact_next = next;
        }
    }
}

/// After a completed page the resume point is that page's `next` under an exact
/// cursor, and the read's own start under any other, whatever came before; the
/// start never moves.
pub proof fn law_only_an_exact_cursor_moves_the_resume_point(
    v: ResumeView,
    resumable: CursorResumable,
    next: Option<PageRequest>,
)
    ensures
        resume_point(recorded(v, resumable, next)) == if resumable == CursorResumable::Exact {
            next
        } else {
            v.start
        },
        recorded(v, resumable, next).start == v.start,
{
}

} // verus!
