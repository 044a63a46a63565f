//! Whether a sweep is strong enough evidence to conclude that a record is gone.
//!
//! Absence is evidence only if the host is confident that it looked properly: a
//! sweep that fails one condition still leaves what it read in the store, and
//! retracts nothing.

use crate::text::{decimal, opt_view, push_decimal, views};
use crate::wire::page::CursorResumable;
use crate::wire::status::{outcome_name, Degraded, DegradedView, ReadOutcome, ResourceStatus, StatusView};
use vstd::prelude::*;

verus! {

/// What the pages of a sweep showed, judged once at the end.
#[derive(Debug)]
pub struct Gate {
    pub began_at_start_of_history: bool,
    pub drained: bool,
    pub every_page_fetched: bool,
    pub anonymous_degrade: bool,
    pub every_cursor_exact: bool,
    pub hello_derivation: String,
    /// An observation named another adapter than the connection's own.
    pub foreign_provenance: bool,
    /// Which outcome on which page was the first that was not `fetched`.
    pub not_fetched: Option<String>,
    /// What the connection did to the wire contract during this refresh.
    pub connection_violation: Option<String>,
}

/// What a gate has seen.
pub struct GateView {
    pub began_at_start_of_history: bool,
    pub drained: bool,
    pub every_page_fetched: bool,
    pub anonymous_degrade: bool,
    pub every_cursor_exact: bool,
    pub hello_derivation: Seq<char>,
    pub foreign_provenance: bool,
    pub not_fetched: Option<Seq<char>>,
    pub connection_violation: Option<Seq<char>>,
}

impl View for Gate {
    type V = GateView;

    open spec fn view(&self) -> GateView {
        GateView {
            began_at_start_of_history: self.began_at_start_of_history,
            drained: self.drained,
            every_page_fetched: self.every_page_fetched,
            anonymous_degrade: self.anonymous_degrade,
            every_cursor_exact: self.every_cursor_exact,
            hello_derivation: self.hello_derivation@,
            foreign_provenance: self.foreign_provenance,
            not_fetched: opt_view(self.not_fetched),
            connection_violation: opt_view(self.connection_violation),
        }
    }
}

impl GateView {
    /// Why the sweep proves no absence; `None` if it does. The connection's own
    /// conduct counts first: it says that nothing else it said can be trusted.
    pub open spec fn disqualifier(self) -> Option<Seq<char>> {
        if self.connection_violation is Some {
            self.connection_violation
        } else if !self.began_at_start_of_history {
            Some("did not begin at the start of available history"@)
        } else if !self.drained {
            Some("did not drain to next: null"@)
        } else if !self.every_page_fetched {
            match self.not_fetched {
                Some(what) => Some(what),
                None => Some("a page did not report fetched"@),
            }
        } else if self.anonymous_degrade {
            Some("an anonymous degraded record"@)
        } else if !self.every_cursor_exact {
            Some("a page cursor was not exact-resumable"@)
        } else if self.hello_derivation.len() == 0 {
            Some("no hello local_id_derivation on the crawl"@)
        } else if self.foreign_provenance {
            Some("an observation's provenance named another adapter"@)
        } else {
            None
        }
    }

    /// Whether every condition holds.
    pub open spec fn qualifies(self) -> bool {
        &&& self.connection_violation is None
        &&& self.began_at_start_of_history
        &&& self.drained
        &&& self.every_page_fetched
        &&& !self.anonymous_degrade
        &&& self.every_cursor_exact
        &&& self.hello_derivation.len() > 0
        &&& !self.foreign_provenance
    }
}

impl Gate {
    /// Why the sweep proves no absence; `None` if it does.
    pub fn disqualifier(&self) -> (r: Option<String>)
        ensures
            opt_view(r) == self@.disqualifier(),
    {
        if let Some(violation) = &self.connection_violation {
            return Some(violation.clone());
        }
        if !self.began_at_start_of_history {
            return Some("did not begin at the start of available history".to_owned());
        }
        if !self.drained {
            return Some("did not drain to next: null".to_owned());
        }
        if !self.every_page_fetched {
            return match &self.not_fetched {
                Some(what) => Some(what.clone()),
                None => Some("a page did not report fetched".to_owned()),
            };
        }
        if self.anonymous_degrade {
            return Some("an anonymous degraded record".to_owned());
        }
        if !self.every_cursor_exact {
            return Some("a page cursor was not exact-resumable".to_owned());
        }
        if self.hello_derivation.as_str().is_empty() {
            return Some("no hello local_id_derivation on the crawl".to_owned());
        }
        if self.foreign_provenance {
            return Some("an observation's provenance named another adapter".to_owned());
        }
        None
    }
}

/// Whether one of these dropped records is one that nobody can name.
pub open spec fn has_anonymous(degraded: Seq<DegradedView>) -> bool {
    exists|i: int| 0 <= i < degraded.len() && (#[trigger] degraded[i]).local_id is None
}

/// The dropped records that can be named, in order.
pub open spec fn named(degraded: Seq<DegradedView>) -> Seq<Seq<char>>
    decreases degraded.len(),
{
    if degraded.len() == 0 {
        Seq::empty()
    } else {
        let before = named(degraded.drop_last());
        match degraded.last().local_id {
            Some(id) => before.push(id),
            None => before,
        }
    }
}

/// What a sweep is judged by, after one more page's status.
pub open spec fn judged(g: GateView, status: StatusView, page_number: nat) -> GateView {
    let fetched = status.outcome is Fetched;
    GateView {
        every_page_fetched: g.every_page_fetched && fetched,
        not_fetched: if fetched || g.not_fetched is Some {
            g.not_fetched
        } else {
            Some(status.outcome.spec_name() + " on page "@ + decimal(page_number + 1))
        },
        anonymous_degrade: g.anonymous_degrade || has_anonymous(status.degraded),
        every_cursor_exact: g.every_cursor_exact && (status.page matches Some(page)
            ==> page.cursor_resumable == CursorResumable::Exact),
        ..g
    }
}

/// Judges one page's status. A dropped record that is named is exempted by its
/// name; one that is not disqualifies the sweep, however many named ones stand
/// beside it.
pub fn judge_page(
    gate: &mut Gate,
    status: &ResourceStatus,
    page_number: usize,
    exempt_ids: &mut Vec<String>,
)
    requires
        page_number < usize::MAX,
    ensures
        final(gate)@ == judged(old(gate)@, status@, page_number as nat),
        views(final(exempt_ids)@) == views(old(exempt_ids)@) + named(status@.degraded),
{
    let ghost was = gate@;
    let fetched = match &status.outcome {
        ReadOutcome::Fetched { .. } => true,
        _ => false,
    };
    if !fetched {
        gate.every_page_fetched = false;
        if gate.not_fetched.is_none() {
            let mut what = outcome_name(&status.outcome).to_owned();
            what.append(" on page ");
            push_decimal(&mut what, page_number as u64 + 1);
            gate.not_fetched = Some(what);
        }
    }
    if exempt_named(&status.degraded, exempt_ids) {
        gate.anonymous_degrade = true;
    }
    if let Some(page) = &status.page {
        if page.cursor_resumable != CursorResumable::Exact {
            gate.every_cursor_exact = false;
        }
    }
}

/// Exempts the named records, and says whether there was one without a name.
fn exempt_named(degraded: &Vec<Degraded>, exempt_ids: &mut Vec<String>) -> (r: bool)
    ensures
        r == has_anonymous(views(degraded@)),
        views(final(exempt_ids)@) == views(old(exempt_ids)@) + named(views(degraded@)),
{
    let ghost before = views(exempt_ids@);
    let ghost all = views(degraded@);
    let mut anonymous = false;
    let mut i: usize = 0;
    proof {
        assert(before =~= before + named(all.take(0)));
    }
    while i < degraded.len()
        invariant
            i <= degraded@.len(),
            all == views(degraded@),
            anonymous == has_anonymous(all.take(i as int)),
            views(exempt_ids@) == before + named(all.take(i as int)),
        decreases degraded@.len() - i,
    {
        let ghost front = all.take(i + 1);
        let ghost was = exempt_ids@;
        proof {
            assert(front.drop_last() =~= all.take(i as int));
            assert(front.last() == degraded@[i as int]@);
        }
        match &degraded[i].local_id {
            Some(local_id) => {
                let id = local_id.clone();
                proof {
                    crate::text::lemma_views_push(was, id);
                }
                exempt_ids.push(id);
                proof {
                    assert(views(exempt_ids@) =~= before + named(front));
                }
            },
            None => {
                anonymous = true;
            },
        }
        proof {
            lemma_anonymous_step(front);
        }
        i = i + 1;
    }
    proof {
        assert(all.take(i as int) =~= all);
    }
    anonymous
}

proof fn lemma_anonymous_step(degraded: Seq<DegradedView>)
    requires
        degraded.len() > 0,
    ensures
        has_anonymous(degraded) == (has_anonymous(degraded.drop_last())
            || degraded.last().local_id is None),
{
    let front = degraded.drop_last();
    if has_anonymous(front) {
        let i = choose|i: int| 0 <= i < front.len() && (#[trigger] front[i]).local_id is None;
        assert(degraded[i].local_id is None);
    }
    if has_anonymous(degraded) {
        let i = choose|i: int| 0 <= i < degraded.len() && (#[trigger] degraded[i]).local_id is None;
        if i < front.len() {
            assert(front[i].local_id is None);
        }
    }
    if degraded.last().local_id is None {
        assert(degraded[degraded.len() - 1].local_id is None);
    }
}

/// A sweep qualifies exactly if every condition holds.
pub proof fn law_the_gate_asks_for_every_condition(g: GateView)
    ensures
        g.disqualifier() is None <==> g.qualifies(),
{
}

/// What counts against a sweep is never taken back by a later page.
pub proof fn law_a_page_never_mends_a_sweep(g: GateView, status: StatusView, page_number: nat)
    ensures
        ({
            let after = judged(g, status, page_number);
            &&& !g.every_page_fetched ==> !after.every_page_fetched
            &&& g.not_fetched is Some ==> after.not_fetched == g.not_fetched
            &&& g.anonymous_degrade ==> after.anonymous_degrade
            &&& !g.every_cursor_exact ==> !after.every_cursor_exact
            &&& after.foreign_provenance == g.foreign_provenance
            &&& after.connection_violation == g.connection_violation
            &&& after.began_at_start_of_history == g.began_at_start_of_history
        }),
{
}

} // verus!
