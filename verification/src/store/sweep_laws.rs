//! What holds of sweeps, whatever the pages bring.

use crate::host::fold::{
    chain_of, key_of, law_the_latest_arrival_decides, lemma_chain_grows, sorts_after, ChainKey,
};
use crate::host::time::instant_of;
use crate::store::gate::law_the_gate_asks_for_every_condition;
use crate::store::hash::content_digest;
use crate::store::ingest::{ingested, ingested_all, lemma_ingested, lemma_ingested_all, unchanged};
use crate::store::live::{
    law_the_listing_is_the_live_set, live_entry, live_keys, live_listing, LiveView,
};
use crate::store::model::{
    arrivals_of, crawl_ids, newest_resumable, next_id, retired, revisions_at, StoreView,
};
use crate::store::order::Key;
use crate::store::report::{InputView, NoteView};
use crate::store::retract::{
    concluded, conclusion, effective, fate, lemma_reasons_differ, moved_from, noted, reason_for,
    retraction_of, row_of, tally, Fate, KIND_EMPTY, KIND_VANTAGE, REASON_ABSENT, REASON_DERIVATION,
};
use crate::store::rows::{RetractionView, StoredView};
use crate::store::sweep::{
    advanced, begun, committed, concludes, gate_at_commit, opened, own_records, start_of, took_page,
    StepView, SweepView,
};
use crate::store::tables::{high_water, lemma_buried_by_the_mark};
use crate::wire::failure::ProtocolViolationKind;
use crate::wire::record::{ObservationState, ObservationView};
use crate::wire::status::{status_of, StatusView};
use vstd::prelude::*;
use vstd::utf8::encode_utf8;

verus! {

proof fn lemma_noted_keeps(
    s: StoreView,
    input: InputView,
    crawl_id: int,
    now: Seq<char>,
    notes: Seq<NoteView>,
)
    ensures
        ({
            let after = noted(s, input, crawl_id, now, notes);
            &&& after == (StoreView { discrepancies: after.discrepancies, ..s })
            &&& after.discrepancies.len() == s.discrepancies.len() + notes.len()
        }),
    decreases notes.len(),
{
    if notes.len() > 0 {
        lemma_noted_keeps(s, input, crawl_id, now, notes.drop_last());
    }
}

/// What a commit leaves as it is, and what it writes.
proof fn lemma_committed(s: StoreView, w: SweepView, violation: Option<ProtocolViolationKind>)
    ensures
        ({
            let (after, report) = committed(s, w, violation);
            let c = concludes(s, w, gate_at_commit(w.gate, violation));
            &&& after.observations == s.observations
            &&& after.retractions == s.retractions + c.retractions
            &&& after.reads == s.reads
            &&& after.balances == s.balances
        }),
{
    let c = concludes(s, w, gate_at_commit(w.gate, violation));
    lemma_noted_keeps(
        StoreView { retractions: s.retractions + c.retractions, ..s },
        w.input,
        w.crawl_id,
        w.now,
        c.notes,
    );
}

/// A sweep that is not complete retracts nothing and notes nothing: not at its
/// last page, and not at any other.
pub proof fn law_a_partial_sweep_retracts_nothing(
    s: StoreView,
    w: SweepView,
    records: Seq<ObservationView>,
    statuses: Seq<StatusView>,
    violation: Option<ProtocolViolationKind>,
)
    ensures
        ({
            let (after, step) = took_page(s, w, records, statuses, violation);
            let complete = step matches StepView::Done(report) && report.complete;
            !complete ==> after.retractions == s.retractions && after.discrepancies
                == s.discrepancies
        }),
{
    if let Some(status) = status_of(statuses, w.input.resource_id) {
        let own = own_records(records, w.input.adapter_id, w.input.resource_id);
        let (mid, counts) = ingested_all(s, w.input, w.crawl_id, own);
        lemma_ingested_all(s, w.input, w.crawl_id, own);
        let now = advanced(w, records, status, counts);
        if now.page is None && gate_at_commit(now.gate, violation).disqualifier() is Some {
            lemma_committed(mid, now, violation);
            let c = concludes(mid, now, gate_at_commit(now.gate, violation));
            assert(mid.retractions + c.retractions =~= mid.retractions);
            assert(concluded(mid, now.input, now.crawl_id, now.now, c).discrepancies
                == mid.discrepancies);
        }
    }
}

/// Evidence is never thrown away: whatever a page brings, and whatever becomes
/// of the sweep, every record that was stored is still stored as it was, under
/// the same revision.
pub proof fn law_stored_records_stay(
    s: StoreView,
    w: SweepView,
    records: Seq<ObservationView>,
    statuses: Seq<StatusView>,
    violation: Option<ProtocolViolationKind>,
    i: int,
)
    requires
        0 <= i < s.observations.len(),
    ensures
        ({
            let after = took_page(s, w, records, statuses, violation).0;
            &&& i < after.observations.len()
            &&& after.observations[i].observation == s.observations[i].observation
            &&& after.observations[i].revision == s.observations[i].revision
        }),
{
    if let Some(status) = status_of(statuses, w.input.resource_id) {
        let own = own_records(records, w.input.adapter_id, w.input.resource_id);
        let (mid, counts) = ingested_all(s, w.input, w.crawl_id, own);
        lemma_ingested_all(s, w.input, w.crawl_id, own);
        let now = advanced(w, records, status, counts);
        if now.page is None {
            lemma_committed(mid, now, violation);
        }
    }
}

/// A sweep completes only at a last page that leaves it with every condition
/// met, and then always.
pub proof fn law_complete_means_every_condition(
    s: StoreView,
    w: SweepView,
    violation: Option<ProtocolViolationKind>,
)
    ensures
        committed(s, w, violation).1.complete <==> gate_at_commit(w.gate, violation).qualifies(),
        committed(s, w, violation).1.complete ==> violation is None,
{
    law_the_gate_asks_for_every_condition(gate_at_commit(w.gate, violation));
}

/// A sweep that picked up where another stopped never completes, and neither
/// does one on a connection that had already broken the contract: no page
/// changes that.
pub proof fn law_a_tainted_sweep_never_completes(
    s: StoreView,
    w: SweepView,
    records: Seq<ObservationView>,
    statuses: Seq<StatusView>,
    violation: Option<ProtocolViolationKind>,
)
    requires
        !w.gate.began_at_start_of_history || w.gate.connection_violation is Some,
        !w.report.complete,
    ensures
        match took_page(s, w, records, statuses, violation).1 {
            StepView::Next(next) => {
                &&& next.gate.began_at_start_of_history == w.gate.began_at_start_of_history
                &&& next.gate.connection_violation == w.gate.connection_violation
                &&& !next.report.complete
            },
            StepView::Done(report) => !report.complete,
        },
{
}

/// A sweep is tainted from its beginning if it resumes, or if its connection
/// had already broken the contract.
pub proof fn law_a_sweep_begins_tainted(s: StoreView, input: InputView, now: Seq<char>)
    ensures
        begun(s, input, now).gate.began_at_start_of_history <==> start_of(s, input) is None,
        begun(s, input, now).gate.connection_violation == input.connection_violation,
        !begun(s, input, now).report.complete,
        !input.options.resume ==> start_of(s, input) is None,
{
}

/// The retractions of a tally are those of the live records that it retracts.
proof fn lemma_tally(
    s: StoreView,
    input: InputView,
    crawl_id: int,
    now: Seq<char>,
    observed: Seq<Seq<char>>,
    exempt: Seq<Seq<char>>,
    live: Seq<LiveView>,
)
    ensures
        ({
            let t = tally(s, input, crawl_id, now, observed, exempt, live);
            &&& t.retractions.len() <= live.len()
            &&& forall|r: RetractionView|
                #[trigger] t.retractions.contains(r) <==> exists|i: int|
                    0 <= i < live.len() && fate(input, observed, exempt, #[trigger] live[i])
                        == Fate::Retracted && r == retraction_of(s, input, crawl_id, now, live[i])
        }),
    decreases live.len(),
{
    let t = tally(s, input, crawl_id, now, observed, exempt, live);
    if live.len() > 0 {
        let front = live.drop_last();
        lemma_tally(s, input, crawl_id, now, observed, exempt, front);
        let before = tally(s, input, crawl_id, now, observed, exempt, front);
        let last = live.last();
        let gone = fate(input, observed, exempt, last) == Fate::Retracted;
        assert forall|r: RetractionView| #[trigger] t.retractions.contains(r) <==> exists|i: int|
            0 <= i < live.len() && fate(input, observed, exempt, #[trigger] live[i])
                == Fate::Retracted && r == retraction_of(s, input, crawl_id, now, live[i]) by {
            if t.retractions.contains(r) {
                let k = choose|k: int| 0 <= k < t.retractions.len() && t.retractions[k] == r;
                if k < before.retractions.len() {
                    assert(before.retractions[k] == r);
                    assert(before.retractions.contains(r));
                    let i = choose|i: int|
                        0 <= i < front.len() && fate(input, observed, exempt, #[trigger] front[i])
                            == Fate::Retracted && r == retraction_of(
                            s,
                            input,
                            crawl_id,
                            now,
                            front[i],
                        );
                    assert(live[i] == front[i]);
                } else {
                    assert(live[live.len() - 1] == last);
                }
            }
            if exists|i: int|
                0 <= i < live.len() && fate(input, observed, exempt, #[trigger] live[i])
                    == Fate::Retracted && r == retraction_of(s, input, crawl_id, now, live[i]) {
                let i = choose|i: int|
                    0 <= i < live.len() && fate(input, observed, exempt, #[trigger] live[i])
                        == Fate::Retracted && r == retraction_of(s, input, crawl_id, now, live[i]);
                if i < front.len() {
                    assert(front[i] == live[i]);
                    assert(before.retractions.contains(r));
                    let k = choose|k: int|
                        0 <= k < before.retractions.len() && before.retractions[k] == r;
                    assert(t.retractions[k] == r);
                } else {
                    assert(gone);
                    assert(t.retractions[before.retractions.len() as int] == r);
                }
            }
        }
    }
}

/// Whether a complete sweep is one that concludes nothing: it read from another
/// vantage, or it carried nothing and the user did not confirm that.
pub open spec fn defers(s: StoreView, input: InputView, observed: Seq<Seq<char>>) -> bool {
    ||| moved_from(s, input) is Some
    ||| observed.len() == 0 && live_listing(s, input.adapter_id, input.resource_id).len() > 0
        && !input.options.confirm_empty
}

/// What a complete sweep retracts is exactly what it did not carry: a live
/// record of the resource is retracted if and only if the sweep did not observe
/// it, did not have to drop it by name, and could have reached it; and it is
/// retracted at the highest revision it has come to.
pub proof fn law_a_complete_sweep_retracts_exactly_the_absent(
    s: StoreView,
    input: InputView,
    crawl_id: int,
    now: Seq<char>,
    observed: Seq<Seq<char>>,
    exempt: Seq<Seq<char>>,
    r: RetractionView,
)
    requires
        !defers(s, input, observed),
    ensures
        conclusion(s, input, crawl_id, now, observed, exempt).retractions.contains(r) <==> (
        live_entry(s, input.adapter_id, input.resource_id, r.local_id) matches Some(live) && fate(
            input,
            observed,
            exempt,
            live,
        ) == Fate::Retracted && r == retraction_of(s, input, crawl_id, now, live)),
{
    let (own, resource) = (input.adapter_id, input.resource_id);
    let live = live_listing(s, own, resource);
    law_the_listing_is_the_live_set(s, own, resource);
    lemma_tally(s, input, crawl_id, now, observed, exempt, live);
    let t = tally(s, input, crawl_id, now, observed, exempt, live);
    assert(conclusion(s, input, crawl_id, now, observed, exempt).retractions == t.retractions);
    if t.retractions.contains(r) {
        let i = choose|i: int|
            0 <= i < live.len() && fate(input, observed, exempt, #[trigger] live[i])
                == Fate::Retracted && r == retraction_of(s, input, crawl_id, now, live[i]);
        assert(live_entry(s, own, resource, live[i].local_id) == Some(live[i]));
    }
    if let Some(l) = live_entry(s, own, resource, r.local_id) {
        let key = Key { first: own, second: r.local_id };
        assert(live_keys(own, live).contains(key));
        let i = choose|i: int| 0 <= i < live.len() && live_keys(own, live)[i] == key;
        assert(live[i].local_id == r.local_id);
        assert(live_entry(s, own, resource, live[i].local_id) == Some(live[i]));
        assert(live[i] == l);
        if fate(input, observed, exempt, l) == Fate::Retracted && r == retraction_of(
            s,
            input,
            crawl_id,
            now,
            l,
        ) {
            assert(fate(input, observed, exempt, live[i]) == Fate::Retracted);
        }
    }
}

/// A sweep that defers retracts nothing, and says so in one note.
pub proof fn law_a_sweep_that_defers_says_why(
    s: StoreView,
    input: InputView,
    crawl_id: int,
    now: Seq<char>,
    observed: Seq<Seq<char>>,
    exempt: Seq<Seq<char>>,
)
    requires
        defers(s, input, observed),
    ensures
        ({
            let c = conclusion(s, input, crawl_id, now, observed, exempt);
            &&& c.retractions.len() == 0
            &&& c.notes.len() == 1
            &&& c.notes[0].kind == (if moved_from(s, input) is Some {
                KIND_VANTAGE@
            } else {
                KIND_EMPTY@
            })
        }),
{
}

/// A change of vantage defers one sweep and no more: the sweep that found it has
/// adopted it.
pub proof fn law_a_vantage_change_defers_once(
    s: StoreView,
    w: SweepView,
    violation: Option<ProtocolViolationKind>,
    again: InputView,
)
    requires
        committed(s, w, violation).1.complete,
        again.adapter_id == w.input.adapter_id,
        again.resource_id == w.input.resource_id,
        again.provider_id == w.input.provider_id,
    ensures
        moved_from(committed(s, w, violation).0, again) is None,
{
    lemma_resource_after_commit(s, w, violation);
}

/// A sweep that is not complete leaves the vantage where it was: the next one
/// finds the change that this one could not judge.
pub proof fn law_a_partial_sweep_adopts_no_vantage(
    s: StoreView,
    w: SweepView,
    violation: Option<ProtocolViolationKind>,
)
    requires
        !committed(s, w, violation).1.complete,
    ensures
        ({
            let after = committed(s, w, violation).0;
            match (
                s.resource_row(w.input.adapter_id, w.input.resource_id),
                after.resource_row(w.input.adapter_id, w.input.resource_id),
            ) {
                (Some(was), Some(is)) => is.last_provider_id == was.last_provider_id,
                (None, None) => true,
                _ => false,
            }
        }),
{
    lemma_resource_after_commit(s, w, violation);
}

/// What a commit makes of the swept resource's row.
proof fn lemma_resource_after_commit(
    s: StoreView,
    w: SweepView,
    violation: Option<ProtocolViolationKind>,
)
    ensures
        ({
            let (after, report) = committed(s, w, violation);
            match (
                s.resource_row(w.input.adapter_id, w.input.resource_id),
                after.resource_row(w.input.adapter_id, w.input.resource_id),
            ) {
                (Some(was), Some(is)) => is.last_provider_id == (if report.complete {
                    Some(w.input.provider_id)
                } else {
                    was.last_provider_id
                }),
                (None, None) => true,
                _ => false,
            }
        }),
{
    let c = concludes(s, w, gate_at_commit(w.gate, violation));
    let base = StoreView { retractions: s.retractions + c.retractions, ..s };
    lemma_noted_keeps(base, w.input, w.crawl_id, w.now, c.notes);
    let mid = concluded(s, w.input, w.crawl_id, w.now, c).with_derivation(
        w.input.adapter_id,
        w.input.hello_derivation,
    );
    assert(mid.resources == s.resources);
    let after = committed(s, w, violation).0;
    assert(crate::store::model::resource_keys(after.resources)
        =~= crate::store::model::resource_keys(s.resources));
}

/// After a record was retracted it is not live, in whatever resource.
pub proof fn law_a_retracted_record_is_not_live(
    s: StoreView,
    input: InputView,
    crawl_id: int,
    now: Seq<char>,
    observed: Seq<Seq<char>>,
    exempt: Seq<Seq<char>>,
    local_id: Seq<char>,
    resource_id: Seq<char>,
)
    requires
        exists|r: RetractionView| #[trigger]
            conclusion(s, input, crawl_id, now, observed, exempt).retractions.contains(r)
                && r.local_id == local_id,
    ensures
        live_entry(
            concluded(
                s,
                input,
                crawl_id,
                now,
                conclusion(s, input, crawl_id, now, observed, exempt),
            ),
            input.adapter_id,
            resource_id,
            local_id,
        ) is None,
{
    let own = input.adapter_id;
    let c = conclusion(s, input, crawl_id, now, observed, exempt);
    let after = concluded(s, input, crawl_id, now, c);
    let base = StoreView { retractions: s.retractions + c.retractions, ..s };
    lemma_noted_keeps(base, input, crawl_id, now, c.notes);
    let r = choose|r: RetractionView| #[trigger] c.retractions.contains(r) && r.local_id == local_id;
    if defers(s, input, observed) {
        law_a_sweep_that_defers_says_why(s, input, crawl_id, now, observed, exempt);
    } else {
        law_a_complete_sweep_retracts_exactly_the_absent(
            s,
            input,
            crawl_id,
            now,
            observed,
            exempt,
            r,
        );
    }
    let revision = s.chain(own, local_id).len();
    assert(r.revision == revision && r.adapter_id == own);
    let k = choose|k: int| 0 <= k < c.retractions.len() && c.retractions[k] == r;
    assert(after.retractions[s.retractions.len() + k] == r);
    assert(after.buried(own, local_id, revision));
    lemma_buried_by_the_mark(after, own, local_id, revision);
}

/// A sweep takes no live record away but those that it retracts: every other is
/// as live as it was.
pub proof fn law_what_is_not_retracted_stays_live(
    s: StoreView,
    input: InputView,
    crawl_id: int,
    now: Seq<char>,
    observed: Seq<Seq<char>>,
    exempt: Seq<Seq<char>>,
    local_id: Seq<char>,
    resource_id: Seq<char>,
)
    requires
        forall|r: RetractionView| #[trigger]
            conclusion(s, input, crawl_id, now, observed, exempt).retractions.contains(r)
                ==> r.local_id != local_id,
    ensures
        live_entry(
            concluded(
                s,
                input,
                crawl_id,
                now,
                conclusion(s, input, crawl_id, now, observed, exempt),
            ),
            input.adapter_id,
            resource_id,
            local_id,
        ) == live_entry(s, input.adapter_id, resource_id, local_id),
{
    let own = input.adapter_id;
    let c = conclusion(s, input, crawl_id, now, observed, exempt);
    let base = StoreView { retractions: s.retractions + c.retractions, ..s };
    lemma_noted_keeps(base, input, crawl_id, now, c.notes);
    assert forall|i: int| 0 <= i < c.retractions.len() implies (
    #[trigger] c.retractions[i]).local_id != local_id by {
        assert(c.retractions.contains(c.retractions[i]));
    }
    lemma_other_marks(s.retractions, c.retractions, own, local_id);
}

proof fn lemma_other_marks(
    rows: Seq<RetractionView>,
    more: Seq<RetractionView>,
    adapter_id: Seq<char>,
    local_id: Seq<char>,
)
    requires
        forall|i: int| 0 <= i < more.len() ==> (#[trigger] more[i]).local_id != local_id,
    ensures
        high_water(rows + more, adapter_id, local_id) == high_water(rows, adapter_id, local_id),
    decreases more.len(),
{
    if more.len() == 0 {
        assert(rows + more =~= rows);
    } else {
        assert((rows + more).drop_last() =~= rows + more.drop_last());
        assert((rows + more).last() == more[more.len() - 1]);
        assert forall|i: int| 0 <= i < more.drop_last().len() implies (
        #[trigger] more.drop_last()[i]).local_id != local_id by {
            assert(more.drop_last()[i] == more[i]);
        }
        lemma_other_marks(rows, more.drop_last(), adapter_id, local_id);
    }
}

/// No retraction buries a revision that comes after it: a record that is there
/// again, though nothing about it has changed, is no longer buried, whatever the
/// clock says of it.
pub proof fn law_a_record_that_is_there_again_is_not_buried(
    s: StoreView,
    input: InputView,
    crawl_id: int,
    o: ObservationView,
)
    requires
        s.retracted_in_time(),
        o.provenance.adapter_id == input.adapter_id,
    ensures
        ({
            let after = ingested(s, input, crawl_id, o).0;
            !after.buried(
                input.adapter_id,
                o.local_id,
                after.chain(input.adapter_id, o.local_id).len(),
            )
        }),
{
    let own = input.adapter_id;
    let after = ingested(s, input, crawl_id, o).0;
    lemma_ingested(s, input, crawl_id, o);
    let n = s.chain(own, o.local_id).len();
    let m = after.chain(own, o.local_id).len();
    if unchanged(s, own, o) {
        assert(m == n);
        if after.buried(own, o.local_id, m) {
            let i = choose|i: int|
                0 <= i < after.retractions.len() && (#[trigger] after.retractions[i]).adapter_id
                    == own && after.retractions[i].local_id == o.local_id
                    && after.retractions[i].revision >= m;
            assert(s.retractions[i].revision >= n);
            assert(s.buried(own, o.local_id, n));
        }
    } else {
        lemma_chain_grows(arrivals_of(s.observations, own), o, key_of(o));
        assert(m == n + 1);
        if after.buried(own, o.local_id, m) {
            let i = choose|i: int|
                0 <= i < after.retractions.len() && (#[trigger] after.retractions[i]).adapter_id
                    == own && after.retractions[i].local_id == o.local_id
                    && after.retractions[i].revision >= m;
            assert(s.retractions[i].revision <= s.chain(own, o.local_id).len());
        }
    }
}

/// A record that a page carries, active and not older than what is known of it,
/// is live in its resource afterwards, however often it was retracted before and
/// whatever resource it was in.
pub proof fn law_a_carried_record_is_live(
    s: StoreView,
    input: InputView,
    crawl_id: int,
    o: ObservationView,
)
    requires
        s.retracted_in_time(),
        o.provenance.adapter_id == input.adapter_id,
        o.state == ObservationState::Active,
        !unchanged(s, input.adapter_id, o),
        forall|k: int|
            0 <= k < s.chain(input.adapter_id, o.local_id).len() ==> !sorts_after(
                (#[trigger] s.chain(input.adapter_id, o.local_id)[k]).observation,
                o,
            ),
    ensures
        live_entry(
            ingested(s, input, crawl_id, o).0,
            input.adapter_id,
            o.resource_id,
            o.local_id,
        ) == Some(
            LiveView {
                local_id: o.local_id,
                revision: s.chain(input.adapter_id, o.local_id).len() + 1,
                observation: o,
            },
        ),
{
    let own = input.adapter_id;
    let after = ingested(s, input, crawl_id, o).0;
    lemma_ingested(s, input, crawl_id, o);
    law_a_record_that_is_there_again_is_not_buried(s, input, crawl_id, o);
    let arrivals = arrivals_of(s.observations, own);
    lemma_chain_grows(arrivals, o, key_of(o));
    law_the_latest_arrival_decides(arrivals, o);
    lemma_buried_by_the_mark(after, own, o.local_id, after.chain(own, o.local_id).len());
}

/// A provider that says the same again adds nothing: once a record is in, and
/// nothing in its chain is newer, the same content is unchanged, whatever the
/// host stamps it with.
pub proof fn law_the_same_content_again_is_unchanged(
    s: StoreView,
    input: InputView,
    crawl_id: int,
    o: ObservationView,
    again: ObservationView,
)
    requires
        s.retracted_in_time(),
        o.provenance.adapter_id == input.adapter_id,
        again.local_id == o.local_id,
        content_digest(again) == content_digest(o),
        forall|k: int|
            0 <= k < s.chain(input.adapter_id, o.local_id).len() ==> !sorts_after(
                (#[trigger] s.chain(input.adapter_id, o.local_id)[k]).observation,
                o,
            ),
    ensures
        ({
            let after = ingested(s, input, crawl_id, o).0;
            &&& unchanged(after, input.adapter_id, again)
            &&& ingested(after, input, crawl_id, again).0.observations.len()
                == after.observations.len()
        }),
{
    let own = input.adapter_id;
    let after = ingested(s, input, crawl_id, o).0;
    lemma_ingested(s, input, crawl_id, o);
    law_a_record_that_is_there_again_is_not_buried(s, input, crawl_id, o);
    if !unchanged(s, own, o) {
        let arrivals = arrivals_of(s.observations, own);
        lemma_chain_grows(arrivals, o, key_of(o));
        crate::host::fold::lemma_latest_is_last(arrivals, o);
    }
    lemma_ingested(after, input, crawl_id, again);
}

/// Every revision of a chain is in a row.
proof fn lemma_chain_rows(rows: Seq<StoredView>, key: ChainKey)
    requires
        forall|i: int|
            0 <= i < rows.len() ==> (#[trigger] rows[i]).revision == revisions_at(rows, i),
    ensures
        ({
            let chain = chain_of(arrivals_of(rows, key.adapter_id), key);
            forall|k: int|
                0 <= k < chain.len() ==> row_of(
                    rows,
                    key.adapter_id,
                    key.local_id,
                    (#[trigger] chain[k]).revision,
                ) is Some
        }),
    decreases rows.len(),
{
    let chain = chain_of(arrivals_of(rows, key.adapter_id), key);
    if rows.len() > 0 {
        let front = rows.drop_last();
        let last = rows.last();
        let arrivals = arrivals_of(front, key.adapter_id);
        let was = chain_of(arrivals, key);
        assert forall|i: int| 0 <= i < front.len() implies (#[trigger] front[i]).revision
            == revisions_at(front, i) by {
            assert(front[i] == rows[i]);
            assert(front.take(i + 1) =~= rows.take(i + 1));
        }
        lemma_chain_rows(front, key);
        let own = last.adapter_id == key.adapter_id;
        if own {
            assert(arrivals.push(last.observation).drop_last() =~= arrivals);
        }
        if own && key_of(last.observation) == key {
            assert(rows[rows.len() - 1].revision == revisions_at(rows, rows.len() - 1));
            assert(rows.take(rows.len() as int) =~= rows);
            lemma_chain_grows(arrivals, last.observation, key);
            crate::host::fold::lemma_entry_is_old_or_new(arrivals, last.observation);
            assert forall|k: int| 0 <= k < chain.len() implies row_of(
                rows,
                key.adapter_id,
                key.local_id,
                (#[trigger] chain[k]).revision,
            ) is Some by {
                if was.contains(chain[k]) {
                    let j = choose|j: int| 0 <= j < was.len() && was[j] == chain[k];
                    assert(row_of(
                        front,
                        key.adapter_id,
                        key.local_id,
                        was[j].revision,
                    ) is Some);
                }
            }
        } else {
            assert(chain == was);
            assert forall|k: int| 0 <= k < chain.len() implies row_of(
                rows,
                key.adapter_id,
                key.local_id,
                (#[trigger] chain[k]).revision,
            ) is Some by {
                assert(row_of(front, key.adapter_id, key.local_id, was[k].revision) is Some);
            }
        }
    }
}

/// A change of software is never blamed on the provider: the provider's reason
/// is given exactly for a record that was last emitted under the derivation and
/// the definition that this sweep ran under.
pub proof fn law_a_software_change_is_not_the_providers(
    s: StoreView,
    input: InputView,
    local_id: Seq<char>,
)
    requires
        s.numbered(),
        s.chain(input.adapter_id, local_id).len() > 0,
    ensures
        ({
            let row = row_of(
                s.observations,
                input.adapter_id,
                local_id,
                s.chain(input.adapter_id, local_id).last().revision,
            );
            &&& row is Some
            &&& reason_for(s, input, local_id) == REASON_ABSENT@ <==> row->0.derivation
                == input.hello_derivation && row->0.fingerprint == Some(input.fingerprint)
            &&& reason_for(s, input, local_id) == REASON_DERIVATION@ <==> row->0.derivation
                != input.hello_derivation
        }),
{
    lemma_reasons_differ();
    lemma_chain_rows(s.observations, ChainKey { adapter_id: input.adapter_id, local_id });
    let chain = s.chain(input.adapter_id, local_id);
    assert(chain[chain.len() - 1] == chain.last());
}

/// What cannot be ordered is exempt, and so is what the sweep had to drop by
/// name: neither is ever retracted.
pub proof fn law_doubt_never_retracts(
    input: InputView,
    observed: Seq<Seq<char>>,
    exempt: Seq<Seq<char>>,
    live: LiveView,
)
    ensures
        (input.history_start matches Some(start) && (instant_of(encode_utf8(start)) is None
            || instant_of(encode_utf8(effective(live.observation))) is None)) ==> fate(
            input,
            observed,
            exempt,
            live,
        ) != Fate::Retracted,
        exempt.contains(live.local_id) ==> fate(input, observed, exempt, live) != Fate::Retracted,
        observed.contains(live.local_id) ==> fate(input, observed, exempt, live)
            != Fate::Retracted,
{
}

/// A new crawl takes over: from then on a resume continues it or nothing, and
/// once it has drained there is nothing left to resume.
pub proof fn law_an_old_cursor_is_never_resumed(
    s: StoreView,
    input: InputView,
    now: Seq<char>,
    complete: bool,
    reason: Option<Seq<char>>,
)
    ensures
        ({
            let after = opened(s, input, now);
            let (own, resource) = (input.adapter_id, input.resource_id);
            let id = next_id(crawl_ids(s.crawls));
            &&& after.resumable(own, resource) == (if start_of(s, input) is Some {
                Some(after.crawls.last())
            } else {
                None
            })
            &&& after.with_verdict(id, true, complete, reason).resumable(own, resource) is None
        }),
{
    let after = opened(s, input, now);
    let (own, resource) = (input.adapter_id, input.resource_id);
    let id = next_id(crawl_ids(s.crawls));
    let old_rows = after.crawls.drop_last();
    assert forall|i: int| 0 <= i < old_rows.len() implies !crate::store::model::can_resume(
        #[trigger] old_rows[i],
        own,
        resource,
    ) by {
        assert(old_rows[i] == retired(s.crawls[i], own, resource));
    }
    lemma_none_to_resume(old_rows, own, resource);
    let drained = after.with_verdict(id, true, complete, reason);
    let done = drained.crawls.drop_last();
    assert forall|i: int| 0 <= i < done.len() implies !crate::store::model::can_resume(
        #[trigger] done[i],
        own,
        resource,
    ) by {
        assert(!crate::store::model::can_resume(old_rows[i], own, resource));
    }
    lemma_none_to_resume(done, own, resource);
}

proof fn lemma_none_to_resume(
    crawls: Seq<crate::store::rows::CrawlView>,
    adapter_id: Seq<char>,
    resource_id: Seq<char>,
)
    requires
        forall|i: int|
            0 <= i < crawls.len() ==> !crate::store::model::can_resume(
                #[trigger] crawls[i],
                adapter_id,
                resource_id,
            ),
    ensures
        newest_resumable(crawls, adapter_id, resource_id) is None,
    decreases crawls.len(),
{
    if crawls.len() > 0 {
        assert(!crate::store::model::can_resume(crawls[crawls.len() - 1], adapter_id, resource_id));
        assert forall|i: int| 0 <= i < crawls.drop_last().len() implies !crate::store::model::can_resume(
            #[trigger] crawls.drop_last()[i],
            adapter_id,
            resource_id,
        ) by {
            assert(crawls.drop_last()[i] == crawls[i]);
        }
        lemma_none_to_resume(crawls.drop_last(), adapter_id, resource_id);
    }
}

/// A record that denies its own origin is refused: it is neither stored nor
/// counted as carried, and its page disqualifies the sweep.
pub proof fn law_a_foreign_record_disqualifies(
    w: SweepView,
    records: Seq<ObservationView>,
    status: StatusView,
    counts: crate::store::ingest::Counts,
    i: int,
)
    requires
        0 <= i < records.len(),
        records[i].provenance.adapter_id != w.input.adapter_id,
    ensures
        advanced(w, records, status, counts).gate.foreign_provenance,
        advanced(w, records, status, counts).gate.disqualifier() is Some,
        forall|k: int|
            0 <= k < own_records(records, w.input.adapter_id, w.input.resource_id).len() ==> (
            #[trigger] own_records(
                records,
                w.input.adapter_id,
                w.input.resource_id,
            )[k]).provenance.adapter_id == w.input.adapter_id,
{
    lemma_own_records(records, w.input.adapter_id, w.input.resource_id);
}

pub proof fn lemma_own_records(
    records: Seq<ObservationView>,
    adapter_id: Seq<char>,
    resource_id: Seq<char>,
)
    ensures
        forall|k: int|
            0 <= k < own_records(records, adapter_id, resource_id).len() ==> (
            #[trigger] own_records(
                records,
                adapter_id,
                resource_id,
            )[k]).provenance.adapter_id == adapter_id,
    decreases records.len(),
{
    if records.len() > 0 {
        lemma_own_records(records.drop_last(), adapter_id, resource_id);
    }
}

} // verus!
