//! When a complete sweep says that a record is gone, and what it writes down of it.

use crate::host::time::instant_of;
use crate::store::history_laws::{law_live_records_are_listed_in_order, law_what_is_live};
use crate::store::live::{live_entry, live_listing, LiveView};
use crate::store::model::{resource_key, resource_keys, StoreView};
use crate::store::order::lemma_at_its_place;
use crate::store::report::{InputView, NoteView};
use crate::store::retract::{
    concluded, conclusion, fate, lemma_reasons_differ, noted, reason_for, retraction_of, row_of,
    tally, Fate,
};
use crate::store::rows::{DiscrepancyView, RetractionView, StoredView};
use crate::store::sweep_laws::law_a_complete_sweep_retracts_exactly_the_absent;
use crate::text::decimal;
use crate::wire::record::{ObservationState, ProvenanceView};
use vstd::prelude::*;
use vstd::utf8::encode_utf8;

verus! {

/// Whether a moment is known to lie in a history that begins at another: both name
/// instants, and the moment's is no earlier.
pub open spec fn reaches(start: Seq<char>, at: Seq<char>) -> bool {
    match (instant_of(encode_utf8(start)), instant_of(encode_utf8(at))) {
        (Some(s), Some(a)) => s.0 < a.0 || s.0 == a.0 && s.1 <= a.1,
        _ => false,
    }
}

/// Whether a record could have been carried by an adapter whose history begins there,
/// by the day on which the record took effect; the day on which it was observed counts
/// only where it has no other.
pub open spec fn could_be_carried(p: ProvenanceView, history_start: Option<Seq<char>>) -> bool {
    match history_start {
        None => true,
        Some(start) => match p.effective_at {
            Some(at) => reaches(start, at),
            None => reaches(start, p.observed_at),
        },
    }
}

/// No complete sweep retracts a record that took effect before the adapter's history
/// begins, whenever it was observed.
pub proof fn law_an_earlier_record_is_never_retracted(
    s: StoreView,
    input: InputView,
    crawl_id: int,
    now: Seq<char>,
    observed: Seq<Seq<char>>,
    exempt: Seq<Seq<char>>,
    r: RetractionView,
    start: Seq<char>,
    at: Seq<char>,
    i: (int, int),
    j: (int, int),
)
    requires
        input.history_start == Some(start),
        s.chain(input.adapter_id, r.local_id).last().observation.provenance.effective_at == Some(at),
        instant_of(encode_utf8(at)) == Some(i),
        instant_of(encode_utf8(start)) == Some(j),
        i.0 < j.0 || i.0 == j.0 && i.1 < j.1,
    ensures
        !conclusion(s, input, crawl_id, now, observed, exempt).retractions.contains(r),
{
    lemma_retracted(s, input, crawl_id, now, observed, exempt, r);
}

/// The day on which a record was observed decides only where the record has no other:
/// of two profiles in which a record took effect on the same day, a sweep retracts it from
/// both or from neither, however the days differ on which it was observed.
pub proof fn law_a_later_observation_changes_nothing(
    s: StoreView,
    t: StoreView,
    input: InputView,
    crawl_id: int,
    now: Seq<char>,
    observed: Seq<Seq<char>>,
    exempt: Seq<Seq<char>>,
    local_id: Seq<char>,
)
    requires
        ({
            let (a, b) = (s.chain(input.adapter_id, local_id), t.chain(input.adapter_id, local_id));
            let (x, y) = (a.last().observation, b.last().observation);
            &&& a.len() == b.len()
            &&& x.state == y.state
            &&& x.resource_id == y.resource_id
            &&& x.provenance.effective_at is Some
            &&& x.provenance.effective_at == y.provenance.effective_at
        }),
        s.retractions == t.retractions,
        may_conclude(s, input, observed),
        may_conclude(t, input, observed),
    ensures
        ({
            let a = conclusion(s, input, crawl_id, now, observed, exempt).retractions;
            let b = conclusion(t, input, crawl_id, now, observed, exempt).retractions;
            (exists|k: int| 0 <= k < a.len() && (#[trigger] a[k]).local_id == local_id) <==> (
            exists|k: int| 0 <= k < b.len() && (#[trigger] b[k]).local_id == local_id)
        }),
{
    law_exactly_what_is_missing_is_retracted(
        s,
        input,
        crawl_id,
        now,
        observed,
        exempt,
        local_id,
    );
    law_exactly_what_is_missing_is_retracted(
        t,
        input,
        crawl_id,
        now,
        observed,
        exempt,
        local_id,
    );
}

/// What a retraction in a conclusion says of the profile.
proof fn lemma_retracted(
    s: StoreView,
    input: InputView,
    crawl_id: int,
    now: Seq<char>,
    observed: Seq<Seq<char>>,
    exempt: Seq<Seq<char>>,
    r: RetractionView,
)
    ensures
        conclusion(s, input, crawl_id, now, observed, exempt).retractions.contains(r)
            ==> could_be_carried(
            s.chain(input.adapter_id, r.local_id).last().observation.provenance,
            input.history_start,
        ),
{
    let c = conclusion(s, input, crawl_id, now, observed, exempt);
    if c.retractions.contains(r) {
        let k = choose|k: int| 0 <= k < c.retractions.len() && c.retractions[k] == r;
        assert(!crate::store::sweep_laws::defers(s, input, observed));
        law_a_complete_sweep_retracts_exactly_the_absent(
            s,
            input,
            crawl_id,
            now,
            observed,
            exempt,
            r,
        );
        law_what_is_live(s, input.adapter_id, input.resource_id, r.local_id);
    }
}

/// Whether a sweep is free to conclude: the last complete one read from the same
/// vantage, if there was one, and it carried something, unless the user confirmed that
/// there is nothing.
pub open spec fn may_conclude(s: StoreView, input: InputView, observed: Seq<Seq<char>>) -> bool {
    &&& forall|i: int|
        0 <= i < s.resources.len() && (#[trigger] s.resources[i]).adapter_id == input.adapter_id
            && s.resources[i].resource_id == input.resource_id
            ==> s.resources[i].last_provider_id is None || s.resources[i].last_provider_id == Some(
            input.provider_id,
        )
    &&& observed.len() > 0 || input.options.confirm_empty
}

/// A sweep that is free to conclude retracts exactly these: the resource's records whose
/// chain ends in an active observation that no retraction has reached yet, that the sweep
/// neither carried nor dropped by name, and that it could have carried. Each is retracted
/// once, at the number of its arrivals, by this crawl and now.
pub proof fn law_exactly_what_is_missing_is_retracted(
    s: StoreView,
    input: InputView,
    crawl_id: int,
    now: Seq<char>,
    observed: Seq<Seq<char>>,
    exempt: Seq<Seq<char>>,
    local_id: Seq<char>,
)
    requires
        may_conclude(s, input, observed),
    ensures
        ({
            let c = conclusion(s, input, crawl_id, now, observed, exempt);
            let chain = s.chain(input.adapter_id, local_id);
            let last = chain.last().observation;
            let gone = chain.len() > 0 && last.state == ObservationState::Active && last.resource_id
                == input.resource_id && (forall|i: int|
                0 <= i < s.retractions.len() && (#[trigger] s.retractions[i]).adapter_id
                    == input.adapter_id && s.retractions[i].local_id == local_id
                    ==> s.retractions[i].revision < chain.len()) && !observed.contains(local_id)
                && !exempt.contains(local_id) && could_be_carried(
                last.provenance,
                input.history_start,
            );
            &&& gone <==> exists|k: int|
                0 <= k < c.retractions.len() && (#[trigger] c.retractions[k]).local_id == local_id
            &&& forall|k: int|
                0 <= k < c.retractions.len() && (#[trigger] c.retractions[k]).local_id == local_id
                    ==> c.retractions[k].adapter_id == input.adapter_id && c.retractions[k].revision
                    == chain.len() && c.retractions[k].crawl_id == crawl_id
                    && c.retractions[k].retracted_at == now
        }),
{
    let c = conclusion(s, input, crawl_id, now, observed, exempt);
    let (own, res) = (input.adapter_id, input.resource_id);
    assert(!crate::store::sweep_laws::defers(s, input, observed));
    law_what_is_live(s, own, res, local_id);
    assert forall|k: int|
        0 <= k < c.retractions.len() && (#[trigger] c.retractions[k]).local_id == local_id implies ({
        &&& live_entry(s, own, res, local_id) matches Some(live)
        &&& fate(input, observed, exempt, live) == Fate::Retracted
        &&& c.retractions[k] == retraction_of(s, input, crawl_id, now, live)
    }) by {
        let r = c.retractions[k];
        assert(c.retractions.contains(r));
        law_a_complete_sweep_retracts_exactly_the_absent(
            s,
            input,
            crawl_id,
            now,
            observed,
            exempt,
            r,
        );
    }
    if let Some(live) = live_entry(s, own, res, local_id) {
        if fate(input, observed, exempt, live) == Fate::Retracted {
            let r = retraction_of(s, input, crawl_id, now, live);
            law_a_complete_sweep_retracts_exactly_the_absent(
                s,
                input,
                crawl_id,
                now,
                observed,
                exempt,
                r,
            );
            assert(c.retractions.contains(r));
            let k = choose|k: int| 0 <= k < c.retractions.len() && c.retractions[k] == r;
            assert(c.retractions[k].local_id == local_id);
        }
    }
}

/// No record is retracted twice by one sweep, and retractions are in the order of the
/// listing of live records.
pub proof fn law_no_record_is_retracted_twice(
    s: StoreView,
    input: InputView,
    crawl_id: int,
    now: Seq<char>,
    observed: Seq<Seq<char>>,
    exempt: Seq<Seq<char>>,
)
    ensures
        ({
            let c = conclusion(s, input, crawl_id, now, observed, exempt);
            forall|i: int, j: int|
                0 <= i < j < c.retractions.len() ==> crate::text::text_before(
                    (#[trigger] c.retractions[i]).local_id,
                    (#[trigger] c.retractions[j]).local_id,
                )
        }),
{
    let live = live_listing(s, input.adapter_id, input.resource_id);
    law_live_records_are_listed_in_order(s, input.adapter_id, input.resource_id);
    lemma_tally_in_order(s, input, crawl_id, now, observed, exempt, live);
}

proof fn lemma_tally_in_order(
    s: StoreView,
    input: InputView,
    crawl_id: int,
    now: Seq<char>,
    observed: Seq<Seq<char>>,
    exempt: Seq<Seq<char>>,
    live: Seq<LiveView>,
)
    requires
        forall|i: int, j: int|
            0 <= i < j < live.len() ==> crate::text::text_before(
                (#[trigger] live[i]).local_id,
                (#[trigger] live[j]).local_id,
            ),
    ensures
        ({
            let rows = tally(s, input, crawl_id, now, observed, exempt, live).retractions;
            &&& forall|i: int, j: int|
                0 <= i < j < rows.len() ==> crate::text::text_before(
                    (#[trigger] rows[i]).local_id,
                    (#[trigger] rows[j]).local_id,
                )
            &&& forall|i: int|
                0 <= i < rows.len() ==> exists|k: int|
                    0 <= k < live.len() && (#[trigger] live[k]).local_id == (
                    #[trigger] rows[i]).local_id
        }),
    decreases live.len(),
{
    if live.len() > 0 {
        let front = live.drop_last();
        assert forall|i: int, j: int| 0 <= i < j < front.len() implies crate::text::text_before(
            (#[trigger] front[i]).local_id,
            (#[trigger] front[j]).local_id,
        ) by {
            assert(front[i] == live[i] && front[j] == live[j]);
        }
        lemma_tally_in_order(s, input, crawl_id, now, observed, exempt, front);
        let before = tally(s, input, crawl_id, now, observed, exempt, front).retractions;
        let rows = tally(s, input, crawl_id, now, observed, exempt, live).retractions;
        assert forall|i: int| 0 <= i < rows.len() implies exists|k: int|
            0 <= k < live.len() && (#[trigger] live[k]).local_id == (#[trigger] rows[i]).local_id by {
            if i < before.len() {
                assert(rows[i] == before[i]);
                let k = choose|k: int|
                    0 <= k < front.len() && (#[trigger] front[k]).local_id == before[i].local_id;
                assert(live[k] == front[k]);
            } else {
                assert(live[live.len() - 1].local_id == rows[i].local_id);
            }
        }
        assert forall|i: int, j: int| 0 <= i < j < rows.len() implies crate::text::text_before(
            (#[trigger] rows[i]).local_id,
            (#[trigger] rows[j]).local_id,
        ) by {
            assert(rows[i] == before[i]);
            if j < before.len() {
                assert(rows[j] == before[j]);
            } else {
                let k = choose|k: int|
                    0 <= k < front.len() && (#[trigger] front[k]).local_id == before[i].local_id;
                assert(live[k] == front[k]);
                assert(live[live.len() - 1].local_id == rows[j].local_id);
            }
        }
    }
}

/// Why a record is said to be gone, by the row that its last revision is stored in: a
/// change of derivation comes first, a change of definition second, and only then is it
/// the provider that no longer has it.
pub proof fn law_the_reason_is_in_the_last_row(
    s: StoreView,
    input: InputView,
    local_id: Seq<char>,
    k: int,
)
    requires
        0 <= k < s.observations.len(),
        ({
            let revision = s.chain(input.adapter_id, local_id).last().revision;
            &&& s.observations[k].adapter_id == input.adapter_id
            &&& s.observations[k].observation.local_id == local_id
            &&& s.observations[k].revision == revision
            &&& forall|j: int|
                k < j < s.observations.len() ==> !((#[trigger] s.observations[j]).adapter_id
                    == input.adapter_id && s.observations[j].observation.local_id == local_id
                    && s.observations[j].revision == revision)
        }),
    ensures
        ({
            let row = s.observations[k];
            reason_for(s, input, local_id) == (if row.derivation != input.hello_derivation {
                "derivation_changed"@
            } else if row.fingerprint != Some(input.fingerprint) {
                "resource_definition_changed"@
            } else {
                "absent_from_complete_sweep"@
            })
        }),
{
    lemma_last_row(
        s.observations,
        input.adapter_id,
        local_id,
        s.chain(input.adapter_id, local_id).last().revision,
        k,
    );
}

proof fn lemma_last_row(
    rows: Seq<StoredView>,
    adapter_id: Seq<char>,
    local_id: Seq<char>,
    revision: nat,
    k: int,
)
    requires
        0 <= k < rows.len(),
        rows[k].adapter_id == adapter_id && rows[k].observation.local_id == local_id
            && rows[k].revision == revision,
        forall|j: int|
            k < j < rows.len() ==> !((#[trigger] rows[j]).adapter_id == adapter_id
                && rows[j].observation.local_id == local_id && rows[j].revision == revision),
    ensures
        row_of(rows, adapter_id, local_id, revision) == Some(rows[k]),
    decreases rows.len(),
{
    if k < rows.len() - 1 {
        assert(rows[rows.len() - 1] == rows.last());
        let front = rows.drop_last();
        assert forall|j: int| k < j < front.len() implies !((#[trigger] front[j]).adapter_id
            == adapter_id && front[j].observation.local_id == local_id && front[j].revision
            == revision) by {
            assert(front[j] == rows[j]);
        }
        lemma_last_row(front, adapter_id, local_id, revision, k);
    }
}

/// Every retraction of a conclusion gives the record's own reason.
pub proof fn law_a_retraction_gives_the_records_reason(
    s: StoreView,
    input: InputView,
    crawl_id: int,
    now: Seq<char>,
    observed: Seq<Seq<char>>,
    exempt: Seq<Seq<char>>,
    k: int,
)
    requires
        ({
            let c = conclusion(s, input, crawl_id, now, observed, exempt);
            0 <= k < c.retractions.len()
        }),
    ensures
        ({
            let r = conclusion(s, input, crawl_id, now, observed, exempt).retractions[k];
            r.reason == reason_for(s, input, r.local_id)
        }),
{
    let c = conclusion(s, input, crawl_id, now, observed, exempt);
    let r = c.retractions[k];
    assert(c.retractions.contains(r));
    assert(!crate::store::sweep_laws::defers(s, input, observed));
    law_a_complete_sweep_retracts_exactly_the_absent(s, input, crawl_id, now, observed, exempt, r);
}

/// The live records that a sweep could not have carried, and did not.
pub open spec fn out_of_reach(
    live: Seq<LiveView>,
    history_start: Option<Seq<char>>,
    observed: Seq<Seq<char>>,
    exempt: Seq<Seq<char>>,
) -> Seq<LiveView> {
    live.filter(
        |l: LiveView|
            !observed.contains(l.local_id) && !exempt.contains(l.local_id) && !could_be_carried(
                l.observation.provenance,
                history_start,
            ),
    )
}

/// How many of these retractions give a reason.
pub open spec fn giving(rows: Seq<RetractionView>, reason: Seq<char>) -> nat {
    rows.filter(|r: RetractionView| r.reason == reason).len()
}

proof fn lemma_numbers(
    s: StoreView,
    input: InputView,
    crawl_id: int,
    now: Seq<char>,
    observed: Seq<Seq<char>>,
    exempt: Seq<Seq<char>>,
    live: Seq<LiveView>,
)
    ensures
        ({
            let t = tally(s, input, crawl_id, now, observed, exempt, live);
            &&& t.derivation == giving(t.retractions, "derivation_changed"@)
            &&& t.definition == giving(t.retractions, "resource_definition_changed"@)
            &&& t.history == out_of_reach(live, input.history_start, observed, exempt).len()
        }),
    decreases live.len(),
{
    reveal(Seq::filter);
    lemma_reasons_differ();
    let t = tally(s, input, crawl_id, now, observed, exempt, live);
    if live.len() > 0 {
        let front = live.drop_last();
        lemma_numbers(s, input, crawl_id, now, observed, exempt, front);
        let before = tally(s, input, crawl_id, now, observed, exempt, front);
        if fate(input, observed, exempt, live.last()) == Fate::Retracted {
            assert(t.retractions.drop_last() =~= before.retractions);
        }
    }
}

/// A change of software or of reach is noted once with the number of records that it
/// concerns, however many those are: first a derivation, then a definition, then what
/// lies before the adapter's history. Where there is none of a kind there is no note.
pub proof fn law_a_conclusion_is_noted_in_numbers(
    s: StoreView,
    input: InputView,
    crawl_id: int,
    now: Seq<char>,
    observed: Seq<Seq<char>>,
    exempt: Seq<Seq<char>>,
)
    requires
        may_conclude(s, input, observed),
    ensures
        ({
            let c = conclusion(s, input, crawl_id, now, observed, exempt);
            let live = live_listing(s, input.adapter_id, input.resource_id);
            let derived = giving(c.retractions, "derivation_changed"@);
            let defined = giving(c.retractions, "resource_definition_changed"@);
            let early = out_of_reach(live, input.history_start, observed, exempt).len();
            let none = Seq::<NoteView>::empty();
            let first = NoteView {
                kind: "derivation_changed"@,
                detail: "the "@ + "derivation"@ + " changed; "@ + decimal(derived)
                    + " record(s) that can no longer be re-emitted were retired under "@
                    + "derivation_changed"@
                    + ", naming the software change rather than the provider"@,
            };
            let second = NoteView {
                kind: "resource_definition_changed"@,
                detail: "the "@ + "resource definition"@ + " changed; "@ + decimal(defined)
                    + " record(s) that can no longer be re-emitted were retired under "@
                    + "resource_definition_changed"@
                    + ", naming the software change rather than the provider"@,
            };
            let third = NoteView {
                kind: "history_start_exempt"@,
                detail: decimal(early)
                    + " live record(s) predate the adapter's reported history_start and were exempted from retraction"@,
            };
            c.notes == (if derived > 0 {
                seq![first]
            } else {
                none
            }) + (if defined > 0 {
                seq![second]
            } else {
                none
            }) + (if early > 0 {
                seq![third]
            } else {
                none
            })
        }),
{
    let live = live_listing(s, input.adapter_id, input.resource_id);
    assert(!crate::store::sweep_laws::defers(s, input, observed));
    lemma_numbers(s, input, crawl_id, now, observed, exempt, live);
}

/// The one row of a resource.
pub proof fn lemma_the_row(s: StoreView, i: int)
    requires
        s.valid(),
        0 <= i < s.resources.len(),
    ensures
        s.resource_place(s.resources[i].adapter_id, s.resources[i].resource_id) == i,
        s.resource_row(s.resources[i].adapter_id, s.resources[i].resource_id) == Some(
            s.resources[i],
        ),
{
    let row = s.resources[i];
    lemma_at_its_place(
        resource_keys(s.resources),
        resource_key(row.adapter_id, row.resource_id),
        i,
    );
}

/// From another vantage than the last complete sweep's, a sweep concludes nothing, and
/// says which two they are.
pub proof fn law_another_vantage_concludes_nothing(
    s: StoreView,
    input: InputView,
    crawl_id: int,
    now: Seq<char>,
    observed: Seq<Seq<char>>,
    exempt: Seq<Seq<char>>,
    i: int,
    previous: Seq<char>,
)
    requires
        s.valid(),
        0 <= i < s.resources.len(),
        s.resources[i].adapter_id == input.adapter_id,
        s.resources[i].resource_id == input.resource_id,
        s.resources[i].last_provider_id == Some(previous),
        previous != input.provider_id,
    ensures
        ({
            let c = conclusion(s, input, crawl_id, now, observed, exempt);
            &&& c.retractions.len() == 0
            &&& c.notes == seq![
                NoteView {
                    kind: "vantage_changed"@,
                    detail: previous + " -> "@ + input.provider_id,
                },
            ]
        }),
{
    lemma_the_row(s, i);
}

/// A sweep that carried nothing where records are live concludes nothing unless the user
/// confirmed that, and says how many there are.
pub proof fn law_nothing_at_all_concludes_nothing(
    s: StoreView,
    input: InputView,
    crawl_id: int,
    now: Seq<char>,
    exempt: Seq<Seq<char>>,
)
    requires
        may_conclude(
            s,
            InputView {
                options: crate::store::report::SweepOptions { confirm_empty: true, ..input.options },
                ..input
            },
            Seq::empty(),
        ),
        !input.options.confirm_empty,
        live_listing(s, input.adapter_id, input.resource_id).len() > 0,
    ensures
        ({
            let c = conclusion(s, input, crawl_id, now, Seq::empty(), exempt);
            &&& c.retractions.len() == 0
            &&& c.notes == seq![
                NoteView {
                    kind: "empty_sweep"@,
                    detail: "a complete sweep returned no observations against "@ + decimal(
                        live_listing(s, input.adapter_id, input.resource_id).len(),
                    )
                        + " live record(s); nothing retracted -- re-run with --confirm-empty to retract them all"@,
                },
            ]
        }),
{
}

/// What a conclusion leaves in the store: its retractions behind those that were there,
/// and its notes, each under the sweep's resource and crawl, behind those that were
/// there. Nothing else changes.
pub proof fn law_a_conclusion_is_written_down(
    s: StoreView,
    input: InputView,
    crawl_id: int,
    now: Seq<char>,
    observed: Seq<Seq<char>>,
    exempt: Seq<Seq<char>>,
)
    ensures
        ({
            let c = conclusion(s, input, crawl_id, now, observed, exempt);
            concluded(s, input, crawl_id, now, c) == (StoreView {
                retractions: s.retractions + c.retractions,
                discrepancies: s.discrepancies + c.notes.map_values(
                    |n: NoteView|
                        DiscrepancyView {
                            adapter_id: input.adapter_id,
                            resource_id: input.resource_id,
                            kind: n.kind,
                            crawl_id,
                            detail: n.detail,
                            noted_at: now,
                        },
                ),
                ..s
            })
        }),
{
    let c = conclusion(s, input, crawl_id, now, observed, exempt);
    let base = StoreView { retractions: s.retractions + c.retractions, ..s };
    lemma_noted(base, input, crawl_id, now, c.notes);
}

pub proof fn lemma_noted(
    s: StoreView,
    input: InputView,
    crawl_id: int,
    now: Seq<char>,
    notes: Seq<NoteView>,
)
    ensures
        noted(s, input, crawl_id, now, notes) == (StoreView {
            discrepancies: s.discrepancies + notes.map_values(
                |n: NoteView|
                    DiscrepancyView {
                        adapter_id: input.adapter_id,
                        resource_id: input.resource_id,
                        kind: n.kind,
                        crawl_id,
                        detail: n.detail,
                        noted_at: now,
                    },
            ),
            ..s
        }),
    decreases notes.len(),
{
    let f = |n: NoteView|
        DiscrepancyView {
            adapter_id: input.adapter_id,
            resource_id: input.resource_id,
            kind: n.kind,
            crawl_id,
            detail: n.detail,
            noted_at: now,
        };
    if notes.len() > 0 {
        let front = notes.drop_last();
        lemma_noted(s, input, crawl_id, now, front);
        assert((s.discrepancies + front.map_values(f)).push(f(notes.last()))
            =~= s.discrepancies + notes.map_values(f));
    } else {
        assert(s.discrepancies + notes.map_values(f) =~= s.discrepancies);
    }
}

} // verus!
