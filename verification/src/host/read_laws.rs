//! What the host makes of an adapter's replies: what it refuses, what it drops, and how
//! current it holds the rest to be.

use crate::host::failure::HostErrorView;
use crate::host::reads::{
    balances_fault, coverage_fault, first_foreign, first_missing, first_repeated, first_unasked,
    kept_balances, kept_observations, oversized, reported, reported_balances,
    reported_observations, resource_staleness, stamped_balances, stamped_history, status_ids,
    MeasuredBalance, MeasuredObservation, MAX_OBSERVATION_BYTES,
};
use crate::text::debug_text;
use crate::wire::failure::{ErrorBodyView, WireErrorCode};
use crate::wire::record::{
    stamped_balance, stamped_observation, BalanceWire, ObservationWire, Staleness,
};
use crate::wire::status::{
    lemma_status_place, status_place, DegradedView, ReadOutcome, StatusView,
};
use crate::wire::timestamp::Rfc3339;
use vstd::prelude::*;

verus! {

/// How current a record is: it goes by the first answer that its resource got. Only an old
/// figure is cached, and only what is unavailable or gone is unavailable; a resource
/// without an answer is unavailable.
pub proof fn law_how_current_a_record_is(
    statuses: Seq<StatusView>,
    resource_id: Seq<char>,
    k: int,
)
    ensures
        0 <= k < statuses.len() && statuses[k].resource_id == resource_id && (forall|j: int|
            0 <= j < k ==> (#[trigger] statuses[j]).resource_id != resource_id)
            ==> resource_staleness(statuses, resource_id) == match statuses[k].outcome {
            ReadOutcome::Stale { .. } => Staleness::Cached,
            ReadOutcome::Unavailable => Staleness::Unavailable,
            ReadOutcome::Gone => Staleness::Unavailable,
            _ => Staleness::Live,
        },
        (forall|j: int|
            0 <= j < statuses.len() ==> (#[trigger] statuses[j]).resource_id != resource_id)
            ==> resource_staleness(statuses, resource_id) == Staleness::Unavailable,
{
    lemma_status_place(statuses, resource_id);
}

/// Every kept record is stamped with the time of the reply and with how current its own
/// resource is, in order.
pub proof fn law_every_record_is_stamped(
    kept: Seq<ObservationWire>,
    lines: Seq<BalanceWire>,
    statuses: Seq<StatusView>,
    received_at: Rfc3339,
)
    ensures
        stamped_history(kept, statuses, received_at) == kept.map_values(
            |o: ObservationWire|
                stamped_observation(
                    o,
                    received_at,
                    resource_staleness(statuses, o.resource_id@),
                ),
        ),
        stamped_balances(lines, statuses, received_at) == lines.map_values(
            |b: BalanceWire|
                stamped_balance(b, received_at, resource_staleness(statuses, b.resource_id@)),
        ),
{
    assert(stamped_history(kept, statuses, received_at) =~= kept.map_values(
        |o: ObservationWire|
            stamped_observation(o, received_at, resource_staleness(statuses, o.resource_id@)),
    ));
    assert(stamped_balances(lines, statuses, received_at) =~= lines.map_values(
        |b: BalanceWire|
            stamped_balance(b, received_at, resource_staleness(statuses, b.resource_id@)),
    ));
}

/// Nothing is dropped but what is too large: of a history, records of the adapter's own
/// that take more than 65536 bytes. The rest is kept, in order.
pub proof fn law_only_what_is_too_large_is_dropped(own: Seq<char>, raw: Seq<MeasuredObservation>)
    ensures
        kept_observations(own, raw) == raw.filter(
            |o: MeasuredObservation|
                o.bytes <= 65536 || o.wire.provenance.adapter_id@ != own,
        ).map_values(|o: MeasuredObservation| o.wire),
    decreases raw.len(),
{
    reveal(Seq::filter);
    let keep = |o: MeasuredObservation| o.bytes <= 65536 || o.wire.provenance.adapter_id@ != own;
    let wire = |o: MeasuredObservation| o.wire;
    if raw.len() > 0 {
        let front = raw.drop_last();
        law_only_what_is_too_large_is_dropped(own, front);
        if keep(raw.last()) {
            assert(front.filter(keep).push(raw.last()).map_values(wire) =~= front.filter(
                keep,
            ).map_values(wire).push(raw.last().wire));
        }
    } else {
        assert(raw.filter(keep).map_values(wire) =~= Seq::<ObservationWire>::empty());
    }
}

/// Of balances, every line that takes more than 65536 bytes is dropped, and no other.
pub proof fn law_only_lines_too_large_are_dropped(raw: Seq<MeasuredBalance>)
    ensures
        kept_balances(raw) == raw.filter(|b: MeasuredBalance| b.bytes <= 65536).map_values(
            |b: MeasuredBalance| b.wire,
        ),
    decreases raw.len(),
{
    reveal(Seq::filter);
    let keep = |b: MeasuredBalance| b.bytes <= 65536;
    let wire = |b: MeasuredBalance| b.wire;
    if raw.len() > 0 {
        let front = raw.drop_last();
        law_only_lines_too_large_are_dropped(front);
        if keep(raw.last()) {
            assert(front.filter(keep).push(raw.last()).map_values(wire) =~= front.filter(
                keep,
            ).map_values(wire).push(raw.last().wire));
        }
    } else {
        assert(raw.filter(keep).map_values(wire) =~= Seq::<BalanceWire>::empty());
    }
}

/// A drop is reported in the first entry of its resource, behind what is there; where the
/// resource has no entry it is reported nowhere.
pub proof fn law_where_a_drop_is_reported(
    statuses: Seq<StatusView>,
    resource_id: Seq<char>,
    drop: DegradedView,
    k: int,
)
    ensures
        0 <= k < statuses.len() && statuses[k].resource_id == resource_id && (forall|j: int|
            0 <= j < k ==> (#[trigger] statuses[j]).resource_id != resource_id) ==> reported(
            statuses,
            resource_id,
            drop,
        ) == statuses.update(
            k,
            StatusView { degraded: statuses[k].degraded.push(drop), ..statuses[k] },
        ),
        (forall|j: int|
            0 <= j < statuses.len() ==> (#[trigger] statuses[j]).resource_id != resource_id)
            ==> reported(statuses, resource_id, drop) == statuses,
{
    lemma_status_place(statuses, resource_id);
}

proof fn lemma_reported_ids(statuses: Seq<StatusView>, id: Seq<char>, drop: DegradedView)
    ensures
        reported(statuses, id, drop).len() == statuses.len(),
        forall|j: int|
            0 <= j < statuses.len() ==> (#[trigger] reported(statuses, id, drop)[j]).resource_id
                == statuses[j].resource_id,
{
}

/// Every record that is dropped is reported once under its own id and size, in the first
/// entry of its own resource, behind what the adapter reported there; and nothing else is
/// reported.
pub proof fn law_every_dropped_record_is_reported_once(
    own: Seq<char>,
    raw: Seq<MeasuredObservation>,
    statuses: Seq<StatusView>,
    k: int,
)
    requires
        0 <= k < statuses.len(),
    ensures
        ({
            let after = reported_observations(own, raw, statuses);
            let id = statuses[k].resource_id;
            let first = forall|j: int|
                0 <= j < k ==> (#[trigger] statuses[j]).resource_id != id;
            &&& after.len() == statuses.len()
            &&& forall|j: int|
                0 <= j < statuses.len() ==> (#[trigger] after[j]).resource_id
                    == statuses[j].resource_id
            &&& after[k] == (StatusView {
                degraded: if first {
                    statuses[k].degraded + raw.filter(
                        |o: MeasuredObservation|
                            o.bytes > 65536 && o.wire.provenance.adapter_id@ == own
                                && o.wire.resource_id@ == id,
                    ).map_values(
                        |o: MeasuredObservation|
                            DegradedView {
                                local_id: Some(o.wire.local_id@),
                                bytes: o.bytes as u64,
                            },
                    )
                } else {
                    statuses[k].degraded
                },
                ..statuses[k]
            })
        }),
    decreases raw.len(),
{
    reveal(Seq::filter);
    let id = statuses[k].resource_id;
    let gone = |o: MeasuredObservation|
        o.bytes > 65536 && o.wire.provenance.adapter_id@ == own && o.wire.resource_id@ == id;
    let note = |o: MeasuredObservation|
        DegradedView { local_id: Some(o.wire.local_id@), bytes: o.bytes as u64 };
    let first = forall|j: int| 0 <= j < k ==> (#[trigger] statuses[j]).resource_id != id;
    if raw.len() > 0 {
        let front = raw.drop_last();
        let o = raw.last();
        law_every_dropped_record_is_reported_once(own, front, statuses, k);
        let before = reported_observations(own, front, statuses);
        let after = reported_observations(own, raw, statuses);
        if oversized(own, o) {
            let drop = note(o);
            lemma_reported_ids(before, o.wire.resource_id@, drop);
            lemma_status_place(before, o.wire.resource_id@);
            let p = status_place(before, o.wire.resource_id@) as int;
            if o.wire.resource_id@ == id {
                assert(before[k].resource_id == id);
                assert(p <= k);
                if first {
                    if p < k {
                        assert(before[p].resource_id == statuses[p].resource_id);
                    }
                    assert(p == k);
                    assert(statuses[k].degraded + front.filter(gone).push(o).map_values(note)
                        =~= (statuses[k].degraded + front.filter(gone).map_values(note)).push(
                        drop,
                    ));
                } else {
                    let j = choose|j: int|
                        0 <= j < k && !((#[trigger] statuses[j]).resource_id != id);
                    assert(before[j].resource_id == id);
                    assert(p <= j);
                }
            }
        }
    } else {
        assert(statuses[k].degraded + raw.filter(gone).map_values(note)
            =~= statuses[k].degraded);
    }
}

/// Every balance line that is dropped is reported once by its size, without a name.
pub proof fn law_every_dropped_line_is_reported_once(
    raw: Seq<MeasuredBalance>,
    statuses: Seq<StatusView>,
    k: int,
)
    requires
        0 <= k < statuses.len(),
    ensures
        ({
            let after = reported_balances(raw, statuses);
            let id = statuses[k].resource_id;
            let first = forall|j: int|
                0 <= j < k ==> (#[trigger] statuses[j]).resource_id != id;
            &&& after.len() == statuses.len()
            &&& forall|j: int|
                0 <= j < statuses.len() ==> (#[trigger] after[j]).resource_id
                    == statuses[j].resource_id
            &&& after[k] == (StatusView {
                degraded: if first {
                    statuses[k].degraded + raw.filter(
                        |b: MeasuredBalance| b.bytes > 65536 && b.wire.resource_id@ == id,
                    ).map_values(
                        |b: MeasuredBalance| DegradedView { local_id: None, bytes: b.bytes as u64 },
                    )
                } else {
                    statuses[k].degraded
                },
                ..statuses[k]
            })
        }),
    decreases raw.len(),
{
    reveal(Seq::filter);
    let id = statuses[k].resource_id;
    let gone = |b: MeasuredBalance| b.bytes > 65536 && b.wire.resource_id@ == id;
    let note = |b: MeasuredBalance| DegradedView { local_id: None, bytes: b.bytes as u64 };
    let first = forall|j: int| 0 <= j < k ==> (#[trigger] statuses[j]).resource_id != id;
    if raw.len() > 0 {
        let front = raw.drop_last();
        let b = raw.last();
        law_every_dropped_line_is_reported_once(front, statuses, k);
        let before = reported_balances(front, statuses);
        let after = reported_balances(raw, statuses);
        if b.bytes > MAX_OBSERVATION_BYTES {
            let drop = note(b);
            lemma_reported_ids(before, b.wire.resource_id@, drop);
            lemma_status_place(before, b.wire.resource_id@);
            let p = status_place(before, b.wire.resource_id@) as int;
            if b.wire.resource_id@ == id {
                assert(before[k].resource_id == id);
                assert(p <= k);
                if first {
                    if p < k {
                        assert(before[p].resource_id == statuses[p].resource_id);
                    }
                    assert(p == k);
                    assert(statuses[k].degraded + front.filter(gone).push(b).map_values(note)
                        =~= (statuses[k].degraded + front.filter(gone).map_values(note)).push(
                        drop,
                    ));
                } else {
                    let j = choose|j: int|
                        0 <= j < k && !((#[trigger] statuses[j]).resource_id != id);
                    assert(before[j].resource_id == id);
                    assert(p <= j);
                }
            }
        }
    } else {
        assert(statuses[k].degraded + raw.filter(gone).map_values(note)
            =~= statuses[k].degraded);
    }
}

/// Which resource is the first to occur again.
pub proof fn law_which_occurs_twice(ids: Seq<Seq<char>>, k: int)
    ensures
        0 <= k < ids.len() && ids.take(k).contains(ids[k]) && ids.take(k).no_duplicates()
            ==> first_repeated(ids) == Some(ids[k]),
        ids.no_duplicates() ==> first_repeated(ids) is None,
    decreases ids.len(),
{
    if ids.len() > 0 {
        let front = ids.drop_last();
        law_which_occurs_twice(front, k);
        if ids.no_duplicates() {
            assert(front.no_duplicates());
            if front.contains(ids.last()) {
                let j = choose|j: int| 0 <= j < front.len() && front[j] == ids.last();
                assert(ids[j] == ids[ids.len() - 1]);
            }
        }
        if 0 <= k < ids.len() {
            if k < front.len() {
                assert(front.take(k) =~= ids.take(k));
            } else {
                assert(ids.take(k) =~= front);
                law_which_occurs_twice(front, -1);
            }
        }
    }
}

/// Which requested resource is the first to be missing.
pub proof fn law_which_is_missing(requested: Seq<Seq<char>>, ids: Seq<Seq<char>>, k: int)
    ensures
        0 <= k < requested.len() && !ids.contains(requested[k]) && (forall|j: int|
            0 <= j < k ==> ids.contains(#[trigger] requested[j])) ==> first_missing(requested, ids)
            == Some(requested[k]),
        (forall|j: int| 0 <= j < requested.len() ==> ids.contains(#[trigger] requested[j]))
            ==> first_missing(requested, ids) is None,
    decreases requested.len(),
{
    if requested.len() > 0 {
        let front = requested.drop_last();
        assert forall|j: int| 0 <= j < front.len() implies #[trigger] front[j] == requested[j] by {}
        assert(requested[requested.len() - 1] == requested.last());
        law_which_is_missing(front, ids, k);
        if forall|j: int| 0 <= j < requested.len() ==> ids.contains(#[trigger] requested[j]) {
            assert forall|j: int| 0 <= j < front.len() implies ids.contains(
                #[trigger] front[j],
            ) by {
                assert(front[j] == requested[j]);
            }
        }
        if 0 <= k < requested.len() && !ids.contains(requested[k]) && (forall|j: int|
            0 <= j < k ==> ids.contains(#[trigger] requested[j])) {
            assert forall|j: int| 0 <= j < k && j < front.len() implies ids.contains(
                #[trigger] front[j],
            ) by {
                assert(front[j] == requested[j]);
            }
        }
    }
}

/// What is said of statuses that do not cover the request: a resource that occurs twice
/// comes before one that is missing.
pub proof fn law_what_is_said_of_a_gap(
    op: Seq<char>,
    requested: Seq<Seq<char>>,
    statuses: Seq<StatusView>,
)
    ensures
        ({
            let twice = first_repeated(status_ids(statuses));
            let missing = first_missing(requested, status_ids(statuses));
            let detail = if twice is Some {
                "resource "@ + debug_text(twice->0) + " appears in `statuses` more than once"@
            } else {
                "resource "@ + debug_text(missing->0)
                    + " was requested and does not appear in `statuses` at all"@
            };
            coverage_fault(op, requested, statuses) == (if twice is None && missing is None {
                None
            } else {
                Some(
                    HostErrorView::Wire(
                        ErrorBodyView {
                            code: WireErrorCode::InvalidRequest,
                            message: "malformed "@ + op + " reply: "@ + detail
                                + "; every requested resource_id appears in `statuses` exactly once"@,
                            detail: None,
                        },
                    ),
                )
            })
        }),
{
}

/// Which balance line is the first from another adapter.
pub proof fn law_which_line_is_foreign(own: Seq<char>, raw: Seq<MeasuredBalance>, k: int)
    ensures
        0 <= k < raw.len() && raw[k].wire.provenance.adapter_id@ != own && (forall|j: int|
            0 <= j < k ==> (#[trigger] raw[j]).wire.provenance.adapter_id@ == own)
            ==> first_foreign(own, raw) == Some(k),
        (forall|j: int|
            0 <= j < raw.len() ==> (#[trigger] raw[j]).wire.provenance.adapter_id@ == own)
            ==> first_foreign(own, raw) is None,
    decreases raw.len(),
{
    if raw.len() > 0 {
        let front = raw.drop_last();
        assert forall|j: int| 0 <= j < front.len() implies #[trigger] front[j] == raw[j] by {}
        assert(raw[raw.len() - 1] == raw.last());
        law_which_line_is_foreign(own, front, k);
    }
}

/// Which balance line is the first that nobody asked for.
pub proof fn law_which_line_was_not_asked_for(
    requested: Seq<Seq<char>>,
    raw: Seq<MeasuredBalance>,
    k: int,
)
    ensures
        0 <= k < raw.len() && !requested.contains(raw[k].wire.resource_id@) && (forall|j: int|
            0 <= j < k ==> requested.contains((#[trigger] raw[j]).wire.resource_id@))
            ==> first_unasked(requested, raw) == Some(k),
        (forall|j: int|
            0 <= j < raw.len() ==> requested.contains((#[trigger] raw[j]).wire.resource_id@))
            ==> first_unasked(requested, raw) is None,
    decreases raw.len(),
{
    if raw.len() > 0 {
        let front = raw.drop_last();
        assert forall|j: int| 0 <= j < front.len() implies #[trigger] front[j] == raw[j] by {}
        assert(raw[raw.len() - 1] == raw.last());
        law_which_line_was_not_asked_for(requested, front, k);
    }
}

/// A reply to a balances read passes exactly if its statuses cover the request, and every
/// line is the adapter's own and was asked for. What it fails at is said: first a gap, then
/// another adapter's line, then one that nobody asked for.
pub proof fn law_which_balances_pass(
    own: Seq<char>,
    requested: Seq<Seq<char>>,
    raw: Seq<MeasuredBalance>,
    statuses: Seq<StatusView>,
)
    ensures
        ({
            let gap = coverage_fault("balances.read"@, requested, statuses);
            let foreign = first_foreign(own, raw);
            let unasked = first_unasked(requested, raw);
            let fault = balances_fault(own, requested, raw, statuses);
            let head = "malformed balances.read reply: a balance for resource "@;
            &&& gap is Some ==> fault == gap
            &&& gap is None && foreign is Some ==> fault == Some(
                HostErrorView::Wire(
                    ErrorBodyView {
                        code: WireErrorCode::InvalidRequest,
                        message: head + debug_text(raw[foreign->0].wire.resource_id@)
                            + " names adapter_id "@ + debug_text(
                            raw[foreign->0].wire.provenance.adapter_id@,
                        ) + " on the connection that announced "@ + debug_text(own),
                        detail: None,
                    },
                ),
            )
            &&& gap is None && foreign is None && unasked is Some ==> fault == Some(
                HostErrorView::Wire(
                    ErrorBodyView {
                        code: WireErrorCode::InvalidRequest,
                        message: head + debug_text(raw[unasked->0].wire.resource_id@)
                            + ", which this call did not request"@,
                        detail: None,
                    },
                ),
            )
            &&& gap is None && foreign is None && unasked is None ==> fault is None
        }),
{
}

} // verus!
