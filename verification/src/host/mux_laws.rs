//! What holds over the whole life of a connection.

use crate::host::mux::{frame_step, MuxView, MuxViolation, ReplyOutcome, Slot, Terminal};
use crate::wire::failure::ProtocolViolationKind;
use vstd::prelude::*;

verus! {

/// Everything that can happen to a connection's ids.
pub enum MuxEvent {
    Issue,
    Tombstone(nat),
    Deliver(nat),
    Finish(Terminal),
    Violation(ProtocolViolationKind),
}

/// A connection after an event.
pub open spec fn after(v: MuxView, event: MuxEvent) -> MuxView {
    match event {
        MuxEvent::Issue => v.issued(),
        MuxEvent::Tombstone(id) => v.tombstoned(id),
        MuxEvent::Deliver(id) => v.delivered(id),
        MuxEvent::Finish(reason) => v.finished(reason),
        MuxEvent::Violation(kind) => v.violated(kind),
    }
}

/// A connection after a run of events.
pub open spec fn after_all(v: MuxView, events: Seq<MuxEvent>) -> MuxView
    decreases events.len(),
{
    if events.len() == 0 {
        v
    } else {
        after(after_all(v, events.drop_last()), events.last())
    }
}

/// An id that was given out is never given out again: whatever happens, the
/// next id stays above it, and every new one is waiting.
pub proof fn law_ids_are_never_reused(v: MuxView, events: Seq<MuxEvent>)
    ensures
        after_all(v, events).next_id() >= v.next_id(),
        after_all(v, events).first_id == v.first_id,
        v.issued().slot(v.next_id()) == Some(Slot::Pending),
        v.issued().next_id() == v.next_id() + 1,
    decreases events.len(),
{
    if events.len() > 0 {
        law_ids_are_never_reused(v, events.drop_last());
    }
}

/// An id that was answered or given up stays so, whatever happens: a second
/// reply to an answered one is always a violation, and a late reply to one that
/// was given up is always dropped.
pub proof fn law_a_settled_id_stays_settled(v: MuxView, events: Seq<MuxEvent>, id: nat)
    requires
        v.slot(id) == Some(Slot::Answered) || v.slot(id) == Some(Slot::Tombstoned),
    ensures
        after_all(v, events).slot(id) == v.slot(id),
        v.slot(id) == Some(Slot::Answered) ==> after_all(v, events).reply_outcome(id) == Err::<
            ReplyOutcome,
            MuxViolation,
        >(MuxViolation::DuplicateId),
        v.slot(id) == Some(Slot::Tombstoned) ==> after_all(v, events).reply_outcome(id) == Ok::<
            ReplyOutcome,
            MuxViolation,
        >(ReplyOutcome::Discarded),
    decreases events.len(),
{
    law_ids_are_never_reused(v, events);
    if events.len() > 0 {
        law_a_settled_id_stays_settled(v, events.drop_last(), id);
        law_ids_are_never_reused(v, events.drop_last());
    }
}

/// A delivered reply settles its id, and so does giving up on it: at most one
/// reply is ever delivered for an id.
pub proof fn law_a_reply_is_delivered_once(v: MuxView, id: nat, events: Seq<MuxEvent>)
    requires
        v.reply_outcome(id) == Ok::<ReplyOutcome, MuxViolation>(ReplyOutcome::Delivered),
    ensures
        after_all(v.delivered(id), events).reply_outcome(id) == Err::<ReplyOutcome, MuxViolation>(
            MuxViolation::DuplicateId,
        ),
        after_all(v.tombstoned(id), events).reply_outcome(id) == Ok::<ReplyOutcome, MuxViolation>(
            ReplyOutcome::Discarded,
        ),
{
    law_a_settled_id_stays_settled(v.delivered(id), events, id);
    law_a_settled_id_stays_settled(v.tombstoned(id), events, id);
}

/// A connection ends once: the first reason stays, whatever happens.
pub proof fn law_the_first_reason_stays(v: MuxView, reason: Terminal, events: Seq<MuxEvent>)
    requires
        v.terminal is None,
    ensures
        after_all(v.finished(reason), events).terminal == Some(reason),
    decreases events.len(),
{
    if events.len() > 0 {
        law_the_first_reason_stays(v, reason, events.drop_last());
    }
}

/// The first violation on record stays, whatever happens.
pub proof fn law_the_first_violation_stays(
    v: MuxView,
    kind: ProtocolViolationKind,
    events: Seq<MuxEvent>,
)
    requires
        v.verdict == Some(kind),
    ensures
        after_all(v, events).verdict == Some(kind),
    decreases events.len(),
{
    if events.len() > 0 {
        law_the_first_violation_stays(v, kind, events.drop_last());
    }
}

/// An ending resolves every waiting call and answers no other.
pub proof fn law_an_ending_leaves_nobody_waiting(v: MuxView, reason: Terminal, id: nat)
    requires
        v.terminal is None,
    ensures
        v.finished(reason).slot(id) != Some(Slot::Pending),
        v.slot(id) == Some(Slot::Pending) ==> v.finished(reason).slot(id) == Some(Slot::Answered),
        v.slot(id) != Some(Slot::Pending) ==> v.finished(reason).slot(id) == v.slot(id),
{
}

/// Only a reason that won is published: a connection that ended in an ordinary
/// crash is never charged with a violation that came too late, and one that
/// ended in a violation has one on record.
pub proof fn law_only_the_winning_reason_is_published(
    v: MuxView,
    first: Terminal,
    second: Terminal,
)
    requires
        v.terminal is None,
    ensures
        v.finished(first).finished(second) == v.finished(first),
        first is Crashed ==> v.finished(first).verdict == v.verdict,
        first matches Terminal::Violation(kind) ==> v.finished(first).verdict == (
        if v.verdict is None {
            Some(kind)
        } else {
            v.verdict
        }),
{
}

/// Before the hello is answered every fault is one and the same, and nothing
/// but the hello's own reply is let through.
pub proof fn law_nothing_comes_before_the_hello(v: MuxView, frame: Option<u64>)
    requires
        frame != Some(0u64),
    ensures
        frame_step(v, false, frame) == (v, false, Some(ProtocolViolationKind::PreHelloOutput)),
{
}

} // verus!
