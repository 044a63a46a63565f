//! What a connection does with replies, requests and endings, and what an adapter is
//! started with.

use crate::host::failure::HostErrorView;
use crate::host::mux::{
    classified, error_of, frame_step, frame_text, frames_step, refusal, MuxView, MuxViolation,
    ReplyOutcome, Slot, Terminal,
};
use crate::host::reads::unoffered;
use crate::host::supervise::{empty_argv_message, exit_reason, passed_on};
use crate::text::{debug_text, decimal, signed_decimal};
use crate::wire::failure::{ErrorBodyView, ProtocolViolationKind, WireErrorCode};
use crate::wire::json::{canonical_object, quoted};
use vstd::prelude::*;

verus! {

/// A request is one line with its id, its operation and its parameters, in this order.
pub proof fn law_a_request_is_one_line(id: nat, op: Seq<char>, params: Seq<char>)
    ensures
        frame_text(id, op, params) == "{\"id\":"@ + decimal(id) + ",\"op\":"@ + quoted(op)
            + ",\"params\":"@ + params + "}\n"@,
{
}

/// What a reply to an id comes to: it is delivered if somebody waits for it, dropped if
/// they gave up, and a violation if it was answered before or was never asked for.
pub proof fn law_what_a_reply_comes_to(v: MuxView, id: nat)
    ensures
        ({
            let k = id - v.first_id;
            &&& 0 <= k < v.slots.len() && v.slots[k] == Slot::Pending ==> v.reply_outcome(id) == Ok::<
                ReplyOutcome,
                MuxViolation,
            >(ReplyOutcome::Delivered) && v.delivered(id) == (MuxView {
                slots: v.slots.update(k, Slot::Answered),
                ..v
            })
            &&& 0 <= k < v.slots.len() && v.slots[k] == Slot::Tombstoned ==> v.reply_outcome(id)
                == Ok::<ReplyOutcome, MuxViolation>(ReplyOutcome::Discarded) && v.delivered(id) == v
            &&& 0 <= k < v.slots.len() && v.slots[k] == Slot::Answered ==> v.reply_outcome(id)
                == Err::<ReplyOutcome, MuxViolation>(MuxViolation::DuplicateId) && v.delivered(id)
                == v
            &&& k < 0 || k >= v.slots.len() ==> v.reply_outcome(id) == Err::<
                ReplyOutcome,
                MuxViolation,
            >(MuxViolation::UnknownId) && v.delivered(id) == v
        }),
{
}

/// Giving up on an id that somebody waits for settles it as given up; any other stays as
/// it is.
pub proof fn law_what_giving_up_comes_to(v: MuxView, id: nat)
    ensures
        ({
            let k = id - v.first_id;
            &&& 0 <= k < v.slots.len() && v.slots[k] == Slot::Pending ==> v.tombstoned(id) == (
            MuxView { slots: v.slots.update(k, Slot::Tombstoned), ..v })
            &&& !(0 <= k < v.slots.len() && v.slots[k] == Slot::Pending) ==> v.tombstoned(id) == v
        }),
{
}

/// A line that is no reply is a violation. After the hello, a reply is taken by its id, and
/// one that nobody waits for or that was answered is a violation of its own kind.
pub proof fn law_what_a_line_comes_to(v: MuxView, id: u64)
    ensures
        frame_step(v, true, None) == (v, true, Some(ProtocolViolationKind::NotJson)),
        frame_step(v, true, Some(id)) == (
            v.delivered(id as nat),
            true,
            (match v.reply_outcome(id as nat) {
                Ok(_) => None,
                Err(MuxViolation::UnknownId) => Some(ProtocolViolationKind::UnknownId),
                Err(MuxViolation::DuplicateId) => Some(ProtocolViolationKind::DuplicateId),
            }),
        ),
        frame_step(v, false, Some(0)) == frame_step(v, true, Some(0)),
{
}

/// Why a call is refused: because the connection is finished, and how; or because its time
/// is up. Otherwise it is not.
pub proof fn law_why_a_call_is_refused(v: MuxView, expired: bool)
    ensures
        v.terminal matches Some(Terminal::Crashed(status)) ==> refusal(v, expired) == Some(
            HostErrorView::AdapterCrashed(status),
        ),
        v.terminal matches Some(Terminal::Violation(kind)) ==> refusal(v, expired) == Some(
            HostErrorView::ProtocolViolation(kind),
        ),
        v.terminal is None && expired ==> refusal(v, expired) == Some(HostErrorView::Timeout),
        v.terminal is None && !expired ==> refusal(v, expired) is None,
{
}

/// Until the hello is answered every fault is output before the hello; from then on each is
/// what it is.
pub proof fn law_before_the_hello_all_faults_are_one(kind: ProtocolViolationKind)
    ensures
        classified(false, kind) == ProtocolViolationKind::PreHelloOutput,
        classified(true, kind) == kind,
{
}

/// Lines are judged in order, and nothing behind the first violation is looked at.
pub proof fn law_lines_are_judged_in_order(
    v: MuxView,
    hello_done: bool,
    frame: Option<u64>,
    rest: Seq<Option<u64>>,
)
    ensures
        frames_step(v, hello_done, Seq::empty()) == (
            v,
            hello_done,
            None::<ProtocolViolationKind>,
        ),
        ({
            let (w, done, fault) = frame_step(v, hello_done, frame);
            frames_step(v, hello_done, seq![frame] + rest) == (if fault is Some {
                (w, done, fault)
            } else {
                frames_step(w, done, rest)
            })
        }),
    decreases rest.len(),
{
    let all = seq![frame] + rest;
    if rest.len() == 0 {
        assert(all =~= seq![frame]);
        assert(all.drop_last() =~= Seq::<Option<u64>>::empty());
        assert(rest =~= Seq::<Option<u64>>::empty());
        reveal_with_fuel(frames_step, 2);
    } else {
        law_lines_are_judged_in_order(v, hello_done, frame, rest.drop_last());
        assert(all.drop_last() =~= seq![frame] + rest.drop_last());
        assert(all.last() == rest.last());
    }
}

/// A violation is put on record where none was, and changes nothing else.
pub proof fn law_a_violation_is_put_on_record(v: MuxView, kind: ProtocolViolationKind)
    ensures
        v.verdict is None ==> v.violated(kind) == (MuxView { verdict: Some(kind), ..v }),
        v.verdict is Some ==> v.violated(kind) == v,
{
}

/// A new id is the next one, waits for its reply, and changes no other.
pub proof fn law_a_new_id_is_the_next(v: MuxView)
    ensures
        v.next_id() == v.first_id + v.slots.len(),
        v.issued() == (MuxView { slots: v.slots.push(Slot::Pending), ..v }),
{
}

/// What a finished connection is told as.
pub proof fn law_what_an_ending_is_told_as(status: Option<i32>, kind: ProtocolViolationKind)
    ensures
        error_of(Terminal::Crashed(status)) == HostErrorView::AdapterCrashed(status),
        error_of(Terminal::Violation(kind)) == HostErrorView::ProtocolViolation(kind),
{
}

/// A call that was abandoned fails as its connection ended; one whose connection has not
/// ended, as if it had crashed without a status.
pub proof fn law_how_an_abandoned_call_fails(v: MuxView)
    ensures
        v.terminal matches Some(reason) ==> v.terminal_error() == error_of(reason),
        v.terminal is None ==> v.terminal_error() == HostErrorView::AdapterCrashed(None),
{
}

/// What an adapter without a command line is refused with.
pub proof fn law_a_command_line_is_needed()
    ensures
        empty_argv_message() == "empty adapter argv"@,
{
}

/// An adapter that selects a protocol which was not offered is refused by its name.
pub proof fn law_an_unoffered_protocol_is_refused(protocol: Seq<char>)
    ensures
        unoffered(protocol) matches HostErrorView::Wire(err) && err.code
            == WireErrorCode::UnsupportedProtocol && err.message == "adapter selected protocol "@
            + debug_text(protocol) + ", which was not offered"@ && err.detail == (
        match canonical_object("{\"offered\":[\"1\"]}"@) {
            Ok(detail) => Some(detail),
            Err(_) => None,
        }),
{
}

/// Every failure of a call says what it is.
pub proof fn law_every_failed_call_says_why(
    err: ErrorBodyView,
    code: i32,
    kind: ProtocolViolationKind,
    message: Seq<char>,
)
    ensures
        HostErrorView::Wire(err).message() == "adapter error "@ + err.code.spec_name() + ": "@
            + err.message,
        HostErrorView::Timeout.message() == "request timed out"@,
        HostErrorView::AdapterCrashed(Some(code)).message() == "adapter crashed (status "@ + (
        "Some("@ + signed_decimal(code as int) + ")"@) + ")"@,
        HostErrorView::AdapterCrashed(None).message() == "adapter crashed (status "@ + "None"@
            + ")"@,
        HostErrorView::ProtocolViolation(kind).message() == "protocol violation: "@
            + kind.spec_name(),
        HostErrorView::Spawn(message).message() == "could not spawn adapter: "@ + message,
        HostErrorView::IdsExhausted.message() == "adapter connection ran out of request ids"@,
{
}

/// An adapter sees five variables of the host's environment, and no other.
pub proof fn law_what_an_adapter_sees(host: Seq<(String, String)>)
    ensures
        passed_on(host) == host.filter(
            |e: (String, String)|
                e.0@ == "PATH"@ || e.0@ == "HOME"@ || e.0@ == "LANG"@ || e.0@ == "LC_ALL"@ || e.0@
                    == "TMPDIR"@,
        ),
    decreases host.len(),
{
    reveal(Seq::filter);
    if host.len() > 0 {
        law_what_an_adapter_sees(host.drop_last());
    }
}

/// What an exit is held to be: a violation that was established stands; else it is a crash
/// if the output came to its end, and output that is still held open if it did not.
pub proof fn law_what_an_exit_is_held_to_be(
    code: Option<i32>,
    drained: bool,
    kind: ProtocolViolationKind,
)
    ensures
        exit_reason(code, drained, Some(Some(kind))) == Terminal::Violation(kind),
        exit_reason(code, true, Some(None)) == Terminal::Crashed(code),
        exit_reason(code, true, None) == Terminal::Crashed(code),
        exit_reason(code, false, Some(None)) == Terminal::Violation(
            ProtocolViolationKind::StdoutHeldOpen,
        ),
        exit_reason(code, false, None) == Terminal::Violation(
            ProtocolViolationKind::StdoutHeldOpen,
        ),
{
}

} // verus!
