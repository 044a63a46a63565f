//! The life of request ids on one adapter connection.
//!
//! Ids are given out in order and never again. A reply may answer an id that
//! is waiting; one for an id that the host has given up on is dropped; every
//! other reply breaks the wire contract. A connection ends once, for the first
//! reason that is found, and the first violation that is caught stays on
//! record.

use crate::host::failure::{HostError, HostErrorView};
use crate::text::{decimal, push_decimal};
use crate::wire::failure::ProtocolViolationKind;
use crate::wire::json::{push_quoted, quoted, JsonObject};
use crate::wire::timestamp::Rfc3339;
use vstd::prelude::*;

verus! {

/// How many requests may wait to be written.
pub const OUTBOUND_QUEUE_CAPACITY: usize = 64;

/// The id of the hello, the first request of every connection.
pub const HELLO_ID: u64 = 0;

/// Why a connection is finished.
#[derive(Debug, Clone, Copy, PartialEq, Eq, Structural)]
pub enum Terminal {
    Crashed(Option<i32>),
    Violation(ProtocolViolationKind),
}

/// What has become of a request id.
#[derive(Debug, Clone, Copy, PartialEq, Eq, Structural)]
pub enum Slot {
    Pending,
    Tombstoned,
    Answered,
}

/// What became of a reply to an id that is still accounted for.
#[derive(Debug, Clone, Copy, PartialEq, Eq, Structural)]
pub enum ReplyOutcome {
    Delivered,
    /// The host had given up on the id: the reply is dropped, and the
    /// connection survives.
    Discarded,
}

/// A reply named an id for which there is nothing left to say.
#[derive(Debug, Clone, Copy, PartialEq, Eq, Structural)]
pub enum MuxViolation {
    UnknownId,
    DuplicateId,
}

impl From<MuxViolation> for ProtocolViolationKind {
    fn from(v: MuxViolation) -> (r: ProtocolViolationKind) {
        match v {
            MuxViolation::UnknownId => ProtocolViolationKind::UnknownId,
            MuxViolation::DuplicateId => ProtocolViolationKind::DuplicateId,
        }
    }
}

impl vstd::std_specs::convert::FromSpecImpl<MuxViolation> for ProtocolViolationKind {
    open spec fn obeys_from_spec() -> bool {
        true
    }

    open spec fn from_spec(v: MuxViolation) -> ProtocolViolationKind {
        violation_of(v)
    }
}

/// The violation that a reply to a spent or unknown id is.
pub open spec fn violation_of(v: MuxViolation) -> ProtocolViolationKind {
    match v {
        MuxViolation::UnknownId => ProtocolViolationKind::UnknownId,
        MuxViolation::DuplicateId => ProtocolViolationKind::DuplicateId,
    }
}

/// The state of a connection's ids.
pub struct MuxView {
    /// The first id of the connection.
    pub first_id: nat,
    /// What has become of each id given out, in order.
    pub slots: Seq<Slot>,
    /// Why the connection is finished, if it is.
    pub terminal: Option<Terminal>,
    /// The first violation that the connection was caught committing.
    pub verdict: Option<ProtocolViolationKind>,
}

impl MuxView {
    /// The id that is given out next.
    pub open spec fn next_id(self) -> nat {
        self.first_id + self.slots.len()
    }

    /// What has become of an id, `None` if it was never given out.
    pub open spec fn slot(self, id: nat) -> Option<Slot> {
        if self.first_id <= id < self.next_id() {
            Some(self.slots[id - self.first_id])
        } else {
            None
        }
    }

    /// After one more id was given out.
    pub open spec fn issued(self) -> MuxView {
        MuxView { slots: self.slots.push(Slot::Pending), ..self }
    }

    /// After the host gave up on an id: only a waiting one is touched.
    pub open spec fn tombstoned(self, id: nat) -> MuxView {
        if self.slot(id) == Some(Slot::Pending) {
            MuxView { slots: self.slots.update(id - self.first_id, Slot::Tombstoned), ..self }
        } else {
            self
        }
    }

    /// After a reply named an id: only a waiting one is touched.
    pub open spec fn delivered(self, id: nat) -> MuxView {
        if self.slot(id) == Some(Slot::Pending) {
            MuxView { slots: self.slots.update(id - self.first_id, Slot::Answered), ..self }
        } else {
            self
        }
    }

    /// What a reply that names an id amounts to.
    pub open spec fn reply_outcome(self, id: nat) -> Result<ReplyOutcome, MuxViolation> {
        match self.slot(id) {
            Some(Slot::Pending) => Ok(ReplyOutcome::Delivered),
            Some(Slot::Tombstoned) => Ok(ReplyOutcome::Discarded),
            Some(Slot::Answered) => Err(MuxViolation::DuplicateId),
            None => Err(MuxViolation::UnknownId),
        }
    }

    /// After a violation was caught: the first one stays.
    pub open spec fn violated(self, kind: ProtocolViolationKind) -> MuxView {
        MuxView {
            verdict: if self.verdict is None {
                Some(kind)
            } else {
                self.verdict
            },
            ..self
        }
    }

    /// After the connection ended for a reason: the first one stays, resolves
    /// every waiting call, and is published if it is a violation.
    pub open spec fn finished(self, reason: Terminal) -> MuxView {
        if self.terminal is Some {
            self
        } else {
            let ended = MuxView {
                terminal: Some(reason),
                slots: Seq::new(
                    self.slots.len(),
                    |i: int|
                        if self.slots[i] == Slot::Pending {
                            Slot::Answered
                        } else {
                            self.slots[i]
                        },
                ),
                ..self
            };
            match reason {
                Terminal::Violation(kind) => ended.violated(kind),
                Terminal::Crashed(_) => ended,
            }
        }
    }

    /// What a call that cannot be completed is told: the reason that the
    /// connection ended for, or, if none is known, that the adapter is gone.
    pub open spec fn terminal_error(self) -> HostErrorView {
        match self.terminal {
            Some(reason) => error_of(reason),
            None => HostErrorView::AdapterCrashed(None),
        }
    }
}

/// The failure that a terminal reason is to a call.
pub open spec fn error_of(reason: Terminal) -> HostErrorView {
    match reason {
        Terminal::Crashed(status) => HostErrorView::AdapterCrashed(status),
        Terminal::Violation(kind) => HostErrorView::ProtocolViolation(kind),
    }
}

impl Terminal {
    /// The failure that the reason is to a call.
    pub fn to_error(&self) -> (r: HostError)
        ensures
            r@ == error_of(*self),
    {
        match *self {
            Terminal::Crashed(status) => HostError::AdapterCrashed { status },
            Terminal::Violation(kind) => HostError::ProtocolViolation(kind),
        }
    }
}

/// What `finish` did: whether its reason was the first, and which waiting ids
/// it resolved.
#[derive(Debug)]
pub struct Finish {
    pub won: bool,
    pub resolved: Vec<u64>,
}

/// The ids of one adapter connection.
#[derive(Debug)]
pub struct Mux {
    first_id: u64,
    next_id: u64,
    slots: Vec<Slot>,
    terminal: Option<Terminal>,
    verdict: Option<ProtocolViolationKind>,
}

impl View for Mux {
    type V = MuxView;

    closed spec fn view(&self) -> MuxView {
        MuxView {
            first_id: self.first_id as nat,
            slots: self.slots@,
            terminal: self.terminal,
            verdict: self.verdict,
        }
    }
}

impl Mux {
    /// The counter stands behind the ids given out.
    pub closed spec fn wf(self) -> bool {
        self.next_id == self.first_id + self.slots@.len()
    }

    /// A connection whose first id is the hello's.
    pub fn new() -> (r: Mux)
        ensures
            r.wf(),
            r@ == (MuxView {
                first_id: HELLO_ID as nat,
                slots: Seq::empty(),
                terminal: None,
                verdict: None,
            }),
    {
        Mux::starting_at(HELLO_ID)
    }

    /// A connection whose first id is `first_id`.
    pub fn starting_at(first_id: u64) -> (r: Mux)
        ensures
            r.wf(),
            r@ == (MuxView {
                first_id: first_id as nat,
                slots: Seq::empty(),
                terminal: None,
                verdict: None,
            }),
    {
        Mux { first_id, next_id: first_id, slots: Vec::new(), terminal: None, verdict: None }
    }

    /// The place of an id among those given out.
    fn place(&self, id: u64) -> (r: Option<usize>)
        requires
            self.wf(),
        ensures
            match r {
                Some(i) => self.first_id <= id && i == id - self.first_id && i < self.slots@.len(),
                None => self@.slot(id as nat) is None,
            },
    {
        let given_out = self.slots.len();
        if self.first_id <= id && id - self.first_id < given_out as u64 {
            Some((id - self.first_id) as usize)
        } else {
            None
        }
    }

    /// Gives out the next id, or none once the counter is at its end: an id is
    /// never given out twice.
    pub fn issue(&mut self) -> (r: Option<u64>)
        requires
            old(self).wf(),
        ensures
            final(self).wf(),
            old(self)@.next_id() < u64::MAX ==> r == Some(old(self)@.next_id() as u64)
                && final(self)@ == old(self)@.issued(),
            old(self)@.next_id() == u64::MAX ==> r is None && final(self)@ == old(self)@,
    {
        let id = self.next_id;
        match id.checked_add(1) {
            Some(next) => {
                self.next_id = next;
                self.slots.push(Slot::Pending);
                Some(id)
            },
            None => None,
        }
    }

    /// Gives up on an id that is still waiting.
    pub fn tombstone(&mut self, id: u64)
        requires
            old(self).wf(),
        ensures
            final(self).wf(),
            final(self)@ == old(self)@.tombstoned(id as nat),
    {
        if let Some(i) = self.place(id) {
            if self.slots[i] == Slot::Pending {
                self.slots.set(i, Slot::Tombstoned);
            }
        }
    }

    /// Takes a reply to an id.
    pub fn deliver(&mut self, id: u64) -> (r: Result<ReplyOutcome, MuxViolation>)
        requires
            old(self).wf(),
        ensures
            final(self).wf(),
            final(self)@ == old(self)@.delivered(id as nat),
            r == old(self)@.reply_outcome(id as nat),
    {
        match self.place(id) {
            Some(i) => match self.slots[i] {
                Slot::Pending => {
                    self.slots.set(i, Slot::Answered);
                    Ok(ReplyOutcome::Delivered)
                },
                Slot::Tombstoned => Ok(ReplyOutcome::Discarded),
                Slot::Answered => Err(MuxViolation::DuplicateId),
            },
            None => Err(MuxViolation::UnknownId),
        }
    }

    /// Ends the connection. Only the first reason sticks; it resolves every id
    /// that is still waiting.
    pub fn finish(&mut self, reason: Terminal) -> (r: Finish)
        requires
            old(self).wf(),
        ensures
            final(self).wf(),
            final(self)@ == old(self)@.finished(reason),
            r.won == (old(self)@.terminal is None),
            forall|id: u64|
                r.resolved@.contains(id) <==> r.won && old(self)@.slot(id as nat) == Some(
                    Slot::Pending,
                ),
            r.resolved@.no_duplicates(),
    {
        let mut resolved: Vec<u64> = Vec::new();
        if self.terminal.is_some() {
            return Finish { won: false, resolved };
        }
        let ghost before = self@;
        self.terminal = Some(reason);
        if let Terminal::Violation(kind) = reason {
            if self.verdict.is_none() {
                self.verdict = Some(kind);
            }
        }
        let mut i: usize = 0;
        while i < self.slots.len()
            invariant
                self.wf(),
                before.first_id == self.first_id,
                before.slots.len() == self.slots@.len(),
                i <= self.slots@.len(),
                self.terminal == Some(reason),
                self.verdict == before.finished(reason).verdict,
                before.terminal is None,
                forall|k: int|
                    0 <= k < i ==> #[trigger] self.slots@[k] == if before.slots[k]
                        == Slot::Pending {
                        Slot::Answered
                    } else {
                        before.slots[k]
                    },
                forall|k: int|
                    i <= k < self.slots@.len() ==> #[trigger] self.slots@[k] == before.slots[k],
                forall|k: int|
                    0 <= k < resolved@.len() ==> self.first_id <= #[trigger] resolved@[k]
                        < self.first_id + i && before.slots[resolved@[k] - self.first_id]
                        == Slot::Pending,
                forall|k: int|
                    0 <= k < i && #[trigger] before.slots[k] == Slot::Pending
                        ==> resolved@.contains((self.first_id + k) as u64),
                resolved@.no_duplicates(),
            decreases self.slots@.len() - i,
        {
            if self.slots[i] == Slot::Pending {
                let id = self.first_id + i as u64;
                self.slots.set(i, Slot::Answered);
                let ghost was = resolved@;
                resolved.push(id);
                proof {
                    assert(resolved@.last() == id);
                    assert forall|k: int|
                        0 <= k < i + 1 && #[trigger] before.slots[k]
                            == Slot::Pending implies resolved@.contains(
                        (self.first_id + k) as u64,
                    ) by {
                        if k < i {
                            assert(was.contains((self.first_id + k) as u64));
                            let j = choose|j: int|
                                0 <= j < was.len() && was[j] == (self.first_id + k) as u64;
                            assert(resolved@[j] == was[j]);
                        } else {
                            assert(resolved@[resolved@.len() - 1] == id);
                        }
                    }
                }
            }
            i = i + 1;
        }
        proof {
            assert(self@.slots =~= before.finished(reason).slots);
            assert forall|id: u64| resolved@.contains(id) <==> before.slot(id as nat) == Some(
                Slot::Pending,
            ) by {
                if resolved@.contains(id) {
                    let k = choose|k: int| 0 <= k < resolved@.len() && resolved@[k] == id;
                    assert(resolved@[k] == id);
                }
                if before.slot(id as nat) == Some(Slot::Pending) {
                    assert(before.slots[id - before.first_id] == Slot::Pending);
                }
            }
        }
        Finish { won: true, resolved }
    }

    /// Puts a violation on record the moment it is caught. The first one stays.
    pub fn record_violation(&mut self, kind: ProtocolViolationKind)
        requires
            old(self).wf(),
        ensures
            final(self).wf(),
            final(self)@ == old(self)@.violated(kind),
    {
        if self.verdict.is_none() {
            self.verdict = Some(kind);
        }
    }

    /// The violation on record.
    pub fn violation(&self) -> (r: Option<ProtocolViolationKind>)
        ensures
            r == self@.verdict,
    {
        self.verdict
    }

    /// Why the connection is finished.
    pub fn terminal(&self) -> (r: Option<Terminal>)
        ensures
            r == self@.terminal,
    {
        self.terminal
    }

    /// What a call that cannot be completed is told.
    pub fn terminal_error(&self) -> (r: HostError)
        ensures
            r@ == self@.terminal_error(),
    {
        match self.terminal {
            Some(reason) => reason.to_error(),
            None => HostError::AdapterCrashed { status: None },
        }
    }
}

/// The reader's side of a connection: whether the hello has been answered.
#[derive(Debug, Clone, Copy, PartialEq, Eq, Structural)]
pub struct Reader {
    pub hello_done: bool,
}

/// The kind that a faulty frame is reported as. Before the hello is answered
/// the host cannot tell a banner from a malformed frame, so every cause
/// collapses to one kind.
pub open spec fn classified(hello_done: bool, kind: ProtocolViolationKind) -> ProtocolViolationKind {
    if hello_done {
        kind
    } else {
        ProtocolViolationKind::PreHelloOutput
    }
}

/// What one decoded frame does: the connection and the reader after it, and the
/// violation it is, if it is one. A frame is given by the id it answers, or by
/// nothing if it is no reply at all.
pub open spec fn frame_step(
    v: MuxView,
    hello_done: bool,
    frame: Option<u64>,
) -> (MuxView, bool, Option<ProtocolViolationKind>) {
    match frame {
        None => (v, hello_done, Some(classified(hello_done, ProtocolViolationKind::NotJson))),
        Some(id) => if !hello_done && id != HELLO_ID {
            (v, hello_done, Some(ProtocolViolationKind::PreHelloOutput))
        } else {
            (
                v.delivered(id as nat),
                true,
                match v.reply_outcome(id as nat) {
                    Ok(_) => None,
                    Err(violation) => Some(violation_of(violation)),
                },
            )
        },
    }
}

/// What a run of decoded frames does: they are judged in order, and nothing
/// behind the first violation is looked at.
pub open spec fn frames_step(
    v: MuxView,
    hello_done: bool,
    frames: Seq<Option<u64>>,
) -> (MuxView, bool, Option<ProtocolViolationKind>)
    decreases frames.len(),
{
    if frames.len() == 0 {
        (v, hello_done, None)
    } else {
        let (w, done, violation) = frames_step(v, hello_done, frames.drop_last());
        if violation is Some {
            (w, done, violation)
        } else {
            frame_step(w, done, frames.last())
        }
    }
}

impl Reader {
    /// A reader that has seen nothing.
    pub fn new() -> (r: Reader)
        ensures
            !r.hello_done,
    {
        Reader { hello_done: false }
    }

    /// Judges one decoded frame.
    pub fn on_frame(&mut self, mux: &mut Mux, frame: Option<u64>) -> (r: Result<
        ReplyOutcome,
        ProtocolViolationKind,
    >)
        requires
            old(mux).wf(),
        ensures
            final(mux).wf(),
            ({
                let (v, done, violation) = frame_step(old(mux)@, old(self).hello_done, frame);
                &&& final(mux)@ == v
                &&& final(self).hello_done == done
                &&& match r {
                    Ok(outcome) => violation is None && frame is Some && old(mux)@.reply_outcome(
                        frame->0 as nat,
                    ) == Ok::<ReplyOutcome, MuxViolation>(outcome),
                    Err(kind) => violation == Some(kind),
                }
            }),
    {
        let id = match frame {
            Some(id) => id,
            None => {
                return Err(
                    if self.hello_done {
                        ProtocolViolationKind::NotJson
                    } else {
                        ProtocolViolationKind::PreHelloOutput
                    },
                );
            },
        };
        if !self.hello_done && id != HELLO_ID {
            return Err(ProtocolViolationKind::PreHelloOutput);
        }
        self.hello_done = true;
        match mux.deliver(id) {
            Ok(outcome) => Ok(outcome),
            Err(violation) => Err(ProtocolViolationKind::from(violation)),
        }
    }

    /// Judges what one read off the adapter's output held: the frames that the
    /// decoder completed, and then its own verdict on the bytes. A violation is
    /// on record before it is returned.
    pub fn on_chunk(
        &mut self,
        mux: &mut Mux,
        frames: &Vec<Option<u64>>,
        fault: Option<ProtocolViolationKind>,
    ) -> (r: Option<ProtocolViolationKind>)
        requires
            old(mux).wf(),
        ensures
            final(mux).wf(),
            ({
                let (v, done, violation) = frames_step(
                    old(mux)@,
                    old(self).hello_done,
                    frames@,
                );
                let fatal = match (violation, fault) {
                    (Some(kind), _) => Some(kind),
                    (None, Some(kind)) => Some(classified(done, kind)),
                    (None, None) => None,
                };
                &&& r == fatal
                &&& final(self).hello_done == done
                &&& final(mux)@ == match fatal {
                    Some(kind) => v.violated(kind),
                    None => v,
                }
            }),
    {
        let mut i: usize = 0;
        let ghost (before, done_before) = (mux@, self.hello_done);
        while i < frames.len()
            invariant
                mux.wf(),
                i <= frames@.len(),
                before == old(mux)@,
                done_before == old(self).hello_done,
                frames_step(before, done_before, frames@.take(i as int)) == (
                    mux@,
                    self.hello_done,
                    None::<ProtocolViolationKind>,
                ),
            decreases frames@.len() - i,
        {
            proof {
                assert(frames@.take(i + 1).drop_last() =~= frames@.take(i as int));
                assert(frames@.take(i + 1).last() == frames@[i as int]);
                assert(frames_step(before, done_before, frames@.take(i + 1)) == frame_step(
                    mux@,
                    self.hello_done,
                    frames@[i as int],
                ));
            }
            if let Err(kind) = self.on_frame(mux, frames[i]) {
                proof {
                    lemma_frames_stop(before, done_before, frames@, i + 1);
                }
                mux.record_violation(kind);
                return Some(kind);
            }
            i = i + 1;
        }
        proof {
            assert(frames@.take(frames@.len() as int) =~= frames@);
        }
        match fault {
            Some(kind) => {
                let kind = if self.hello_done {
                    kind
                } else {
                    ProtocolViolationKind::PreHelloOutput
                };
                mux.record_violation(kind);
                Some(kind)
            },
            None => None,
        }
    }

    /// Judges the end of the adapter's output. Bytes of a frame that nothing
    /// will ever terminate are a violation; a read that merely failed is not
    /// reported here at all.
    pub fn on_end(&self, mux: &mut Mux, pending_bytes: usize) -> (r: Option<ProtocolViolationKind>)
        requires
            old(mux).wf(),
        ensures
            final(mux).wf(),
            r == if pending_bytes > 0 {
                Some(classified(self.hello_done, ProtocolViolationKind::UnterminatedFrame))
            } else {
                None
            },
            final(mux)@ == match r {
                Some(kind) => old(mux)@.violated(kind),
                None => old(mux)@,
            },
    {
        if pending_bytes > 0 {
            let kind = if self.hello_done {
                ProtocolViolationKind::UnterminatedFrame
            } else {
                ProtocolViolationKind::PreHelloOutput
            };
            mux.record_violation(kind);
            Some(kind)
        } else {
            None
        }
    }
}

/// A violation among the first frames is the verdict on all of them.
proof fn lemma_frames_stop(v: MuxView, hello_done: bool, frames: Seq<Option<u64>>, n: int)
    requires
        0 <= n <= frames.len(),
        frames_step(v, hello_done, frames.take(n)).2 is Some,
    ensures
        frames_step(v, hello_done, frames) == frames_step(v, hello_done, frames.take(n)),
    decreases frames.len() - n,
{
    if n == frames.len() {
        assert(frames.take(n) =~= frames);
    } else {
        assert(frames.take(n + 1).drop_last() =~= frames.take(n));
        lemma_frames_stop(v, hello_done, frames, n + 1);
    }
}

/// Whether a queued request may go on.
#[derive(Debug)]
pub enum Admission {
    Refused(HostError),
    Admitted,
}

/// What becomes of a request whose turn has come.
#[derive(Debug)]
pub enum Dispatch {
    Refused(HostError),
    Send { id: u64 },
}

/// How the write of a frame went.
#[derive(Debug, Clone, Copy, PartialEq, Eq, Structural)]
pub enum WriteOutcome {
    Written,
    /// The pipe is broken. Why is not known here, so nobody is told yet: the
    /// id goes on waiting for the real reason, up to its deadline.
    Broken,
    /// The deadline passed with part of the frame written.
    Elapsed,
}

/// How the wait for a reply ended.
#[derive(Debug, Clone, Copy, PartialEq, Eq, Structural)]
pub enum WaitOutcome {
    Replied,
    Ended(Terminal),
    Abandoned,
    Elapsed,
}

/// The verdict on a request that has not been written: a finished connection
/// refuses it for its reason, a passed deadline for the timeout.
pub open spec fn refusal(v: MuxView, expired: bool) -> Option<HostErrorView> {
    match v.terminal {
        Some(reason) => Some(error_of(reason)),
        None => if expired {
            Some(HostErrorView::Timeout)
        } else {
            None
        },
    }
}

impl Mux {
    /// Judges a request that was taken off the queue, and again once it may be
    /// written.
    pub fn judge_queued(&self, expired: bool) -> (r: Admission)
        ensures
            match r {
                Admission::Refused(e) => refusal(self@, expired) == Some(e@),
                Admission::Admitted => refusal(self@, expired) is None,
            },
    {
        match self.terminal {
            Some(reason) => Admission::Refused(reason.to_error()),
            None => if expired {
                Admission::Refused(HostError::Timeout)
            } else {
                Admission::Admitted
            },
        }
    }

    /// Gives a request its id, unless it is refused at the last moment.
    pub fn dispatch(&mut self, expired: bool) -> (r: Dispatch)
        requires
            old(self).wf(),
        ensures
            final(self).wf(),
            match r {
                Dispatch::Refused(e) => final(self)@ == old(self)@ && (match refusal(
                    old(self)@,
                    expired,
                ) {
                    Some(refused) => e@ == refused,
                    None => old(self)@.next_id() == u64::MAX && e@ == HostErrorView::IdsExhausted,
                }),
                Dispatch::Send { id } => refusal(old(self)@, expired) is None && id
                    == old(self)@.next_id() && id < u64::MAX && final(self)@
                    == old(self)@.issued(),
            },
    {
        match self.judge_queued(expired) {
            Admission::Refused(e) => Dispatch::Refused(e),
            Admission::Admitted => match self.issue() {
                Some(id) => Dispatch::Send { id },
                None => Dispatch::Refused(HostError::IdsExhausted),
            },
        }
    }

    /// Takes the outcome of a write. A frame cut short leaves the adapter's
    /// input without a place to resume, so the host gives up on the id and ends
    /// the connection; the ids that this resolves are returned.
    pub fn on_write(&mut self, id: u64, outcome: WriteOutcome) -> (r: Option<Finish>)
        requires
            old(self).wf(),
        ensures
            final(self).wf(),
            outcome != WriteOutcome::Elapsed ==> r is None && final(self)@ == old(self)@,
            outcome == WriteOutcome::Elapsed ==> {
                &&& final(self)@ == old(self)@.tombstoned(id as nat).finished(Terminal::Crashed(None))
                &&& r matches Some(finish) && {
                    &&& finish.won == (old(self)@.terminal is None)
                    &&& forall|k: u64|
                        finish.resolved@.contains(k) <==> finish.won && old(self)@.tombstoned(
                            id as nat,
                        ).slot(k as nat) == Some(Slot::Pending)
                    &&& finish.resolved@.no_duplicates()
                }
            },
    {
        match outcome {
            WriteOutcome::Elapsed => {
                self.tombstone(id);
                Some(self.finish(Terminal::Crashed(None)))
            },
            _ => None,
        }
    }

    /// Takes the outcome of the wait for a reply: what the caller is told, and
    /// whether the host has given up on the id.
    pub fn settle(&mut self, id: u64, outcome: WaitOutcome) -> (r: Result<(), HostError>)
        requires
            old(self).wf(),
        ensures
            final(self).wf(),
            final(self)@ == if outcome == WaitOutcome::Elapsed {
                old(self)@.tombstoned(id as nat)
            } else {
                old(self)@
            },
            match outcome {
                WaitOutcome::Replied => r is Ok,
                WaitOutcome::Ended(reason) => r matches Err(e) && e@ == error_of(reason),
                WaitOutcome::Abandoned => r matches Err(e) && e@ == old(self)@.terminal_error(),
                WaitOutcome::Elapsed => r matches Err(e) && e@ == HostErrorView::Timeout,
            },
    {
        match outcome {
            WaitOutcome::Replied => Ok(()),
            WaitOutcome::Ended(reason) => Err(reason.to_error()),
            WaitOutcome::Abandoned => Err(self.terminal_error()),
            WaitOutcome::Elapsed => {
                self.tombstone(id);
                Err(HostError::Timeout)
            },
        }
    }
}

/// The request line of a frame.
pub open spec fn frame_text(id: nat, op: Seq<char>, params: Seq<char>) -> Seq<char> {
    "{\"id\":"@ + decimal(id) + ",\"op\":"@ + quoted(op) + ",\"params\":"@ + params + "}\n"@
}

/// Writes a request as one line.
pub fn build_frame(id: u64, op: &str, params: &JsonObject) -> (r: String)
    ensures
        r@ == frame_text(id as nat, op@, params@),
{
    let mut out = "{\"id\":".to_owned();
    push_decimal(&mut out, id);
    out.append(",\"op\":");
    push_quoted(&mut out, op);
    out.append(",\"params\":");
    out.append(params.as_str());
    out.append("}\n");
    out
}

/// How many more requests may be in flight once the adapter's own number is
/// known: one may be from the start, and a number of zero counts as one.
pub fn raise_concurrency(max_in_flight: u32) -> (extra: u32)
    ensures
        extra == if max_in_flight <= 1 {
            0
        } else {
            max_in_flight - 1
        },
{
    max_in_flight.saturating_sub(1)
}

/// One request and its reply, as they passed through a connection.
#[derive(Debug)]
pub struct Exchange {
    pub op: String,
    pub params: JsonObject,
    pub frame: Option<String>,
    pub received_at: Option<Rfc3339>,
}

/// The requests of a connection in the order in which they were dispatched,
/// each with its reply once there is one.
#[derive(Debug)]
pub struct Transcript {
    exchanges: Vec<Exchange>,
}

impl View for Transcript {
    type V = Seq<Exchange>;

    closed spec fn view(&self) -> Seq<Exchange> {
        self.exchanges@
    }
}

impl Transcript {
    /// A transcript of nothing.
    pub fn new() -> (r: Transcript)
        ensures
            r@ == Seq::<Exchange>::empty(),
    {
        Transcript { exchanges: Vec::new() }
    }

    /// Appends a request that has no reply yet, and returns its place.
    pub fn push(&mut self, op: String, params: JsonObject) -> (r: usize)
        ensures
            r == old(self)@.len(),
            final(self)@ == old(self)@.push(
                Exchange { op, params, frame: None, received_at: None },
            ),
    {
        let place = self.exchanges.len();
        self.exchanges.push(Exchange { op, params, frame: None, received_at: None });
        place
    }

    /// Fills in a reply. A place that was never handed out is left alone.
    pub fn fill(&mut self, place: usize, frame: String, received_at: Rfc3339)
        ensures
            place < old(self)@.len() ==> final(self)@ == old(self)@.update(
                place as int,
                Exchange {
                    frame: Some(frame),
                    received_at: Some(received_at),
                    ..old(self)@[place as int]
                },
            ),
            place >= old(self)@.len() ==> final(self)@ == old(self)@,
    {
        if place < self.exchanges.len() {
            let exchange = &mut self.exchanges[place];
            exchange.frame = Some(frame);
            exchange.received_at = Some(received_at);
        }
    }

    /// Everything recorded so far.
    pub fn snapshot(&self) -> (r: &[Exchange])
        ensures
            r@ == self@,
    {
        self.exchanges.as_slice()
    }
}

} // verus!
