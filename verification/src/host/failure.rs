//! Every way in which a call into an adapter can fail.

use crate::text::{push_signed, signed_decimal};
use crate::wire::failure::{ErrorBody, ErrorBodyView, ProtocolViolationKind};
use vstd::prelude::*;

verus! {

/// A failed call: an `err` on the wire, or an outcome that only the host knows.
#[derive(Debug)]
pub enum HostError {
    /// The adapter answered `err`, or the host could not make sense of what it
    /// answered.
    Wire(ErrorBody),
    /// The host stopped waiting. The connection survives.
    Timeout,
    /// The adapter process is gone.
    AdapterCrashed { status: Option<i32> },
    /// The connection broke the wire contract and has been ended.
    ProtocolViolation(ProtocolViolationKind),
    /// The adapter process could not be started.
    Spawn(String),
    /// The connection has no request id left to give.
    IdsExhausted,
}

/// What a failure says.
pub enum HostErrorView {
    Wire(ErrorBodyView),
    Timeout,
    AdapterCrashed(Option<i32>),
    ProtocolViolation(ProtocolViolationKind),
    Spawn(Seq<char>),
    IdsExhausted,
}

impl View for HostError {
    type V = HostErrorView;

    open spec fn view(&self) -> HostErrorView {
        match self {
            HostError::Wire(err) => HostErrorView::Wire(err@),
            HostError::Timeout => HostErrorView::Timeout,
            HostError::AdapterCrashed { status } => HostErrorView::AdapterCrashed(*status),
            HostError::ProtocolViolation(kind) => HostErrorView::ProtocolViolation(*kind),
            HostError::Spawn(message) => HostErrorView::Spawn(message@),
            HostError::IdsExhausted => HostErrorView::IdsExhausted,
        }
    }
}

impl Clone for HostError {
    fn clone(&self) -> (r: Self)
        ensures
            r == *self,
    {
        match self {
            HostError::Wire(err) => HostError::Wire(err.clone()),
            HostError::Timeout => HostError::Timeout,
            HostError::AdapterCrashed { status } => HostError::AdapterCrashed { status: *status },
            HostError::ProtocolViolation(kind) => HostError::ProtocolViolation(*kind),
            HostError::Spawn(message) => HostError::Spawn(message.clone()),
            HostError::IdsExhausted => HostError::IdsExhausted,
        }
    }
}

/// How an optional exit status is written.
pub open spec fn status_text(status: Option<i32>) -> Seq<char> {
    match status {
        Some(code) => "Some("@ + signed_decimal(code as int) + ")"@,
        None => "None"@,
    }
}

impl HostErrorView {
    /// The message of a failure.
    pub open spec fn message(self) -> Seq<char> {
        match self {
            HostErrorView::Wire(err) => "adapter error "@ + err.code.spec_name() + ": "@
                + err.message,
            HostErrorView::Timeout => "request timed out"@,
            HostErrorView::AdapterCrashed(status) => "adapter crashed (status "@ + status_text(
                status,
            ) + ")"@,
            HostErrorView::ProtocolViolation(kind) => "protocol violation: "@ + kind.spec_name(),
            HostErrorView::Spawn(message) => "could not spawn adapter: "@ + message,
            HostErrorView::IdsExhausted => "adapter connection ran out of request ids"@,
        }
    }
}

impl HostError {
    /// Writes the message.
    pub fn to_string(&self) -> (r: String)
        ensures
            r@ == self@.message(),
    {
        match self {
            HostError::Wire(err) => {
                let mut out = "adapter error ".to_owned();
                out.append(err.code.name());
                out.append(": ");
                out.append(err.message.as_str());
                out
            },
            HostError::Timeout => "request timed out".to_owned(),
            HostError::AdapterCrashed { status } => {
                let mut out = "adapter crashed (status ".to_owned();
                let ghost head = out@;
                match status {
                    Some(code) => {
                        out.append("Some(");
                        push_signed(&mut out, *code as i64);
                        out.append(")");
                        proof {
                            assert(out@ =~= head + status_text(*status));
                        }
                    },
                    None => out.append("None"),
                }
                out.append(")");
                out
            },
            HostError::ProtocolViolation(kind) => {
                let mut out = "protocol violation: ".to_owned();
                out.append(kind.name());
                out
            },
            HostError::Spawn(message) => {
                let mut out = "could not spawn adapter: ".to_owned();
                out.append(message.as_str());
                out
            },
            HostError::IdsExhausted => "adapter connection ran out of request ids".to_owned(),
        }
    }
}

} // verus!
