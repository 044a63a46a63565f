//! How a call can fail on the wire.

use crate::wire::json::JsonObject;
use vstd::prelude::*;

verus! {

/// The closed vocabulary of an adapter's `err`.
#[derive(Debug, Clone, Copy, PartialEq, Eq, Structural)]
pub enum WireErrorCode {
    InvalidRequest,
    UnsupportedProtocol,
    Unsupported,
    Internal,
}

impl WireErrorCode {
    /// The name that a message gives the code.
    pub open spec fn spec_name(self) -> Seq<char> {
        match self {
            WireErrorCode::InvalidRequest => "InvalidRequest"@,
            WireErrorCode::UnsupportedProtocol => "UnsupportedProtocol"@,
            WireErrorCode::Unsupported => "Unsupported"@,
            WireErrorCode::Internal => "Internal"@,
        }
    }

    /// Writes the name.
    pub fn name(&self) -> (r: &'static str)
        ensures
            r@ == self.spec_name(),
    {
        match self {
            WireErrorCode::InvalidRequest => "InvalidRequest",
            WireErrorCode::UnsupportedProtocol => "UnsupportedProtocol",
            WireErrorCode::Unsupported => "Unsupported",
            WireErrorCode::Internal => "Internal",
        }
    }
}

/// The ways in which a connection can break the wire contract for good.
#[derive(Debug, Clone, Copy, PartialEq, Eq, Structural)]
pub enum ProtocolViolationKind {
    PreHelloOutput,
    NotJson,
    NotUtf8,
    UnknownId,
    DuplicateId,
    OversizeFrame,
    UnterminatedFrame,
    StdinEofIgnored,
    StdoutHeldOpen,
}

impl ProtocolViolationKind {
    /// The name that a message gives the violation.
    pub open spec fn spec_name(self) -> Seq<char> {
        match self {
            ProtocolViolationKind::PreHelloOutput => "PreHelloOutput"@,
            ProtocolViolationKind::NotJson => "NotJson"@,
            ProtocolViolationKind::NotUtf8 => "NotUtf8"@,
            ProtocolViolationKind::UnknownId => "UnknownId"@,
            ProtocolViolationKind::DuplicateId => "DuplicateId"@,
            ProtocolViolationKind::OversizeFrame => "OversizeFrame"@,
            ProtocolViolationKind::UnterminatedFrame => "UnterminatedFrame"@,
            ProtocolViolationKind::StdinEofIgnored => "StdinEofIgnored"@,
            ProtocolViolationKind::StdoutHeldOpen => "StdoutHeldOpen"@,
        }
    }

    /// Writes the name.
    pub fn name(&self) -> (r: &'static str)
        ensures
            r@ == self.spec_name(),
    {
        match self {
            ProtocolViolationKind::PreHelloOutput => "PreHelloOutput",
            ProtocolViolationKind::NotJson => "NotJson",
            ProtocolViolationKind::NotUtf8 => "NotUtf8",
            ProtocolViolationKind::UnknownId => "UnknownId",
            ProtocolViolationKind::DuplicateId => "DuplicateId",
            ProtocolViolationKind::OversizeFrame => "OversizeFrame",
            ProtocolViolationKind::UnterminatedFrame => "UnterminatedFrame",
            ProtocolViolationKind::StdinEofIgnored => "StdinEofIgnored",
            ProtocolViolationKind::StdoutHeldOpen => "StdoutHeldOpen",
        }
    }
}

/// An `err` envelope: what class of failure, and what it says.
#[derive(Debug)]
pub struct ErrorBody {
    pub code: WireErrorCode,
    pub message: String,
    pub detail: Option<JsonObject>,
}

/// What an `err` envelope says.
pub struct ErrorBodyView {
    pub code: WireErrorCode,
    pub message: Seq<char>,
    pub detail: Option<Seq<char>>,
}

impl View for ErrorBody {
    type V = ErrorBodyView;

    open spec fn view(&self) -> ErrorBodyView {
        ErrorBodyView {
            code: self.code,
            message: self.message@,
            detail: match self.detail {
                Some(detail) => Some(detail@),
                None => None,
            },
        }
    }
}

impl ErrorBody {
    /// An envelope without detail.
    pub fn new(code: WireErrorCode, message: String) -> (r: ErrorBody)
        ensures
            r@ == (ErrorBodyView { code, message: message@, detail: None }),
    {
        ErrorBody { code, message, detail: None }
    }
}

impl Clone for ErrorBody {
    fn clone(&self) -> (r: Self)
        ensures
            r == *self,
    {
        ErrorBody {
            code: self.code,
            message: self.message.clone(),
            detail: match &self.detail {
                Some(detail) => Some(detail.clone()),
                None => None,
            },
        }
    }
}

} // verus!
