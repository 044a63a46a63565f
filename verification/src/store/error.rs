//! The one error type of the store.

use crate::host::failure::HostError;
use crate::money::error::MoneyError;
use crate::text::{push_signed, signed_decimal};
use vstd::prelude::*;

verus! {

/// The schema version that this build writes and expects.
pub const USER_VERSION: i64 = 1;

/// Every way in which a command on a profile can fail.
#[derive(Debug)]
pub enum StoreError {
    Sqlite(String),
    Io(String),
    Json(String),
    Money(MoneyError),
    Host(String),
    /// A second writing command is already running on this profile.
    ProfileLocked(String),
    NoProfile(String),
    SchemaVersion { path: String, found: i64, expected: i64 },
    /// A stored row came back in a shape that cannot be read.
    CorruptRow(String),
    Usage(String),
}

/// What a failure says.
pub enum StoreErrorView {
    Sqlite(Seq<char>),
    Io(Seq<char>),
    Json(Seq<char>),
    Money(MoneyError),
    Host(Seq<char>),
    ProfileLocked(Seq<char>),
    NoProfile(Seq<char>),
    SchemaVersion(Seq<char>, int, int),
    CorruptRow(Seq<char>),
    Usage(Seq<char>),
}

impl View for StoreError {
    type V = StoreErrorView;

    open spec fn view(&self) -> StoreErrorView {
        match self {
            StoreError::Sqlite(e) => StoreErrorView::Sqlite(e@),
            StoreError::Io(e) => StoreErrorView::Io(e@),
            StoreError::Json(e) => StoreErrorView::Json(e@),
            StoreError::Money(e) => StoreErrorView::Money(*e),
            StoreError::Host(e) => StoreErrorView::Host(e@),
            StoreError::ProfileLocked(path) => StoreErrorView::ProfileLocked(path@),
            StoreError::NoProfile(path) => StoreErrorView::NoProfile(path@),
            StoreError::SchemaVersion { path, found, expected } => StoreErrorView::SchemaVersion(
                path@,
                *found as int,
                *expected as int,
            ),
            StoreError::CorruptRow(e) => StoreErrorView::CorruptRow(e@),
            StoreError::Usage(e) => StoreErrorView::Usage(e@),
        }
    }
}

impl StoreErrorView {
    /// The message of a failure.
    pub open spec fn message(self) -> Seq<char> {
        match self {
            StoreErrorView::Sqlite(e) => "sqlite: "@ + e,
            StoreErrorView::Io(e) => "io: "@ + e,
            StoreErrorView::Json(e) => "json: "@ + e,
            StoreErrorView::Money(e) => "money: "@ + e.message(),
            StoreErrorView::Host(e) => "adapter: "@ + e,
            StoreErrorView::ProfileLocked(path) =>
                "another sumer process is writing to the profile at "@ + path,
            StoreErrorView::NoProfile(path) => "no profile at "@ + path
                + " -- run `sumer init` first"@,
            StoreErrorView::SchemaVersion(path, found, expected) => "profile at "@ + path
                + " is schema version "@ + signed_decimal(found) + ", this build speaks "@
                + signed_decimal(expected),
            StoreErrorView::CorruptRow(e) => "stored row is unreadable: "@ + e,
            StoreErrorView::Usage(e) => e,
        }
    }
}

impl StoreError {
    /// Writes the message.
    pub fn to_string(&self) -> (r: String)
        ensures
            r@ == self@.message(),
    {
        match self {
            StoreError::Sqlite(e) => joined("sqlite: ", e.as_str()),
            StoreError::Io(e) => joined("io: ", e.as_str()),
            StoreError::Json(e) => joined("json: ", e.as_str()),
            StoreError::Money(e) => joined("money: ", e.to_string().as_str()),
            StoreError::Host(e) => joined("adapter: ", e.as_str()),
            StoreError::ProfileLocked(path) => joined(
                "another sumer process is writing to the profile at ",
                path.as_str(),
            ),
            StoreError::NoProfile(path) => {
                let mut out = joined("no profile at ", path.as_str());
                out.append(" -- run `sumer init` first");
                out
            },
            StoreError::SchemaVersion { path, found, expected } => {
                let mut out = joined("profile at ", path.as_str());
                out.append(" is schema version ");
                push_signed(&mut out, *found);
                out.append(", this build speaks ");
                push_signed(&mut out, *expected);
                out
            },
            StoreError::CorruptRow(e) => joined("stored row is unreadable: ", e.as_str()),
            StoreError::Usage(e) => e.clone(),
        }
    }

    /// A failed call into an adapter, as a failure of the store: its message.
    pub fn from_host(e: &HostError) -> (r: StoreError)
        ensures
            r@ == StoreErrorView::Host(e@.message()),
    {
        StoreError::Host(e.to_string())
    }
}

/// Two texts, one behind the other.
pub fn joined(a: &str, b: &str) -> (r: String)
    ensures
        r@ == a@ + b@,
{
    let mut out = a.to_owned();
    out.append(b);
    out
}

/// Judges the schema version that an opened profile is stamped with: any but
/// this build's own is refused rather than guessed at.
pub fn check_version(path: &str, found: i64) -> (r: Result<(), StoreError>)
    ensures
        match r {
            Ok(_) => found == USER_VERSION,
            Err(e) => found != USER_VERSION && e@ == StoreErrorView::SchemaVersion(
                path@,
                found as int,
                USER_VERSION as int,
            ),
        },
{
    if found == USER_VERSION {
        Ok(())
    } else {
        Err(StoreError::SchemaVersion { path: path.to_owned(), found, expected: USER_VERSION })
    }
}

} // verus!
