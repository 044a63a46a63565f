//! Observations and balances, before and after the host has stamped them.

use crate::money::amount::{Amount, AmountView};
use crate::text::{copy_opt, opt_view, same};
use crate::wire::json::JsonObject;
use crate::wire::timestamp::Rfc3339;
use vstd::prelude::*;

verus! {

/// Whether a record stands.
#[derive(Debug, Clone, Copy, PartialEq, Eq, Structural)]
pub enum ObservationState {
    Active,
    Tombstoned,
}

/// How far a record has come at the provider.
#[derive(Debug, Clone, Copy, PartialEq, Eq, Structural)]
pub enum Posting {
    Pending,
    Posted,
    Unknown,
}

/// Which way the provider signs its amounts.
#[derive(Debug, Clone, Copy, PartialEq, Eq, Structural)]
pub enum RawSign {
    ProviderPositive,
    ProviderNegative,
}

/// What the adapter claims of the completeness of a read.
#[derive(Debug, Clone, Copy, PartialEq, Eq, Structural)]
pub enum Completeness {
    Complete,
    Partial,
    Unknown,
}

/// How current the host takes a record to be.
#[derive(Debug, Clone, Copy, PartialEq, Eq, Structural)]
pub enum Staleness {
    Live,
    Cached,
    Unavailable,
}

impl ObservationState {
    /// The wire spelling.
    pub open spec fn spec_spelling(self) -> Seq<char> {
        match self {
            ObservationState::Active => "active"@,
            ObservationState::Tombstoned => "tombstoned"@,
        }
    }

    /// Writes the wire spelling.
    pub fn spelling(&self) -> (r: &'static str)
        ensures
            r@ == self.spec_spelling(),
    {
        match self {
            ObservationState::Active => "active",
            ObservationState::Tombstoned => "tombstoned",
        }
    }

    /// Reads the wire spelling.
    pub fn from_spelling(text: &str) -> (r: Option<ObservationState>)
        ensures
            match r {
                Some(v) => text@ == v.spec_spelling(),
                None => forall|v: ObservationState| text@ != #[trigger] v.spec_spelling(),
            },
    {
        if same(text, "active") {
            Some(ObservationState::Active)
        } else if same(text, "tombstoned") {
            Some(ObservationState::Tombstoned)
        } else {
            None
        }
    }
}

impl Posting {
    /// The wire spelling.
    pub open spec fn spec_spelling(self) -> Seq<char> {
        match self {
            Posting::Pending => "pending"@,
            Posting::Posted => "posted"@,
            Posting::Unknown => "unknown"@,
        }
    }

    /// Writes the wire spelling.
    pub fn spelling(&self) -> (r: &'static str)
        ensures
            r@ == self.spec_spelling(),
    {
        match self {
            Posting::Pending => "pending",
            Posting::Posted => "posted",
            Posting::Unknown => "unknown",
        }
    }

    /// Reads the wire spelling.
    pub fn from_spelling(text: &str) -> (r: Option<Posting>)
        ensures
            match r {
                Some(v) => text@ == v.spec_spelling(),
                None => forall|v: Posting| text@ != #[trigger] v.spec_spelling(),
            },
    {
        if same(text, "pending") {
            Some(Posting::Pending)
        } else if same(text, "posted") {
            Some(Posting::Posted)
        } else if same(text, "unknown") {
            Some(Posting::Unknown)
        } else {
            None
        }
    }
}

impl RawSign {
    /// The wire spelling.
    pub open spec fn spec_spelling(self) -> Seq<char> {
        match self {
            RawSign::ProviderPositive => "provider_positive"@,
            RawSign::ProviderNegative => "provider_negative"@,
        }
    }

    /// Writes the wire spelling.
    pub fn spelling(&self) -> (r: &'static str)
        ensures
            r@ == self.spec_spelling(),
    {
        match self {
            RawSign::ProviderPositive => "provider_positive",
            RawSign::ProviderNegative => "provider_negative",
        }
    }

    /// Reads the wire spelling.
    pub fn from_spelling(text: &str) -> (r: Option<RawSign>)
        ensures
            match r {
                Some(v) => text@ == v.spec_spelling(),
                None => forall|v: RawSign| text@ != #[trigger] v.spec_spelling(),
            },
    {
        if same(text, "provider_positive") {
            Some(RawSign::ProviderPositive)
        } else if same(text, "provider_negative") {
            Some(RawSign::ProviderNegative)
        } else {
            None
        }
    }
}

impl Completeness {
    /// The wire spelling.
    pub open spec fn spec_spelling(self) -> Seq<char> {
        match self {
            Completeness::Complete => "complete"@,
            Completeness::Partial => "partial"@,
            Completeness::Unknown => "unknown"@,
        }
    }

    /// Writes the wire spelling.
    pub fn spelling(&self) -> (r: &'static str)
        ensures
            r@ == self.spec_spelling(),
    {
        match self {
            Completeness::Complete => "complete",
            Completeness::Partial => "partial",
            Completeness::Unknown => "unknown",
        }
    }

    /// Reads the wire spelling.
    pub fn from_spelling(text: &str) -> (r: Option<Completeness>)
        ensures
            match r {
                Some(v) => text@ == v.spec_spelling(),
                None => forall|v: Completeness| text@ != #[trigger] v.spec_spelling(),
            },
    {
        if same(text, "complete") {
            Some(Completeness::Complete)
        } else if same(text, "partial") {
            Some(Completeness::Partial)
        } else if same(text, "unknown") {
            Some(Completeness::Unknown)
        } else {
            None
        }
    }
}

impl Staleness {
    /// The spelling in the store.
    pub open spec fn spec_spelling(self) -> Seq<char> {
        match self {
            Staleness::Live => "live"@,
            Staleness::Cached => "cached"@,
            Staleness::Unavailable => "unavailable"@,
        }
    }

    /// Writes the spelling.
    pub fn spelling(&self) -> (r: &'static str)
        ensures
            r@ == self.spec_spelling(),
    {
        match self {
            Staleness::Live => "live",
            Staleness::Cached => "cached",
            Staleness::Unavailable => "unavailable",
        }
    }

    /// Reads the spelling.
    pub fn from_spelling(text: &str) -> (r: Option<Staleness>)
        ensures
            match r {
                Some(v) => text@ == v.spec_spelling(),
                None => forall|v: Staleness| text@ != #[trigger] v.spec_spelling(),
            },
    {
        if same(text, "live") {
            Some(Staleness::Live)
        } else if same(text, "cached") {
            Some(Staleness::Cached)
        } else if same(text, "unavailable") {
            Some(Staleness::Unavailable)
        } else {
            None
        }
    }
}

/// No two values share a spelling, so what was written is what is read back.
pub proof fn law_spellings_are_distinct()
    ensures
        forall|a: ObservationState, b: ObservationState|
            #[trigger] a.spec_spelling() == #[trigger] b.spec_spelling() ==> a == b,
        forall|a: Posting, b: Posting|
            #[trigger] a.spec_spelling() == #[trigger] b.spec_spelling() ==> a == b,
        forall|a: RawSign, b: RawSign|
            #[trigger] a.spec_spelling() == #[trigger] b.spec_spelling() ==> a == b,
        forall|a: Completeness, b: Completeness|
            #[trigger] a.spec_spelling() == #[trigger] b.spec_spelling() ==> a == b,
        forall|a: Staleness, b: Staleness|
            #[trigger] a.spec_spelling() == #[trigger] b.spec_spelling() ==> a == b,
{
    reveal_strlit("active");
    reveal_strlit("tombstoned");
    reveal_strlit("pending");
    reveal_strlit("posted");
    reveal_strlit("unknown");
    reveal_strlit("provider_positive");
    reveal_strlit("provider_negative");
    reveal_strlit("complete");
    reveal_strlit("partial");
    reveal_strlit("live");
    reveal_strlit("cached");
    reveal_strlit("unavailable");
    assert("active"@[0] != "tombstoned"@[0]);
    assert("pending"@[1] != "posted"@[1]);
    assert("unknown"@[0] != "pending"@[0] && "unknown"@[0] != "posted"@[0]);
    assert("provider_positive"@[9] != "provider_negative"@[9]);
    assert("complete"@[0] != "partial"@[0]);
    assert("unknown"@[0] != "complete"@[0] && "unknown"@[0] != "partial"@[0]);
    assert("live"@[0] != "cached"@[0]);
    assert("unavailable"@[0] != "live"@[0] && "unavailable"@[0] != "cached"@[0]);
}

/// Where a record comes from, as the adapter tells it. There is no place in it
/// for what only the host can stamp.
#[derive(Debug)]
pub struct ProvenanceWire {
    pub adapter_id: String,
    pub provider_id: String,
    pub surface: String,
    pub observed_at: Rfc3339,
    pub effective_at: Option<Rfc3339>,
    pub completeness: Completeness,
}

/// Where a record comes from, with the host's own stamps.
#[derive(Debug)]
pub struct Provenance {
    pub adapter_id: String,
    pub provider_id: String,
    pub surface: String,
    pub observed_at: Rfc3339,
    pub effective_at: Option<Rfc3339>,
    pub completeness: Completeness,
    pub received_at: Rfc3339,
    pub staleness: Staleness,
}

impl Clone for Provenance {
    fn clone(&self) -> (r: Self)
        ensures
            r == *self,
    {
        Provenance {
            adapter_id: self.adapter_id.clone(),
            provider_id: self.provider_id.clone(),
            surface: self.surface.clone(),
            observed_at: self.observed_at.clone(),
            effective_at: match &self.effective_at {
                Some(at) => Some(at.clone()),
                None => None,
            },
            completeness: self.completeness,
            received_at: self.received_at.clone(),
            staleness: self.staleness,
        }
    }
}

impl Provenance {
    /// Adds the host's stamps.
    pub fn stamp(wire: ProvenanceWire, received_at: Rfc3339, staleness: Staleness) -> (r: Provenance)
        ensures
            r == (Provenance {
                adapter_id: wire.adapter_id,
                provider_id: wire.provider_id,
                surface: wire.surface,
                observed_at: wire.observed_at,
                effective_at: wire.effective_at,
                completeness: wire.completeness,
                received_at,
                staleness,
            }),
    {
        Provenance {
            adapter_id: wire.adapter_id,
            provider_id: wire.provider_id,
            surface: wire.surface,
            observed_at: wire.observed_at,
            effective_at: wire.effective_at,
            completeness: wire.completeness,
            received_at,
            staleness,
        }
    }
}

/// One record, as the adapter tells it.
#[derive(Debug)]
pub struct ObservationWire {
    pub resource_id: String,
    pub local_id: String,
    pub provider_id: Option<String>,
    pub supersedes_provider_id: Option<String>,
    pub state: ObservationState,
    pub tombstone_reason: Option<String>,
    pub surface: String,
    pub posting: Posting,
    pub amount: Amount,
    pub fees: Option<Amount>,
    pub raw_sign: RawSign,
    pub description: String,
    pub provider_extra: JsonObject,
    pub provenance: ProvenanceWire,
}

/// One record, with the host's own stamps.
#[derive(Debug)]
pub struct Observation {
    pub resource_id: String,
    pub local_id: String,
    pub provider_id: Option<String>,
    pub supersedes_provider_id: Option<String>,
    pub state: ObservationState,
    pub tombstone_reason: Option<String>,
    pub surface: String,
    pub posting: Posting,
    pub amount: Amount,
    pub fees: Option<Amount>,
    pub raw_sign: RawSign,
    pub description: String,
    pub provider_extra: JsonObject,
    pub provenance: Provenance,
}

/// What the provenance of a record says.
pub struct ProvenanceView {
    pub adapter_id: Seq<char>,
    pub provider_id: Seq<char>,
    pub surface: Seq<char>,
    pub observed_at: Seq<char>,
    pub effective_at: Option<Seq<char>>,
    pub completeness: Completeness,
    pub received_at: Seq<char>,
    pub staleness: Staleness,
}

/// What a record says.
pub struct ObservationView {
    pub resource_id: Seq<char>,
    pub local_id: Seq<char>,
    pub provider_id: Option<Seq<char>>,
    pub supersedes_provider_id: Option<Seq<char>>,
    pub state: ObservationState,
    pub tombstone_reason: Option<Seq<char>>,
    pub surface: Seq<char>,
    pub posting: Posting,
    pub amount: AmountView,
    pub fees: Option<AmountView>,
    pub raw_sign: RawSign,
    pub description: Seq<char>,
    pub provider_extra: Seq<char>,
    pub provenance: ProvenanceView,
}

/// The view of an optional timestamp.
pub open spec fn opt_time_view(o: Option<Rfc3339>) -> Option<Seq<char>> {
    match o {
        Some(t) => Some(t@),
        None => None,
    }
}

/// The view of an optional amount.
pub open spec fn opt_amount_view(o: Option<Amount>) -> Option<AmountView> {
    match o {
        Some(a) => Some(a@),
        None => None,
    }
}

impl View for Provenance {
    type V = ProvenanceView;

    open spec fn view(&self) -> ProvenanceView {
        ProvenanceView {
            adapter_id: self.adapter_id@,
            provider_id: self.provider_id@,
            surface: self.surface@,
            observed_at: self.observed_at@,
            effective_at: opt_time_view(self.effective_at),
            completeness: self.completeness,
            received_at: self.received_at@,
            staleness: self.staleness,
        }
    }
}

impl View for Observation {
    type V = ObservationView;

    open spec fn view(&self) -> ObservationView {
        ObservationView {
            resource_id: self.resource_id@,
            local_id: self.local_id@,
            provider_id: opt_view(self.provider_id),
            supersedes_provider_id: opt_view(self.supersedes_provider_id),
            state: self.state,
            tombstone_reason: opt_view(self.tombstone_reason),
            surface: self.surface@,
            posting: self.posting,
            amount: self.amount@,
            fees: opt_amount_view(self.fees),
            raw_sign: self.raw_sign,
            description: self.description@,
            provider_extra: self.provider_extra@,
            provenance: self.provenance@,
        }
    }
}

/// Copies an optional amount.
pub fn copy_opt_amount(o: &Option<Amount>) -> (r: Option<Amount>)
    ensures
        opt_amount_view(r) == opt_amount_view(*o),
{
    match o {
        Some(a) => Some(a.clone()),
        None => None,
    }
}

impl Clone for Observation {
    fn clone(&self) -> (r: Self)
        ensures
            r@ == self@,
    {
        Observation {
            resource_id: self.resource_id.clone(),
            local_id: self.local_id.clone(),
            provider_id: copy_opt(&self.provider_id),
            supersedes_provider_id: copy_opt(&self.supersedes_provider_id),
            state: self.state,
            tombstone_reason: copy_opt(&self.tombstone_reason),
            surface: self.surface.clone(),
            posting: self.posting,
            amount: self.amount.clone(),
            fees: copy_opt_amount(&self.fees),
            raw_sign: self.raw_sign,
            description: self.description.clone(),
            provider_extra: self.provider_extra.clone(),
            provenance: self.provenance.clone(),
        }
    }
}

impl Observation {
    /// Adds the host's stamps.
    pub fn stamp(wire: ObservationWire, received_at: Rfc3339, staleness: Staleness) -> (r:
        Observation)
        ensures
            r == stamped_observation(wire, received_at, staleness),
    {
        Observation {
            resource_id: wire.resource_id,
            local_id: wire.local_id,
            provider_id: wire.provider_id,
            supersedes_provider_id: wire.supersedes_provider_id,
            state: wire.state,
            tombstone_reason: wire.tombstone_reason,
            surface: wire.surface,
            posting: wire.posting,
            amount: wire.amount,
            fees: wire.fees,
            raw_sign: wire.raw_sign,
            description: wire.description,
            provider_extra: wire.provider_extra,
            provenance: Provenance::stamp(wire.provenance, received_at, staleness),
        }
    }
}

/// A provenance with the host's stamps.
pub open spec fn stamped_provenance(
    wire: ProvenanceWire,
    received_at: Rfc3339,
    staleness: Staleness,
) -> Provenance {
    Provenance {
        adapter_id: wire.adapter_id,
        provider_id: wire.provider_id,
        surface: wire.surface,
        observed_at: wire.observed_at,
        effective_at: wire.effective_at,
        completeness: wire.completeness,
        received_at,
        staleness,
    }
}

/// A record with the host's stamps.
pub open spec fn stamped_observation(
    wire: ObservationWire,
    received_at: Rfc3339,
    staleness: Staleness,
) -> Observation {
    Observation {
        resource_id: wire.resource_id,
        local_id: wire.local_id,
        provider_id: wire.provider_id,
        supersedes_provider_id: wire.supersedes_provider_id,
        state: wire.state,
        tombstone_reason: wire.tombstone_reason,
        surface: wire.surface,
        posting: wire.posting,
        amount: wire.amount,
        fees: wire.fees,
        raw_sign: wire.raw_sign,
        description: wire.description,
        provider_extra: wire.provider_extra,
        provenance: stamped_provenance(wire.provenance, received_at, staleness),
    }
}

/// One balance line, as the adapter tells it. No amount means that the adapter
/// looked and does not know: it never stands for zero.
#[derive(Debug)]
pub struct BalanceWire {
    pub resource_id: String,
    pub category: String,
    pub canonical_hint: Option<String>,
    pub amount: Option<Amount>,
    pub provenance: ProvenanceWire,
}

/// One balance line, with the host's own stamps.
#[derive(Debug)]
pub struct Balance {
    pub resource_id: String,
    pub category: String,
    pub canonical_hint: Option<String>,
    pub amount: Option<Amount>,
    pub provenance: Provenance,
}

/// A balance line with the host's stamps.
pub open spec fn stamped_balance(
    wire: BalanceWire,
    received_at: Rfc3339,
    staleness: Staleness,
) -> Balance {
    Balance {
        resource_id: wire.resource_id,
        category: wire.category,
        canonical_hint: wire.canonical_hint,
        amount: wire.amount,
        provenance: stamped_provenance(wire.provenance, received_at, staleness),
    }
}

impl Balance {
    /// Adds the host's stamps.
    pub fn stamp(wire: BalanceWire, received_at: Rfc3339, staleness: Staleness) -> (r: Balance)
        ensures
            r == stamped_balance(wire, received_at, staleness),
    {
        Balance {
            resource_id: wire.resource_id,
            category: wire.category,
            canonical_hint: wire.canonical_hint,
            amount: wire.amount,
            provenance: Provenance::stamp(wire.provenance, received_at, staleness),
        }
    }
}

/// What a balance line says.
pub struct BalanceView {
    pub resource_id: Seq<char>,
    pub category: Seq<char>,
    pub canonical_hint: Option<Seq<char>>,
    pub amount: Option<AmountView>,
    pub provenance: ProvenanceView,
}

impl View for Balance {
    type V = BalanceView;

    open spec fn view(&self) -> BalanceView {
        BalanceView {
            resource_id: self.resource_id@,
            category: self.category@,
            canonical_hint: opt_view(self.canonical_hint),
            amount: opt_amount_view(self.amount),
            provenance: self.provenance@,
        }
    }
}

/// A resource, as an adapter's listing describes it.
#[derive(Debug)]
pub struct ResourceDescriptor {
    pub resource_id: String,
    pub provider_id: String,
    pub kind: String,
    pub label: String,
    pub provider_extra: Option<JsonObject>,
}

/// What a listing says of a resource.
pub struct DescriptorView {
    pub resource_id: Seq<char>,
    pub provider_id: Seq<char>,
    pub kind: Seq<char>,
    pub label: Seq<char>,
    pub provider_extra: Option<Seq<char>>,
}

impl View for ResourceDescriptor {
    type V = DescriptorView;

    open spec fn view(&self) -> DescriptorView {
        DescriptorView {
            resource_id: self.resource_id@,
            provider_id: self.provider_id@,
            kind: self.kind@,
            label: self.label@,
            provider_extra: match self.provider_extra {
                Some(extra) => Some(extra@),
                None => None,
            },
        }
    }
}

} // verus!
