//! How values are spelled, and what the host adds to what an adapter says.

use crate::wire::failure::{ProtocolViolationKind, WireErrorCode};
use crate::wire::record::{
    stamped_balance, stamped_observation, Balance, BalanceWire, Completeness, Observation,
    ObservationState, ObservationWire, Posting, Provenance, RawSign, Staleness,
};
use crate::wire::status::ReadOutcome;
use crate::wire::timestamp::Rfc3339;
use vstd::prelude::*;

verus! {

/// Every value has the spelling of the wire.
pub proof fn law_every_value_has_its_spelling()
    ensures
        ObservationState::Active.spec_spelling() == "active"@,
        ObservationState::Tombstoned.spec_spelling() == "tombstoned"@,
        Posting::Pending.spec_spelling() == "pending"@,
        Posting::Posted.spec_spelling() == "posted"@,
        Posting::Unknown.spec_spelling() == "unknown"@,
        RawSign::ProviderPositive.spec_spelling() == "provider_positive"@,
        RawSign::ProviderNegative.spec_spelling() == "provider_negative"@,
        Completeness::Complete.spec_spelling() == "complete"@,
        Completeness::Partial.spec_spelling() == "partial"@,
        Completeness::Unknown.spec_spelling() == "unknown"@,
        Staleness::Live.spec_spelling() == "live"@,
        Staleness::Cached.spec_spelling() == "cached"@,
        Staleness::Unavailable.spec_spelling() == "unavailable"@,
{
}

/// Every kind of failure goes by its own name.
pub proof fn law_every_failure_has_its_name()
    ensures
        WireErrorCode::InvalidRequest.spec_name() == "InvalidRequest"@,
        WireErrorCode::UnsupportedProtocol.spec_name() == "UnsupportedProtocol"@,
        WireErrorCode::Unsupported.spec_name() == "Unsupported"@,
        WireErrorCode::Internal.spec_name() == "Internal"@,
        ProtocolViolationKind::PreHelloOutput.spec_name() == "PreHelloOutput"@,
        ProtocolViolationKind::NotJson.spec_name() == "NotJson"@,
        ProtocolViolationKind::NotUtf8.spec_name() == "NotUtf8"@,
        ProtocolViolationKind::UnknownId.spec_name() == "UnknownId"@,
        ProtocolViolationKind::DuplicateId.spec_name() == "DuplicateId"@,
        ProtocolViolationKind::OversizeFrame.spec_name() == "OversizeFrame"@,
        ProtocolViolationKind::UnterminatedFrame.spec_name() == "UnterminatedFrame"@,
        ProtocolViolationKind::StdinEofIgnored.spec_name() == "StdinEofIgnored"@,
        ProtocolViolationKind::StdoutHeldOpen.spec_name() == "StdoutHeldOpen"@,
{
}

/// Every answer to a read goes by its own name.
pub proof fn law_every_answer_has_its_name(outcome: ReadOutcome)
    ensures
        outcome is Fetched ==> outcome.spec_name() == "fetched"@,
        outcome is NotFetched ==> outcome.spec_name() == "not_fetched"@,
        outcome is Stale ==> outcome.spec_name() == "stale"@,
        outcome is RateLimited ==> outcome.spec_name() == "rate_limited"@,
        outcome is Unavailable ==> outcome.spec_name() == "unavailable"@,
        outcome is ReauthRequired ==> outcome.spec_name() == "reauth_required"@,
        outcome is Revoked ==> outcome.spec_name() == "revoked"@,
        outcome is Gone ==> outcome.spec_name() == "gone"@,
        outcome is ScaRequired ==> outcome.spec_name() == "sca_required"@,
{
}

/// The host adds to a record when it came and how current it is. Everything else is what
/// the adapter said.
pub proof fn law_a_record_is_stamped_and_nothing_else(
    wire: ObservationWire,
    received_at: Rfc3339,
    staleness: Staleness,
)
    ensures
        stamped_observation(wire, received_at, staleness) == (Observation {
            resource_id: wire.resource_id,
            local_id: wire.local_id,
            provider_id: wire.provider_id,
            supersedes_provider_id: wire.supersedes_provider_id,
            state: wire.state,
            tombstone_reason: wire.tombstone_reason,
            surface: wire.surface,
            posting: wire.posting,
            amount: wire.amount,
            fees: wire.fees,
            raw_sign: wire.raw_sign,
            description: wire.description,
            provider_extra: wire.provider_extra,
            provenance: Provenance {
                adapter_id: wire.provenance.adapter_id,
                provider_id: wire.provenance.provider_id,
                surface: wire.provenance.surface,
                observed_at: wire.provenance.observed_at,
                effective_at: wire.provenance.effective_at,
                completeness: wire.provenance.completeness,
                received_at,
                staleness,
            },
        }),
{
}

/// The host adds to a balance line when it came and how current it is. Everything else is
/// what the adapter said.
pub proof fn law_a_line_is_stamped_and_nothing_else(
    wire: BalanceWire,
    received_at: Rfc3339,
    staleness: Staleness,
)
    ensures
        stamped_balance(wire, received_at, staleness) == (Balance {
            resource_id: wire.resource_id,
            category: wire.category,
            canonical_hint: wire.canonical_hint,
            amount: wire.amount,
            provenance: Provenance {
                adapter_id: wire.provenance.adapter_id,
                provider_id: wire.provenance.provider_id,
                surface: wire.provenance.surface,
                observed_at: wire.provenance.observed_at,
                effective_at: wire.provenance.effective_at,
                completeness: wire.provenance.completeness,
                received_at,
                staleness,
            },
        }),
{
}

} // verus!
