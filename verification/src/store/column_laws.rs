//! Which column of a stored row holds what.

use crate::money::amount::{format_text, AmountView};
use crate::store::error::StoreErrorView;
use crate::store::raw::{
    columns_of, completeness_reading, money_reading, posting_reading, reading, sign_reading,
    staleness_reading, state_reading, time_reading, RawView,
};
use crate::store::raw_rows::{
    adapter_reading, balance_columns, balance_reading, RawBalanceView,
};
use crate::store::rows::{AdapterView, StoredBalanceView, StoredView};
use crate::text::{debug_text, signed_decimal};
use crate::wire::record::{
    law_spellings_are_distinct, Completeness, ObservationState, Posting, RawSign, Staleness,
};
use crate::wire::timestamp::is_timestamp;
use vstd::prelude::*;
use vstd::utf8::encode_utf8;

verus! {

/// The words for whether a record stands.
pub open spec fn state_word(v: ObservationState) -> Seq<char> {
    match v {
        ObservationState::Active => "active"@,
        ObservationState::Tombstoned => "tombstoned"@,
    }
}

/// The words for how far a record has come.
pub open spec fn posting_word(v: Posting) -> Seq<char> {
    match v {
        Posting::Pending => "pending"@,
        Posting::Posted => "posted"@,
        Posting::Unknown => "unknown"@,
    }
}

/// The words for the sign that the provider gave.
pub open spec fn sign_word(v: RawSign) -> Seq<char> {
    match v {
        RawSign::ProviderPositive => "provider_positive"@,
        RawSign::ProviderNegative => "provider_negative"@,
    }
}

/// The words for how much of a record was seen.
pub open spec fn completeness_word(v: Completeness) -> Seq<char> {
    match v {
        Completeness::Complete => "complete"@,
        Completeness::Partial => "partial"@,
        Completeness::Unknown => "unknown"@,
    }
}

/// The words for how current a record is.
pub open spec fn staleness_word(v: Staleness) -> Seq<char> {
    match v {
        Staleness::Live => "live"@,
        Staleness::Cached => "cached"@,
        Staleness::Unavailable => "unavailable"@,
    }
}

/// The asset of an optional amount.
pub open spec fn asset_of(a: Option<AmountView>) -> Option<Seq<char>> {
    match a {
        Some(a) => Some(a.asset),
        None => None,
    }
}

/// The text of an optional amount.
pub open spec fn figure_of(a: Option<AmountView>) -> Option<Seq<char>> {
    match a {
        Some(a) => Some(format_text(a.units, a.scale)),
        None => None,
    }
}

/// Every field of a record is written to the column of its own name, in words and exact
/// decimal text.
pub proof fn law_which_column_holds_what(row: StoredView)
    requires
        row.revision <= i64::MAX,
    ensures
        ({
            let o = row.observation;
            let p = o.provenance;
            columns_of(row) == (RawView {
                observation_id: row.observation_id,
                adapter_id: row.adapter_id,
                revision: row.revision as int,
                crawl_id: row.crawl_id,
                last_seen_crawl: row.last_seen_crawl,
                derivation: row.derivation,
                fingerprint: row.fingerprint,
                content_hash: row.content_hash,
                resource_id: o.resource_id,
                local_id: o.local_id,
                provider_id: o.provider_id,
                supersedes_provider_id: o.supersedes_provider_id,
                state: state_word(o.state),
                tombstone_reason: o.tombstone_reason,
                surface: o.surface,
                posting: posting_word(o.posting),
                amount_asset: o.amount.asset,
                amount: format_text(o.amount.units, o.amount.scale),
                fees_asset: asset_of(o.fees),
                fees: figure_of(o.fees),
                raw_sign: sign_word(o.raw_sign),
                description: o.description,
                provider_extra: o.provider_extra,
                prov_adapter_id: p.adapter_id,
                prov_provider_id: p.provider_id,
                prov_surface: p.surface,
                observed_at: p.observed_at,
                effective_at: p.effective_at,
                completeness: completeness_word(p.completeness),
                received_at: p.received_at,
                staleness: staleness_word(p.staleness),
            })
        }),
{
}

/// Every field of a row that is read comes from the column of its own name.
pub proof fn law_what_columns_are_read_as(raw: RawView)
    requires
        reading(raw) is Ok,
    ensures
        ({
            let row = reading(raw)->Ok_0;
            let o = row.observation;
            let p = o.provenance;
            &&& row.observation_id == raw.observation_id
            &&& row.adapter_id == raw.adapter_id
            &&& row.revision == raw.revision
            &&& row.crawl_id == raw.crawl_id
            &&& row.last_seen_crawl == raw.last_seen_crawl
            &&& row.derivation == raw.derivation
            &&& row.fingerprint == raw.fingerprint
            &&& row.content_hash == raw.content_hash
            &&& o.resource_id == raw.resource_id
            &&& o.local_id == raw.local_id
            &&& o.provider_id == raw.provider_id
            &&& o.supersedes_provider_id == raw.supersedes_provider_id
            &&& state_word(o.state) == raw.state
            &&& o.tombstone_reason == raw.tombstone_reason
            &&& o.surface == raw.surface
            &&& posting_word(o.posting) == raw.posting
            &&& money_reading(raw.amount_asset, raw.amount) == Ok::<AmountView, StoreErrorView>(
                o.amount,
            )
            &&& o.fees is Some <==> raw.fees_asset is Some && raw.fees is Some
            &&& o.fees is Some ==> money_reading(raw.fees_asset->0, raw.fees->0) == Ok::<
                AmountView,
                StoreErrorView,
            >(o.fees->0)
            &&& sign_word(o.raw_sign) == raw.raw_sign
            &&& o.description == raw.description
            &&& crate::wire::json::canonical_object(raw.provider_extra) == Ok::<
                Seq<char>,
                Seq<char>,
            >(o.provider_extra)
            &&& p.adapter_id == raw.prov_adapter_id
            &&& p.provider_id == raw.prov_provider_id
            &&& p.surface == raw.prov_surface
            &&& p.observed_at == raw.observed_at
            &&& p.effective_at == raw.effective_at
            &&& completeness_word(p.completeness) == raw.completeness
            &&& p.received_at == raw.received_at
            &&& staleness_word(p.staleness) == raw.staleness
        }),
{
    let row = reading(raw)->Ok_0;
    let o = row.observation;
    law_spellings_are_distinct();
    assert(o.state.spec_spelling() == raw.state);
    assert(o.posting.spec_spelling() == raw.posting);
    assert(o.raw_sign.spec_spelling() == raw.raw_sign);
    assert(o.provenance.completeness.spec_spelling() == raw.completeness);
    assert(o.provenance.staleness.spec_spelling() == raw.staleness);
}

/// A word is read as the value that it stands for; any other is refused, with the words
/// that there are.
pub proof fn law_what_a_word_is_read_as(text: Seq<char>)
    ensures
        forall|v: ObservationState|
            text == #[trigger] state_word(v) ==> state_reading(text) == Ok::<
                ObservationState,
                StoreErrorView,
            >(v),
        forall|v: Posting|
            text == #[trigger] posting_word(v) ==> posting_reading(text) == Ok::<
                Posting,
                StoreErrorView,
            >(v),
        forall|v: RawSign|
            text == #[trigger] sign_word(v) ==> sign_reading(text) == Ok::<RawSign, StoreErrorView>(
                v,
            ),
        forall|v: Completeness|
            text == #[trigger] completeness_word(v) ==> completeness_reading(text) == Ok::<
                Completeness,
                StoreErrorView,
            >(v),
        forall|v: Staleness|
            text == #[trigger] staleness_word(v) ==> staleness_reading(text) == Ok::<
                Staleness,
                StoreErrorView,
            >(v),
{
    law_spellings_are_distinct();
    assert forall|v: ObservationState| text == #[trigger] state_word(v) implies state_reading(text)
        == Ok::<ObservationState, StoreErrorView>(v) by {
        assert(v.spec_spelling() == text);
    }
    assert forall|v: Posting| text == #[trigger] posting_word(v) implies posting_reading(text)
        == Ok::<Posting, StoreErrorView>(v) by {
        assert(v.spec_spelling() == text);
    }
    assert forall|v: RawSign| text == #[trigger] sign_word(v) implies sign_reading(text) == Ok::<
        RawSign,
        StoreErrorView,
    >(v) by {
        assert(v.spec_spelling() == text);
    }
    assert forall|v: Completeness| text == #[trigger] completeness_word(
        v,
    ) implies completeness_reading(text) == Ok::<Completeness, StoreErrorView>(v) by {
        assert(v.spec_spelling() == text);
    }
    assert forall|v: Staleness| text == #[trigger] staleness_word(v) implies staleness_reading(text)
        == Ok::<Staleness, StoreErrorView>(v) by {
        assert(v.spec_spelling() == text);
    }
}

/// What is said of a word that there is none of.
pub open spec fn unknown_word(text: Seq<char>, expected: Seq<char>) -> StoreErrorView {
    StoreErrorView::CorruptRow(
        "enum "@ + debug_text(text) + (": unknown variant `"@ + text + "`, expected "@ + expected),
    )
}

/// A column that holds no known word is refused with the words that it could hold.
pub proof fn law_an_unknown_word_is_refused(text: Seq<char>)
    ensures
        text != "active"@ && text != "tombstoned"@ ==> state_reading(text) == Err::<
            ObservationState,
            StoreErrorView,
        >(unknown_word(text, "`active` or `tombstoned`"@)),
        text != "pending"@ && text != "posted"@ && text != "unknown"@ ==> posting_reading(text)
            == Err::<Posting, StoreErrorView>(
            unknown_word(text, "one of `pending`, `posted`, `unknown`"@),
        ),
        text != "provider_positive"@ && text != "provider_negative"@ ==> sign_reading(text) == Err::<
            RawSign,
            StoreErrorView,
        >(unknown_word(text, "`provider_positive` or `provider_negative`"@)),
        text != "complete"@ && text != "partial"@ && text != "unknown"@ ==> completeness_reading(
            text,
        ) == Err::<Completeness, StoreErrorView>(
            unknown_word(text, "one of `complete`, `partial`, `unknown`"@),
        ),
        text != "live"@ && text != "cached"@ && text != "unavailable"@ ==> staleness_reading(text)
            == Err::<Staleness, StoreErrorView>(
            unknown_word(text, "one of `live`, `cached`, `unavailable`"@),
        ),
{
}

/// A timestamp is read as it is written, and what is none is refused by its text.
pub proof fn law_what_a_timestamp_is_read_as(text: Seq<char>)
    ensures
        time_reading(text) == (if is_timestamp(encode_utf8(text)) {
            Ok(text)
        } else {
            Err(
                StoreErrorView::CorruptRow(
                    "timestamp "@ + debug_text(text) + ": not an RFC 3339 timestamp"@,
                ),
            )
        }),
{
}

/// A row with a negative revision is refused by it.
pub proof fn law_no_revision_is_negative(raw: RawView)
    requires
        raw.revision < 0,
    ensures
        reading(raw) is Err,
        reading(RawView { revision: 0, ..raw }) is Ok ==> reading(raw) == Err::<
            StoredView,
            StoreErrorView,
        >(StoreErrorView::CorruptRow("revision "@ + signed_decimal(raw.revision))),
{
    assert((RawView { revision: 0, ..raw }).provenance() == raw.provenance());
}

/// Every field of a balance line is written to the column of its own name; a figure that
/// is not known leaves both of its columns empty.
pub proof fn law_which_column_holds_what_of_a_line(row: StoredBalanceView)
    ensures
        ({
            let b = row.balance;
            let c = balance_columns(row);
            &&& c.balance_id == row.balance_id
            &&& c.read_id == row.read_id
            &&& c.adapter_id == row.adapter_id
            &&& c.outcome == row.outcome
            &&& c.resource_id == b.resource_id
            &&& c.category == b.category
            &&& c.canonical_hint == b.canonical_hint
            &&& c.amount_asset == asset_of(b.amount)
            &&& c.amount == figure_of(b.amount)
            &&& c.provenance.provider_id == b.provenance.provider_id
            &&& c.provenance.surface == b.provenance.surface
            &&& c.provenance.observed_at == b.provenance.observed_at
            &&& c.provenance.effective_at == b.provenance.effective_at
            &&& c.provenance.completeness == completeness_word(b.provenance.completeness)
            &&& c.provenance.received_at == b.provenance.received_at
            &&& c.provenance.staleness == staleness_word(b.provenance.staleness)
        }),
{
}

/// Every field of a balance line that is read comes from the column of its own name. There
/// is a figure only where both its columns are filled.
pub proof fn law_what_columns_of_a_line_are_read_as(raw: RawBalanceView)
    requires
        balance_reading(raw) is Ok,
    ensures
        ({
            let row = balance_reading(raw)->Ok_0;
            let b = row.balance;
            let p = b.provenance;
            &&& row.balance_id == raw.balance_id
            &&& row.read_id == raw.read_id
            &&& row.adapter_id == raw.adapter_id
            &&& row.outcome == raw.outcome
            &&& b.resource_id == raw.resource_id
            &&& b.category == raw.category
            &&& b.canonical_hint == raw.canonical_hint
            &&& b.amount is Some <==> raw.amount_asset is Some && raw.amount is Some
            &&& b.amount is Some ==> money_reading(raw.amount_asset->0, raw.amount->0) == Ok::<
                AmountView,
                StoreErrorView,
            >(b.amount->0)
            &&& p.adapter_id == raw.provenance.adapter_id
            &&& p.provider_id == raw.provenance.provider_id
            &&& p.surface == raw.provenance.surface
            &&& p.observed_at == raw.provenance.observed_at
            &&& p.effective_at == raw.provenance.effective_at
            &&& completeness_word(p.completeness) == raw.provenance.completeness
            &&& p.received_at == raw.provenance.received_at
            &&& staleness_word(p.staleness) == raw.provenance.staleness
        }),
{
    let p = balance_reading(raw)->Ok_0.balance.provenance;
    assert(p.completeness.spec_spelling() == raw.provenance.completeness);
    assert(p.staleness.spec_spelling() == raw.provenance.staleness);
}

/// An adapter's row is what its columns hold; any number but zero says that it needs the
/// user.
pub proof fn law_what_an_adapters_columns_are_read_as(
    adapter_id: Seq<char>,
    argv: Seq<Seq<char>>,
    derivation: Option<Seq<char>>,
    needs: int,
    said: Seq<char>,
)
    ensures
        adapter_reading(adapter_id, Ok(argv), derivation, needs) == Ok::<
            AdapterView,
            StoreErrorView,
        >(
            AdapterView {
                adapter_id,
                argv,
                local_id_derivation: derivation,
                needs_reauth: needs != 0,
            },
        ),
        adapter_reading(adapter_id, Err(said), derivation, needs) == Err::<
            AdapterView,
            StoreErrorView,
        >(StoreErrorView::Json(said)),
{
}

} // verus!
