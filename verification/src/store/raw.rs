//! The columns of a stored record, and the record that they spell.

use crate::money::amount::{
    format_text, frac_digits, numeral_units, parse_fault, Amount, AmountView, AmountWire,
};
use crate::money::asset::{asset_id_fault, lemma_asset_id_fault_unique};
use crate::money::error::MoneyError;
use crate::money::laws::law_printed_amount_parses_to_itself;
use crate::store::error::{joined, StoreError, StoreErrorView};
use crate::store::rows::{StoredObservation, StoredView};
use crate::text::{copy_opt, debug_quoted, debug_text, opt_view, push_signed, signed_decimal};
use crate::wire::json::{canonical_object, JsonObject};
use crate::wire::record::{
    law_spellings_are_distinct, opt_amount_view, Completeness, Observation, ObservationState,
    ObservationView, Posting, Provenance, ProvenanceView, ProvenanceWire, RawSign, Staleness,
};
use crate::wire::timestamp::{is_timestamp, Rfc3339};
use vstd::prelude::*;
use vstd::utf8::encode_utf8;

verus! {

/// The columns of a stored record, as the database holds them.
#[derive(Debug)]
pub struct RawObservation {
    pub observation_id: i64,
    pub adapter_id: String,
    pub revision: i64,
    pub crawl_id: i64,
    pub last_seen_crawl: i64,
    pub derivation: String,
    pub fingerprint: Option<String>,
    pub content_hash: String,
    pub resource_id: String,
    pub local_id: String,
    pub provider_id: Option<String>,
    pub supersedes_provider_id: Option<String>,
    pub state: String,
    pub tombstone_reason: Option<String>,
    pub surface: String,
    pub posting: String,
    pub amount_asset: String,
    pub amount: String,
    pub fees_asset: Option<String>,
    pub fees: Option<String>,
    pub raw_sign: String,
    pub description: String,
    pub provider_extra: String,
    pub prov_adapter_id: String,
    pub prov_provider_id: String,
    pub prov_surface: String,
    pub observed_at: String,
    pub effective_at: Option<String>,
    pub completeness: String,
    pub received_at: String,
    pub staleness: String,
}

/// What the columns hold.
pub struct RawView {
    pub observation_id: int,
    pub adapter_id: Seq<char>,
    pub revision: int,
    pub crawl_id: int,
    pub last_seen_crawl: int,
    pub derivation: Seq<char>,
    pub fingerprint: Option<Seq<char>>,
    pub content_hash: Seq<char>,
    pub resource_id: Seq<char>,
    pub local_id: Seq<char>,
    pub provider_id: Option<Seq<char>>,
    pub supersedes_provider_id: Option<Seq<char>>,
    pub state: Seq<char>,
    pub tombstone_reason: Option<Seq<char>>,
    pub surface: Seq<char>,
    pub posting: Seq<char>,
    pub amount_asset: Seq<char>,
    pub amount: Seq<char>,
    pub fees_asset: Option<Seq<char>>,
    pub fees: Option<Seq<char>>,
    pub raw_sign: Seq<char>,
    pub description: Seq<char>,
    pub provider_extra: Seq<char>,
    pub prov_adapter_id: Seq<char>,
    pub prov_provider_id: Seq<char>,
    pub prov_surface: Seq<char>,
    pub observed_at: Seq<char>,
    pub effective_at: Option<Seq<char>>,
    pub completeness: Seq<char>,
    pub received_at: Seq<char>,
    pub staleness: Seq<char>,
}

impl View for RawObservation {
    type V = RawView;

    open spec fn view(&self) -> RawView {
        RawView {
            observation_id: self.observation_id as int,
            adapter_id: self.adapter_id@,
            revision: self.revision as int,
            crawl_id: self.crawl_id as int,
            last_seen_crawl: self.last_seen_crawl as int,
            derivation: self.derivation@,
            fingerprint: opt_view(self.fingerprint),
            content_hash: self.content_hash@,
            resource_id: self.resource_id@,
            local_id: self.local_id@,
            provider_id: opt_view(self.provider_id),
            supersedes_provider_id: opt_view(self.supersedes_provider_id),
            state: self.state@,
            tombstone_reason: opt_view(self.tombstone_reason),
            surface: self.surface@,
            posting: self.posting@,
            amount_asset: self.amount_asset@,
            amount: self.amount@,
            fees_asset: opt_view(self.fees_asset),
            fees: opt_view(self.fees),
            raw_sign: self.raw_sign@,
            description: self.description@,
            provider_extra: self.provider_extra@,
            prov_adapter_id: self.prov_adapter_id@,
            prov_provider_id: self.prov_provider_id@,
            prov_surface: self.prov_surface@,
            observed_at: self.observed_at@,
            effective_at: opt_view(self.effective_at),
            completeness: self.completeness@,
            received_at: self.received_at@,
            staleness: self.staleness@,
        }
    }
}

/// A column as a timestamp.
pub open spec fn time_reading(text: Seq<char>) -> Result<Seq<char>, StoreErrorView> {
    if is_timestamp(encode_utf8(text)) {
        Ok(text)
    } else {
        Err(
            StoreErrorView::CorruptRow(
                "timestamp "@ + debug_text(text) + ": not an RFC 3339 timestamp"@,
            ),
        )
    }
}

/// The spellings that a column of each kind may hold, as a refusal lists them.
pub const STATES: &'static str = "`active` or `tombstoned`";

pub const POSTINGS: &'static str = "one of `pending`, `posted`, `unknown`";

pub const RAW_SIGNS: &'static str = "`provider_positive` or `provider_negative`";

pub const COMPLETENESSES: &'static str = "one of `complete`, `partial`, `unknown`";

pub const STALENESSES: &'static str = "one of `live`, `cached`, `unavailable`";

/// What is said of a spelling that is none: the text, and what was expected.
pub open spec fn no_variant(text: Seq<char>, expected: Seq<char>) -> StoreErrorView {
    StoreErrorView::CorruptRow(
        "enum "@ + debug_text(text) + (": unknown variant `"@ + text + "`, expected "@ + expected),
    )
}

fn refuse_variant(text: &str, expected: &str) -> (r: StoreError)
    ensures
        r@ == no_variant(text@, expected@),
{
    let mut why = ": unknown variant `".to_owned();
    why.append(text);
    why.append("`, expected ");
    why.append(expected);
    unreadable("enum ", text, why.as_str())
}

/// A column as an amount's asset and text: the asset is judged first.
pub open spec fn money_reading(asset: Seq<char>, text: Seq<char>) -> Result<
    AmountView,
    StoreErrorView,
> {
    match choose|f: Option<MoneyError>| asset_id_fault(asset, f) {
        Some(fault) => Err(StoreErrorView::Money(fault)),
        None => match parse_fault(encode_utf8(text)) {
            Some(fault) => Err(StoreErrorView::Money(fault)),
            None => Ok(
                AmountView {
                    asset,
                    units: numeral_units(encode_utf8(text)),
                    scale: frac_digits(encode_utf8(text)).len(),
                },
            ),
        },
    }
}

/// A column as a value of [`Completeness`].
pub open spec fn completeness_reading(text: Seq<char>) -> Result<Completeness, StoreErrorView> {
    if exists|v: Completeness| text == #[trigger] v.spec_spelling() {
        Ok(choose|v: Completeness| text == #[trigger] v.spec_spelling())
    } else {
        Err(no_variant(text, COMPLETENESSES@))
    }
}

fn read_completeness(text: &str) -> (r: Result<Completeness, StoreError>)
    ensures
        match (r, completeness_reading(text@)) {
            (Ok(v), Ok(expected)) => v == expected,
            (Err(e), Err(expected)) => e@ == expected,
            _ => false,
        },
{
    proof {
        law_spellings_are_distinct();
    }
    match Completeness::from_spelling(text) {
        Some(v) => {
            proof {
                assert(text@ == v.spec_spelling());
            }
            Ok(v)
        },
        None => Err(refuse_variant(text, COMPLETENESSES)),
    }
}

/// A column as a value of [`Staleness`].
pub open spec fn staleness_reading(text: Seq<char>) -> Result<Staleness, StoreErrorView> {
    if exists|v: Staleness| text == #[trigger] v.spec_spelling() {
        Ok(choose|v: Staleness| text == #[trigger] v.spec_spelling())
    } else {
        Err(no_variant(text, STALENESSES@))
    }
}

fn read_staleness(text: &str) -> (r: Result<Staleness, StoreError>)
    ensures
        match (r, staleness_reading(text@)) {
            (Ok(v), Ok(expected)) => v == expected,
            (Err(e), Err(expected)) => e@ == expected,
            _ => false,
        },
{
    proof {
        law_spellings_are_distinct();
    }
    match Staleness::from_spelling(text) {
        Some(v) => {
            proof {
                assert(text@ == v.spec_spelling());
            }
            Ok(v)
        },
        None => Err(refuse_variant(text, STALENESSES)),
    }
}

/// A column as a value of [`ObservationState`].
pub open spec fn state_reading(text: Seq<char>) -> Result<ObservationState, StoreErrorView> {
    if exists|v: ObservationState| text == #[trigger] v.spec_spelling() {
        Ok(choose|v: ObservationState| text == #[trigger] v.spec_spelling())
    } else {
        Err(no_variant(text, STATES@))
    }
}

fn read_state(text: &str) -> (r: Result<ObservationState, StoreError>)
    ensures
        match (r, state_reading(text@)) {
            (Ok(v), Ok(expected)) => v == expected,
            (Err(e), Err(expected)) => e@ == expected,
            _ => false,
        },
{
    proof {
        law_spellings_are_distinct();
    }
    match ObservationState::from_spelling(text) {
        Some(v) => {
            proof {
                assert(text@ == v.spec_spelling());
            }
            Ok(v)
        },
        None => Err(refuse_variant(text, STATES)),
    }
}

/// A column as a value of [`Posting`].
pub open spec fn posting_reading(text: Seq<char>) -> Result<Posting, StoreErrorView> {
    if exists|v: Posting| text == #[trigger] v.spec_spelling() {
        Ok(choose|v: Posting| text == #[trigger] v.spec_spelling())
    } else {
        Err(no_variant(text, POSTINGS@))
    }
}

fn read_posting(text: &str) -> (r: Result<Posting, StoreError>)
    ensures
        match (r, posting_reading(text@)) {
            (Ok(v), Ok(expected)) => v == expected,
            (Err(e), Err(expected)) => e@ == expected,
            _ => false,
        },
{
    proof {
        law_spellings_are_distinct();
    }
    match Posting::from_spelling(text) {
        Some(v) => {
            proof {
                assert(text@ == v.spec_spelling());
            }
            Ok(v)
        },
        None => Err(refuse_variant(text, POSTINGS)),
    }
}

/// A column as a value of [`RawSign`].
pub open spec fn sign_reading(text: Seq<char>) -> Result<RawSign, StoreErrorView> {
    if exists|v: RawSign| text == #[trigger] v.spec_spelling() {
        Ok(choose|v: RawSign| text == #[trigger] v.spec_spelling())
    } else {
        Err(no_variant(text, RAW_SIGNS@))
    }
}

fn read_sign(text: &str) -> (r: Result<RawSign, StoreError>)
    ensures
        match (r, sign_reading(text@)) {
            (Ok(v), Ok(expected)) => v == expected,
            (Err(e), Err(expected)) => e@ == expected,
            _ => false,
        },
{
    proof {
        law_spellings_are_distinct();
    }
    match RawSign::from_spelling(text) {
        Some(v) => {
            proof {
                assert(text@ == v.spec_spelling());
            }
            Ok(v)
        },
        None => Err(refuse_variant(text, RAW_SIGNS)),
    }
}

fn unreadable(what: &str, text: &str, why: &str) -> (r: StoreError)
    ensures
        r@ == StoreErrorView::CorruptRow(what@ + debug_text(text@) + why@),
{
    let mut out = joined(what, debug_quoted(text).as_str());
    out.append(why);
    StoreError::CorruptRow(out)
}

fn read_time(text: &str) -> (r: Result<Rfc3339, StoreError>)
    ensures
        match (r, time_reading(text@)) {
            (Ok(ts), Ok(expected)) => ts@ == expected,
            (Err(e), Err(expected)) => e@ == expected,
            _ => false,
        },
{
    match Rfc3339::new(text) {
        Ok(ts) => Ok(ts),
        Err(_) => Err(unreadable("timestamp ", text, ": not an RFC 3339 timestamp")),
    }
}

fn read_money(asset: String, amount: String) -> (r: Result<Amount, StoreError>)
    ensures
        match (r, money_reading(asset@, amount@)) {
            (Ok(a), Ok(expected)) => a@ == expected,
            (Err(e), Err(expected)) => e@ == expected,
            _ => false,
        },
{
    let wire = AmountWire { asset, amount };
    let r = Amount::from_wire(&wire);
    proof {
        let seen = match r {
            Ok(_) => None,
            Err(e) => if asset_id_fault(wire.asset@, Some(e)) {
                Some(e)
            } else {
                None
            },
        };
        assert(asset_id_fault(wire.asset@, seen));
        lemma_asset_id_fault_unique(
            wire.asset@,
            seen,
            choose|f: Option<MoneyError>| asset_id_fault(wire.asset@, f),
        );
    }
    match r {
        Ok(a) => Ok(a),
        Err(e) => Err(StoreError::Money(e)),
    }
}

/// The columns of a provenance, by what they hold.
pub struct ProvenanceColumns {
    pub adapter_id: Seq<char>,
    pub provider_id: Seq<char>,
    pub surface: Seq<char>,
    pub observed_at: Seq<char>,
    pub effective_at: Option<Seq<char>>,
    pub completeness: Seq<char>,
    pub received_at: Seq<char>,
    pub staleness: Seq<char>,
}

/// The provenance that the columns spell, or the first thing wrong with it.
pub open spec fn provenance_reading(c: ProvenanceColumns) -> Result<
    ProvenanceView,
    StoreErrorView,
> {
    match time_reading(c.observed_at) {
        Err(e) => Err(e),
        Ok(observed_at) => match opt_time_reading(c.effective_at) {
            Err(e) => Err(e),
            Ok(effective_at) => match completeness_reading(c.completeness) {
                Err(e) => Err(e),
                Ok(completeness) => match time_reading(c.received_at) {
                    Err(e) => Err(e),
                    Ok(received_at) => match staleness_reading(c.staleness) {
                        Err(e) => Err(e),
                        Ok(staleness) => Ok(
                            ProvenanceView {
                                adapter_id: c.adapter_id,
                                provider_id: c.provider_id,
                                surface: c.surface,
                                observed_at,
                                effective_at,
                                completeness,
                                received_at,
                                staleness,
                            },
                        ),
                    },
                },
            },
        },
    }
}

/// The columns of a provenance, as they are written.
pub open spec fn provenance_columns(p: ProvenanceView) -> ProvenanceColumns {
    ProvenanceColumns {
        adapter_id: p.adapter_id,
        provider_id: p.provider_id,
        surface: p.surface,
        observed_at: p.observed_at,
        effective_at: p.effective_at,
        completeness: p.completeness.spec_spelling(),
        received_at: p.received_at,
        staleness: p.staleness.spec_spelling(),
    }
}

impl RawView {
    /// The columns of the record's provenance.
    pub open spec fn provenance(self) -> ProvenanceColumns {
        ProvenanceColumns {
            adapter_id: self.prov_adapter_id,
            provider_id: self.prov_provider_id,
            surface: self.prov_surface,
            observed_at: self.observed_at,
            effective_at: self.effective_at,
            completeness: self.completeness,
            received_at: self.received_at,
            staleness: self.staleness,
        }
    }
}

/// An optional column as a timestamp.
pub open spec fn opt_time_reading(text: Option<Seq<char>>) -> Result<
    Option<Seq<char>>,
    StoreErrorView,
> {
    match text {
        None => Ok(None),
        Some(text) => match time_reading(text) {
            Ok(ts) => Ok(Some(ts)),
            Err(e) => Err(e),
        },
    }
}

/// Two optional columns as an amount: there is one only if both are there.
pub open spec fn opt_money_reading(asset: Option<Seq<char>>, text: Option<Seq<char>>) -> Result<
    Option<AmountView>,
    StoreErrorView,
> {
    match (asset, text) {
        (Some(asset), Some(text)) => match money_reading(asset, text) {
            Ok(a) => Ok(Some(a)),
            Err(e) => Err(e),
        },
        _ => Ok(None),
    }
}

/// The record that the columns spell under a provenance, or the first thing
/// wrong with it.
pub open spec fn record_reading(raw: RawView, provenance: ProvenanceView) -> Result<
    ObservationView,
    StoreErrorView,
> {
    match state_reading(raw.state) {
        Err(e) => Err(e),
        Ok(state) => match posting_reading(raw.posting) {
            Err(e) => Err(e),
            Ok(posting) => match money_reading(raw.amount_asset, raw.amount) {
                Err(e) => Err(e),
                Ok(amount) => match opt_money_reading(raw.fees_asset, raw.fees) {
                    Err(e) => Err(e),
                    Ok(fees) => match sign_reading(raw.raw_sign) {
                        Err(e) => Err(e),
                        Ok(raw_sign) => match canonical_object(raw.provider_extra) {
                            Err(e) => Err(StoreErrorView::Json(e)),
                            Ok(provider_extra) => Ok(
                                ObservationView {
                                    resource_id: raw.resource_id,
                                    local_id: raw.local_id,
                                    provider_id: raw.provider_id,
                                    supersedes_provider_id: raw.supersedes_provider_id,
                                    state,
                                    tombstone_reason: raw.tombstone_reason,
                                    surface: raw.surface,
                                    posting,
                                    amount,
                                    fees,
                                    raw_sign,
                                    description: raw.description,
                                    provider_extra,
                                    provenance,
                                },
                            ),
                        },
                    },
                },
            },
        },
    }
}

/// The stored record that the columns spell, or the first thing wrong with them.
pub open spec fn reading(raw: RawView) -> Result<StoredView, StoreErrorView> {
    match provenance_reading(raw.provenance()) {
        Err(e) => Err(e),
        Ok(provenance) => match record_reading(raw, provenance) {
            Err(e) => Err(e),
            Ok(observation) => if raw.revision < 0 {
                Err(StoreErrorView::CorruptRow("revision "@ + signed_decimal(raw.revision)))
            } else {
                Ok(
                    StoredView {
                        observation_id: raw.observation_id,
                        adapter_id: raw.adapter_id,
                        revision: raw.revision as nat,
                        crawl_id: raw.crawl_id,
                        last_seen_crawl: raw.last_seen_crawl,
                        derivation: raw.derivation,
                        fingerprint: raw.fingerprint,
                        content_hash: raw.content_hash,
                        observation,
                    },
                )
            },
        },
    }
}

/// Reads the columns of a provenance, in the order in which they are judged.
pub(crate) fn read_provenance(
    adapter_id: &String,
    provider_id: &String,
    surface: &String,
    observed_at: &String,
    effective_at: &Option<String>,
    completeness: &String,
    received_at: &String,
    staleness: &String,
) -> (r: Result<Provenance, StoreError>)
    ensures
        match (
            r,
            provenance_reading(
                (ProvenanceColumns {
                    adapter_id: adapter_id@,
                    provider_id: provider_id@,
                    surface: surface@,
                    observed_at: observed_at@,
                    effective_at: opt_view(*effective_at),
                    completeness: completeness@,
                    received_at: received_at@,
                    staleness: staleness@,
                }),
            ),
        ) {
            (Ok(p), Ok(expected)) => p@ == expected,
            (Err(e), Err(expected)) => e@ == expected,
            _ => false,
        },
{
    let observed_at = match read_time(observed_at.as_str()) {
        Ok(ts) => ts,
        Err(e) => return Err(e),
    };
    let effective_at = match effective_at {
        None => None,
        Some(text) => match read_time(text.as_str()) {
            Ok(ts) => Some(ts),
            Err(e) => return Err(e),
        },
    };
    let completeness = match read_completeness(completeness.as_str()) {
        Ok(v) => v,
        Err(e) => return Err(e),
    };
    let received_at = match read_time(received_at.as_str()) {
        Ok(ts) => ts,
        Err(e) => return Err(e),
    };
    let staleness = match read_staleness(staleness.as_str()) {
        Ok(v) => v,
        Err(e) => return Err(e),
    };
    Ok(
        Provenance::stamp(
            ProvenanceWire {
                adapter_id: adapter_id.clone(),
                provider_id: provider_id.clone(),
                surface: surface.clone(),
                observed_at,
                effective_at,
                completeness,
            },
            received_at,
            staleness,
        ),
    )
}

/// Reads two optional columns as an amount.
pub(crate) fn read_opt_money(asset: &Option<String>, text: &Option<String>) -> (r: Result<
    Option<Amount>,
    StoreError,
>)
    ensures
        match (r, opt_money_reading(opt_view(*asset), opt_view(*text))) {
            (Ok(a), Ok(expected)) => opt_amount_view(a) == expected,
            (Err(e), Err(expected)) => e@ == expected,
            _ => false,
        },
{
    match (asset, text) {
        (Some(asset), Some(text)) => match read_money(asset.clone(), text.clone()) {
            Ok(a) => Ok(Some(a)),
            Err(e) => Err(e),
        },
        _ => Ok(None),
    }
}

fn read_record(raw: &RawObservation, provenance: Provenance) -> (r: Result<Observation, StoreError>)
    ensures
        match (r, record_reading(raw@, provenance@)) {
            (Ok(o), Ok(expected)) => o@ == expected,
            (Err(e), Err(expected)) => e@ == expected,
            _ => false,
        },
{
    let state = match read_state(raw.state.as_str()) {
        Ok(v) => v,
        Err(e) => return Err(e),
    };
    let posting = match read_posting(raw.posting.as_str()) {
        Ok(v) => v,
        Err(e) => return Err(e),
    };
    let amount = match read_money(raw.amount_asset.clone(), raw.amount.clone()) {
        Ok(a) => a,
        Err(e) => return Err(e),
    };
    let fees = match read_opt_money(&raw.fees_asset, &raw.fees) {
        Ok(fees) => fees,
        Err(e) => return Err(e),
    };
    let raw_sign = match read_sign(raw.raw_sign.as_str()) {
        Ok(v) => v,
        Err(e) => return Err(e),
    };
    let provider_extra = match JsonObject::parse(raw.provider_extra.as_str()) {
        Ok(object) => object,
        Err(e) => return Err(StoreError::Json(e)),
    };
    Ok(
        Observation {
            resource_id: raw.resource_id.clone(),
            local_id: raw.local_id.clone(),
            provider_id: copy_opt(&raw.provider_id),
            supersedes_provider_id: copy_opt(&raw.supersedes_provider_id),
            state,
            tombstone_reason: copy_opt(&raw.tombstone_reason),
            surface: raw.surface.clone(),
            posting,
            amount,
            fees,
            raw_sign,
            description: raw.description.clone(),
            provider_extra,
            provenance,
        },
    )
}

impl RawObservation {
    /// Turns the columns back into the stored record.
    pub fn into_stored(self) -> (r: Result<StoredObservation, StoreError>)
        ensures
            match (r, reading(self@)) {
                (Ok(row), Ok(expected)) => row@ == expected,
                (Err(e), Err(expected)) => e@ == expected,
                _ => false,
            },
    {
        let provenance = match read_provenance(
            &self.prov_adapter_id,
            &self.prov_provider_id,
            &self.prov_surface,
            &self.observed_at,
            &self.effective_at,
            &self.completeness,
            &self.received_at,
            &self.staleness,
        ) {
            Ok(p) => p,
            Err(e) => return Err(e),
        };
        let observation = match read_record(&self, provenance) {
            Ok(o) => o,
            Err(e) => return Err(e),
        };
        if self.revision < 0 {
            let mut out = "revision ".to_owned();
            push_signed(&mut out, self.revision);
            return Err(StoreError::CorruptRow(out));
        }
        Ok(
            StoredObservation {
                observation_id: self.observation_id,
                adapter_id: self.adapter_id,
                revision: self.revision as u64,
                crawl_id: self.crawl_id,
                last_seen_crawl: self.last_seen_crawl,
                derivation: self.derivation,
                fingerprint: self.fingerprint,
                content_hash: self.content_hash,
                observation,
            },
        )
    }

    /// The columns of a stored record. A revision that the column cannot hold
    /// is written as the largest it can.
    pub fn of(row: &StoredObservation) -> (r: RawObservation)
        ensures
            r@ == columns_of(row@),
    {
        let o = &row.observation;
        RawObservation {
            observation_id: row.observation_id,
            adapter_id: row.adapter_id.clone(),
            revision: if row.revision <= i64::MAX as u64 {
                row.revision as i64
            } else {
                i64::MAX
            },
            crawl_id: row.crawl_id,
            last_seen_crawl: row.last_seen_crawl,
            derivation: row.derivation.clone(),
            fingerprint: copy_opt(&row.fingerprint),
            content_hash: row.content_hash.clone(),
            resource_id: o.resource_id.clone(),
            local_id: o.local_id.clone(),
            provider_id: copy_opt(&o.provider_id),
            supersedes_provider_id: copy_opt(&o.supersedes_provider_id),
            state: o.state.spelling().to_owned(),
            tombstone_reason: copy_opt(&o.tombstone_reason),
            surface: o.surface.clone(),
            posting: o.posting.spelling().to_owned(),
            amount_asset: o.amount.asset().as_str().to_owned(),
            amount: o.amount.to_string(),
            fees_asset: match &o.fees {
                Some(fees) => Some(fees.asset().as_str().to_owned()),
                None => None,
            },
            fees: match &o.fees {
                Some(fees) => Some(fees.to_string()),
                None => None,
            },
            raw_sign: o.raw_sign.spelling().to_owned(),
            description: o.description.clone(),
            provider_extra: o.provider_extra.as_str().to_owned(),
            prov_adapter_id: o.provenance.adapter_id.clone(),
            prov_provider_id: o.provenance.provider_id.clone(),
            prov_surface: o.provenance.surface.clone(),
            observed_at: o.provenance.observed_at.as_str().to_owned(),
            effective_at: match &o.provenance.effective_at {
                Some(at) => Some(at.as_str().to_owned()),
                None => None,
            },
            completeness: o.provenance.completeness.spelling().to_owned(),
            received_at: o.provenance.received_at.as_str().to_owned(),
            staleness: o.provenance.staleness.spelling().to_owned(),
        }
    }
}

/// The columns that a stored record is written to: money as its exact text,
/// never a number.
pub open spec fn columns_of(row: StoredView) -> RawView {
    let o = row.observation;
    RawView {
        observation_id: row.observation_id,
        adapter_id: row.adapter_id,
        revision: if row.revision <= i64::MAX {
            row.revision as int
        } else {
            i64::MAX as int
        },
        crawl_id: row.crawl_id,
        last_seen_crawl: row.last_seen_crawl,
        derivation: row.derivation,
        fingerprint: row.fingerprint,
        content_hash: row.content_hash,
        resource_id: o.resource_id,
        local_id: o.local_id,
        provider_id: o.provider_id,
        supersedes_provider_id: o.supersedes_provider_id,
        state: o.state.spec_spelling(),
        tombstone_reason: o.tombstone_reason,
        surface: o.surface,
        posting: o.posting.spec_spelling(),
        amount_asset: o.amount.asset,
        amount: format_text(o.amount.units, o.amount.scale),
        fees_asset: match o.fees {
            Some(fees) => Some(fees.asset),
            None => None,
        },
        fees: match o.fees {
            Some(fees) => Some(format_text(fees.units, fees.scale)),
            None => None,
        },
        raw_sign: o.raw_sign.spec_spelling(),
        description: o.description,
        provider_extra: o.provider_extra,
        prov_adapter_id: o.provenance.adapter_id,
        prov_provider_id: o.provenance.provider_id,
        prov_surface: o.provenance.surface,
        observed_at: o.provenance.observed_at,
        effective_at: o.provenance.effective_at,
        completeness: o.provenance.completeness.spec_spelling(),
        received_at: o.provenance.received_at,
        staleness: o.provenance.staleness.spec_spelling(),
    }
}

/// What every amount is.
pub open spec fn is_amount(a: AmountView) -> bool {
    a.within_limits() && asset_id_fault(a.asset, None)
}

/// What every provenance is.
pub open spec fn is_provenance(p: ProvenanceView) -> bool {
    &&& is_timestamp(encode_utf8(p.observed_at))
    &&& (p.effective_at matches Some(at) ==> is_timestamp(encode_utf8(at)))
    &&& is_timestamp(encode_utf8(p.received_at))
}

/// What every record is.
pub open spec fn is_record(o: ObservationView) -> bool {
    &&& is_amount(o.amount)
    &&& (o.fees matches Some(fees) ==> is_amount(fees))
    &&& is_provenance(o.provenance)
}

/// A provenance reads back from the columns it is written to.
pub proof fn lemma_provenance_reads_back(p: ProvenanceView)
    requires
        is_provenance(p),
    ensures
        provenance_reading(provenance_columns(p)) == Ok::<ProvenanceView, StoreErrorView>(p),
{
    law_spellings_are_distinct();
    let c = provenance_columns(p);
    assert(completeness_reading(c.completeness) == Ok::<Completeness, StoreErrorView>(
        p.completeness,
    ));
    assert(staleness_reading(c.staleness) == Ok::<Staleness, StoreErrorView>(p.staleness));
}

pub proof fn lemma_money_reads_back(a: AmountView)
    requires
        is_amount(a),
    ensures
        money_reading(a.asset, format_text(a.units, a.scale)) == Ok::<AmountView, StoreErrorView>(a),
{
    lemma_asset_id_fault_unique(
        a.asset,
        None,
        choose|f: Option<MoneyError>| asset_id_fault(a.asset, f),
    );
    law_printed_amount_parses_to_itself(a);
}

/// A stored record that is read back is the record that was written, down to
/// the scale of its amounts. The revision has to fit its column, and the extra
/// fields are taken to be a text that the parser spells as it stands.
pub proof fn law_a_stored_record_reads_back_as_itself(row: StoredView)
    requires
        is_record(row.observation),
        row.revision <= i64::MAX,
        canonical_object(row.observation.provider_extra) == Ok::<Seq<char>, Seq<char>>(
            row.observation.provider_extra,
        ),
    ensures
        reading(columns_of(row)) == Ok::<StoredView, StoreErrorView>(row),
{
    law_spellings_are_distinct();
    let o = row.observation;
    let raw = columns_of(row);
    lemma_money_reads_back(o.amount);
    if let Some(fees) = o.fees {
        lemma_money_reads_back(fees);
    }
    lemma_provenance_reads_back(o.provenance);
    assert(raw.provenance() == provenance_columns(o.provenance));
    assert(state_reading(raw.state) == Ok::<ObservationState, StoreErrorView>(o.state));
    assert(posting_reading(raw.posting) == Ok::<Posting, StoreErrorView>(o.posting));
    assert(sign_reading(raw.raw_sign) == Ok::<RawSign, StoreErrorView>(o.raw_sign));
    assert(record_reading(raw, o.provenance) == Ok::<ObservationView, StoreErrorView>(o));
}

} // verus!
