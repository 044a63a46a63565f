//! The columns of stored adapters, balance lines and retractions, and what they
//! spell.

use crate::money::amount::{format_text, Amount};
use crate::store::error::{StoreError, StoreErrorView};
use crate::store::raw::{
    is_amount, is_provenance, lemma_money_reads_back, lemma_provenance_reads_back,
    opt_money_reading, provenance_columns, provenance_reading, read_opt_money, read_provenance,
    ProvenanceColumns,
};
use crate::store::rows::{
    AdapterRow, AdapterView, RetractionRow, RetractionView, StoredBalance, StoredBalanceView,
};
use crate::text::{copy_opt, opt_view, push_signed, signed_decimal, views};
use crate::wire::json::{array_text, array_view, parse_strings, string_array, strings_text};
use crate::wire::record::{Balance, BalanceView};
use vstd::prelude::*;

verus! {

/// The columns of a stored balance line, as the database holds them.
#[derive(Debug)]
pub struct RawBalance {
    pub balance_id: i64,
    pub read_id: i64,
    pub adapter_id: String,
    pub resource_id: String,
    pub category: String,
    pub canonical_hint: Option<String>,
    pub amount_asset: Option<String>,
    pub amount: Option<String>,
    pub prov_provider_id: String,
    pub prov_surface: String,
    pub observed_at: String,
    pub effective_at: Option<String>,
    pub completeness: String,
    pub received_at: String,
    pub staleness: String,
    pub outcome: String,
}

/// What the columns hold.
pub struct RawBalanceView {
    pub balance_id: int,
    pub read_id: int,
    pub adapter_id: Seq<char>,
    pub resource_id: Seq<char>,
    pub category: Seq<char>,
    pub canonical_hint: Option<Seq<char>>,
    pub amount_asset: Option<Seq<char>>,
    pub amount: Option<Seq<char>>,
    pub outcome: Seq<char>,
    pub provenance: ProvenanceColumns,
}

impl View for RawBalance {
    type V = RawBalanceView;

    open spec fn view(&self) -> RawBalanceView {
        RawBalanceView {
            balance_id: self.balance_id as int,
            read_id: self.read_id as int,
            adapter_id: self.adapter_id@,
            resource_id: self.resource_id@,
            category: self.category@,
            canonical_hint: opt_view(self.canonical_hint),
            amount_asset: opt_view(self.amount_asset),
            amount: opt_view(self.amount),
            outcome: self.outcome@,
            provenance: ProvenanceColumns {
                adapter_id: self.adapter_id@,
                provider_id: self.prov_provider_id@,
                surface: self.prov_surface@,
                observed_at: self.observed_at@,
                effective_at: opt_view(self.effective_at),
                completeness: self.completeness@,
                received_at: self.received_at@,
                staleness: self.staleness@,
            },
        }
    }
}

/// The stored line that the columns spell, or the first thing wrong with them.
/// There is a figure only if both its asset and its text are there.
pub open spec fn balance_reading(raw: RawBalanceView) -> Result<
    StoredBalanceView,
    StoreErrorView,
> {
    match opt_money_reading(raw.amount_asset, raw.amount) {
        Err(e) => Err(e),
        Ok(amount) => match provenance_reading(raw.provenance) {
            Err(e) => Err(e),
            Ok(provenance) => Ok(
                StoredBalanceView {
                    balance_id: raw.balance_id,
                    read_id: raw.read_id,
                    adapter_id: raw.adapter_id,
                    outcome: raw.outcome,
                    balance: BalanceView {
                        resource_id: raw.resource_id,
                        category: raw.category,
                        canonical_hint: raw.canonical_hint,
                        amount,
                        provenance,
                    },
                },
            ),
        },
    }
}

/// The columns that a stored line is written to: money as its exact text, and
/// nothing at all for a figure that is not known.
pub open spec fn balance_columns(row: StoredBalanceView) -> RawBalanceView {
    let b = row.balance;
    RawBalanceView {
        balance_id: row.balance_id,
        read_id: row.read_id,
        adapter_id: row.adapter_id,
        resource_id: b.resource_id,
        category: b.category,
        canonical_hint: b.canonical_hint,
        amount_asset: match b.amount {
            Some(a) => Some(a.asset),
            None => None,
        },
        amount: match b.amount {
            Some(a) => Some(format_text(a.units, a.scale)),
            None => None,
        },
        outcome: row.outcome,
        provenance: ProvenanceColumns {
            adapter_id: row.adapter_id,
            ..provenance_columns(b.provenance)
        },
    }
}

fn asset_text(a: &Option<Amount>) -> (r: Option<String>)
    ensures
        opt_view(r) == match *a {
            Some(a) => Some(a@.asset),
            None => None,
        },
{
    match a {
        Some(a) => Some(a.asset().as_str().to_owned()),
        None => None,
    }
}

fn figure_text(a: &Option<Amount>) -> (r: Option<String>)
    ensures
        opt_view(r) == match *a {
            Some(a) => Some(format_text(a@.units, a@.scale)),
            None => None,
        },
{
    match a {
        Some(a) => Some(a.to_string()),
        None => None,
    }
}

impl RawBalance {
    /// Turns the columns back into the stored line.
    pub fn into_stored(self) -> (r: Result<StoredBalance, StoreError>)
        ensures
            match (r, balance_reading(self@)) {
                (Ok(row), Ok(expected)) => row@ == expected,
                (Err(e), Err(expected)) => e@ == expected,
                _ => false,
            },
    {
        let amount = match read_opt_money(&self.amount_asset, &self.amount) {
            Ok(amount) => amount,
            Err(e) => return Err(e),
        };
        let provenance = match read_provenance(
            &self.adapter_id,
            &self.prov_provider_id,
            &self.prov_surface,
            &self.observed_at,
            &self.effective_at,
            &self.completeness,
            &self.received_at,
            &self.staleness,
        ) {
            Ok(p) => p,
            Err(e) => return Err(e),
        };
        Ok(
            StoredBalance {
                balance_id: self.balance_id,
                read_id: self.read_id,
                adapter_id: self.adapter_id,
                outcome: self.outcome,
                balance: Balance {
                    resource_id: self.resource_id,
                    category: self.category,
                    canonical_hint: self.canonical_hint,
                    amount,
                    provenance,
                },
            },
        )
    }

    /// The columns of a stored line.
    pub fn of(row: &StoredBalance) -> (r: RawBalance)
        ensures
            r@ == balance_columns(row@),
    {
        let b = &row.balance;
        RawBalance {
            balance_id: row.balance_id,
            read_id: row.read_id,
            adapter_id: row.adapter_id.clone(),
            resource_id: b.resource_id.clone(),
            category: b.category.clone(),
            canonical_hint: copy_opt(&b.canonical_hint),
            amount_asset: asset_text(&b.amount),
            amount: figure_text(&b.amount),
            prov_provider_id: b.provenance.provider_id.clone(),
            prov_surface: b.provenance.surface.clone(),
            observed_at: b.provenance.observed_at.as_str().to_owned(),
            effective_at: match &b.provenance.effective_at {
                Some(at) => Some(at.as_str().to_owned()),
                None => None,
            },
            completeness: b.provenance.completeness.spelling().to_owned(),
            received_at: b.provenance.received_at.as_str().to_owned(),
            staleness: b.provenance.staleness.spelling().to_owned(),
            outcome: row.outcome.clone(),
        }
    }
}

/// A stored line that is read back is the line that was written, down to the
/// scale of its figure. A line names the adapter that it is stored under.
pub proof fn law_a_stored_balance_reads_back_as_itself(row: StoredBalanceView)
    requires
        row.balance.amount matches Some(a) ==> is_amount(a),
        is_provenance(row.balance.provenance),
        row.balance.provenance.adapter_id == row.adapter_id,
    ensures
        balance_reading(balance_columns(row)) == Ok::<StoredBalanceView, StoreErrorView>(row),
{
    if let Some(a) = row.balance.amount {
        lemma_money_reads_back(a);
    }
    lemma_provenance_reads_back(row.balance.provenance);
    assert(balance_columns(row).provenance == provenance_columns(row.balance.provenance));
}

/// The column of a command line.
pub fn argv_text(argv: &Vec<String>) -> (r: String)
    ensures
        r@ == array_text(views(argv@)),
{
    strings_text(argv)
}

/// The row of an adapter, given what its command line was read as.
pub open spec fn adapter_reading(
    adapter_id: Seq<char>,
    argv: Result<Seq<Seq<char>>, Seq<char>>,
    local_id_derivation: Option<Seq<char>>,
    needs_reauth: int,
) -> Result<AdapterView, StoreErrorView> {
    match argv {
        Ok(argv) => Ok(
            AdapterView { adapter_id, argv, local_id_derivation, needs_reauth: needs_reauth != 0 },
        ),
        Err(said) => Err(StoreErrorView::Json(said)),
    }
}

/// Makes the row of an adapter, given what its command line was read as.
pub fn adapter_row(
    adapter_id: String,
    argv: Result<Vec<String>, String>,
    local_id_derivation: Option<String>,
    needs_reauth: i64,
) -> (r: Result<AdapterRow, StoreError>)
    ensures
        match (
            r,
            adapter_reading(
                adapter_id@,
                array_view(argv),
                opt_view(local_id_derivation),
                needs_reauth as int,
            ),
        ) {
            (Ok(row), Ok(expected)) => row@ == expected,
            (Err(e), Err(expected)) => e@ == expected,
            _ => false,
        },
{
    match argv {
        Ok(argv) => Ok(
            AdapterRow { adapter_id, argv, local_id_derivation, needs_reauth: needs_reauth != 0 },
        ),
        Err(said) => Err(StoreError::Json(said)),
    }
}

/// Reads the columns of an adapter. A command line that was written by
/// [`argv_text`] is the one that is read back.
pub fn read_adapter(
    adapter_id: String,
    argv: &str,
    local_id_derivation: Option<String>,
    needs_reauth: i64,
) -> (r: Result<AdapterRow, StoreError>)
    ensures
        match (
            r,
            adapter_reading(
                adapter_id@,
                string_array(argv@),
                opt_view(local_id_derivation),
                needs_reauth as int,
            ),
        ) {
            (Ok(row), Ok(expected)) => row@ == expected,
            (Err(e), Err(expected)) => e@ == expected,
            _ => false,
        },
        forall|texts: Seq<Seq<char>>|
            argv@ == #[trigger] array_text(texts) ==> (r matches Ok(row) && row@ == (AdapterView {
                adapter_id: adapter_id@,
                argv: texts,
                local_id_derivation: opt_view(local_id_derivation),
                needs_reauth: needs_reauth != 0,
            })),
{
    adapter_row(adapter_id, parse_strings(argv), local_id_derivation, needs_reauth)
}

/// Reads the columns of a retraction. Its revision cannot be negative.
pub fn read_retraction(
    adapter_id: String,
    local_id: String,
    revision: i64,
    reason: String,
    crawl_id: i64,
    retracted_at: String,
) -> (r: Result<RetractionRow, StoreError>)
    ensures
        match r {
            Ok(row) => revision >= 0 && row@ == (RetractionView {
                adapter_id: adapter_id@,
                local_id: local_id@,
                revision: revision as nat,
                reason: reason@,
                crawl_id: crawl_id as int,
                retracted_at: retracted_at@,
            }),
            Err(e) => revision < 0 && e@ == StoreErrorView::CorruptRow(
                "retraction revision "@ + signed_decimal(revision as int),
            ),
        },
{
    if revision < 0 {
        let mut out = "retraction revision ".to_owned();
        push_signed(&mut out, revision);
        return Err(StoreError::CorruptRow(out));
    }
    Ok(
        RetractionRow {
            adapter_id,
            local_id,
            revision: revision as u64,
            reason,
            crawl_id,
            retracted_at,
        },
    )
}

} // verus!
