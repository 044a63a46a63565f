//! Every line that the user reads.
//!
//! An unknown amount is never printed as a zero. A read that did not happen
//! erases no figure and keeps none reading live. Every figure stands beside its
//! source and its freshness; and nothing is ever added up.

use crate::money::amount::{format_text, Amount, AmountView};
use crate::money::numeral::is_digit;
use crate::store::report::{ReportView, SweepReport};
use crate::store::rows::{
    BalanceRow, BalanceRowView, RetractionRow, RetractionView, StoredObservation, StoredView,
};
use crate::text::{
    byte_slice, decimal, lack, push_decimal, push_left, push_right, push_signed, same,
    signed_decimal, slice_of, spaces, views,
};
use crate::wire::record::{Observation, ObservationState, ObservationView, Staleness};
use crate::wire::timestamp::is_timestamp;
use vstd::prelude::*;
use vstd::utf8::{
    decode_utf8, encode_utf8, encode_utf8_valid_utf8, is_char_boundary, length_of_first_scalar,
    pop_first_scalar, valid_utf8,
};

verus! {

/// The time of day of a timestamp; of any other text, the text.
pub open spec fn clock_of(timestamp: Seq<char>) -> Seq<char> {
    match slice_of(timestamp, 11, 20) {
        Some(clock) => clock,
        None => timestamp,
    }
}

/// The time of day of a timestamp: `12:04:31Z` of `2026-09-06T12:04:31Z`. A text
/// that is too short to have one comes back whole.
pub fn time_of_day(timestamp: &str) -> (r: &str)
    ensures
        r@ == clock_of(timestamp@),
{
    match byte_slice(timestamp, 11, 20) {
        Some(clock) => clock,
        None => timestamp,
    }
}

/// How an amount is printed: its exact text, and its asset.
pub open spec fn amount_text(a: AmountView) -> Seq<char> {
    format_text(a.units, a.scale)
}

/// When the figure on a line was observed: what the adapter itself said, or
/// when the host received it.
pub open spec fn as_of(row: BalanceRowView) -> Seq<char> {
    if row.outcome.len() >= 6 && row.outcome.take(6) == "stale:"@ {
        row.outcome.skip(6)
    } else {
        row.received_at
    }
}

/// Whether a line is live: the adapter said so, and no read since has left it
/// out.
pub open spec fn is_live_line(row: BalanceRowView) -> bool {
    row.from_latest_read && row.staleness == Staleness::Live
}

/// The last line with a figure.
pub open spec fn last_figure(lines: Seq<BalanceRowView>) -> Option<BalanceRowView>
    decreases lines.len(),
{
    if lines.len() == 0 {
        None
    } else if lines.last().amount is Some {
        Some(lines.last())
    } else {
        last_figure(lines.drop_last())
    }
}

/// How a line begins: with its category.
pub open spec fn line_head(category: Seq<char>) -> Seq<char> {
    "  "@ + category + spaces(lack(category, 14)) + " "@
}

/// Where a line's figure comes from.
pub open spec fn source_of(row: BalanceRowView) -> Seq<char> {
    row.provider_id + " · "@ + clock_of(row.received_at)
}

/// A figure, right-aligned, and its asset.
pub open spec fn figure_text(a: AmountView) -> Seq<char> {
    spaces(lack(amount_text(a), 14)) + amount_text(a) + " "@ + a.asset
}

/// A line with a figure that is not current.
pub open spec fn stale_text(category: Seq<char>, a: AmountView, row: BalanceRowView) -> Seq<char> {
    line_head(category) + figure_text(a) + "   stale (as of "@ + as_of(row) + ") · "@ + source_of(
        row,
    )
}

/// One balance line, from everything that was ever recorded for its category.
pub open spec fn balance_text(category: Seq<char>, lines: Seq<BalanceRowView>) -> Seq<char> {
    if lines.len() == 0 {
        line_head(category) + "unavailable"@
    } else {
        let latest = lines.last();
        match (latest.amount, is_live_line(latest)) {
            (Some(a), true) => line_head(category) + figure_text(a) + "   live · "@ + source_of(
                latest,
            ),
            (Some(a), false) => stale_text(category, a, latest),
            (None, true) => line_head(category) + spaces(lack("unknown"@, 14)) + "unknown"@
                + "     unknown · "@ + source_of(latest),
            (None, false) => match last_figure(lines) {
                Some(row) => stale_text(category, row.amount->0, row),
                None => line_head(category) + spaces(lack("--"@, 14)) + "--"@
                    + "     unavailable · "@ + source_of(latest),
            },
        }
    }
}

fn push_head(out: &mut String, category: &str)
    ensures
        final(out)@ == old(out)@ + line_head(category@),
{
    let ghost before = out@;
    out.append("  ");
    push_left(out, category, 14);
    out.append(" ");
    proof {
        assert(out@ =~= before + line_head(category@));
    }
}

fn push_source(out: &mut String, row: &BalanceRow)
    ensures
        final(out)@ == old(out)@ + source_of(row@),
{
    let ghost before = out@;
    out.append(row.provider_id.as_str());
    out.append(" · ");
    out.append(time_of_day(row.received_at.as_str()));
    proof {
        assert(out@ =~= before + source_of(row@));
    }
}

fn push_figure(out: &mut String, a: &Amount)
    ensures
        final(out)@ == old(out)@ + figure_text(a@),
{
    let ghost before = out@;
    push_right(out, a.to_string().as_str(), 14);
    out.append(" ");
    out.append(a.asset().as_str());
    proof {
        assert(out@ =~= before + figure_text(a@));
    }
}

impl BalanceRow {
    /// When the figure on this line was observed.
    pub fn as_of(&self) -> (r: String)
        ensures
            r@ == as_of(self@),
    {
        let outcome = self.outcome.as_str();
        let n = outcome.unicode_len();
        if n >= 6 && same(outcome.substring_char(0, 6), "stale:") {
            proof {
                assert(self.outcome@.subrange(0, 6) =~= self.outcome@.take(6));
                assert(self.outcome@.subrange(6, n as int) =~= self.outcome@.skip(6));
            }
            outcome.substring_char(6, n).to_owned()
        } else {
            proof {
                if n >= 6 {
                    assert(self.outcome@.subrange(0, 6) =~= self.outcome@.take(6));
                }
            }
            self.received_at.clone()
        }
    }
}

fn stale_line(category: &str, a: &Amount, row: &BalanceRow) -> (r: String)
    ensures
        r@ == stale_text(category@, a@, row@),
{
    let mut out = String::new();
    push_head(&mut out, category);
    push_figure(&mut out, a);
    out.append("   stale (as of ");
    out.append(row.as_of().as_str());
    out.append(") · ");
    push_source(&mut out, row);
    proof {
        assert(out@ =~= stale_text(category@, a@, row@));
    }
    out
}

/// One balance line. `history` is everything that was ever recorded for the
/// category, oldest first: the last figure there was can be several reads behind
/// the latest.
pub fn balance_line(category: &str, history: &[&BalanceRow]) -> (r: String)
    ensures
        r@ == balance_text(category@, views(history@)),
{
    let ghost lines = views(history@);
    let mut out = String::new();
    if history.len() == 0 {
        push_head(&mut out, category);
        out.append("unavailable");
        proof {
            assert(out@ =~= balance_text(category@, lines));
        }
        return out;
    }
    let latest = history[history.len() - 1];
    proof {
        assert(lines.last() == latest@);
    }
    let live = latest.from_latest_read && latest.staleness == Staleness::Live;
    match &latest.amount {
        Some(amount) => {
            if live {
                push_head(&mut out, category);
                push_figure(&mut out, amount);
                out.append("   live · ");
                push_source(&mut out, latest);
                proof {
                    assert(out@ =~= balance_text(category@, lines));
                }
                out
            } else {
                stale_line(category, amount, latest)
            }
        },
        None => {
            if live {
                push_head(&mut out, category);
                push_right(&mut out, "unknown", 14);
                out.append("     unknown · ");
                push_source(&mut out, latest);
                proof {
                    assert(out@ =~= balance_text(category@, lines));
                }
                return out;
            }
            let mut i: usize = history.len();
            proof {
                assert(lines.take(i as int) =~= lines);
            }
            while i > 0
                invariant
                    i <= history@.len(),
                    lines == views(history@),
                    lines.len() > 0,
                    lines.last() == latest@,
                    latest@.amount is None,
                    !is_live_line(latest@),
                    last_figure(lines) == last_figure(lines.take(i as int)),
                decreases i,
            {
                let ghost front = lines.take(i as int);
                i = i - 1;
                let row = history[i];
                proof {
                    assert(front.last() == row@);
                    assert(front.drop_last() =~= lines.take(i as int));
                }
                if let Some(amount) = &row.amount {
                    return stale_line(category, amount, row);
                }
            }
            push_head(&mut out, category);
            push_right(&mut out, "--", 14);
            out.append("     unavailable · ");
            push_source(&mut out, latest);
            proof {
                assert(out@ =~= balance_text(category@, lines));
            }
            out
        },
    }
}

/// What a record's line calls it.
pub open spec fn label_of_posting(o: ObservationView) -> Seq<char> {
    match o.state {
        ObservationState::Tombstoned => "tombstoned"@,
        ObservationState::Active => o.posting.spec_spelling(),
    }
}

fn posting_label(observation: &Observation) -> (r: &'static str)
    ensures
        r@ == label_of_posting(observation@),
{
    match observation.state {
        ObservationState::Tombstoned => "tombstoned",
        ObservationState::Active => observation.posting.spelling(),
    }
}

/// One line of the live history.
pub open spec fn history_text(local_id: Seq<char>, revision: nat, o: ObservationView) -> Seq<char> {
    "  "@ + local_id + "  r"@ + decimal(revision) + "  "@ + spaces(
        lack(amount_text(o.amount), 16),
    ) + amount_text(o.amount) + " "@ + o.amount.asset + "  "@ + label_of_posting(o) + "  "@
        + o.description + "  "@ + o.provenance.staleness.spec_spelling() + " · "@
        + o.provenance.provider_id
}

/// One line of the live history: what it is, what it was worth, and whose word it
/// is.
pub fn history_line(local_id: &str, revision: u64, observation: &Observation) -> (r: String)
    ensures
        r@ == history_text(local_id@, revision as nat, observation@),
{
    let mut out = "  ".to_owned();
    out.append(local_id);
    out.append("  r");
    push_decimal(&mut out, revision);
    out.append("  ");
    push_right(&mut out, observation.amount.to_string().as_str(), 16);
    out.append(" ");
    out.append(observation.amount.asset().as_str());
    out.append("  ");
    out.append(posting_label(observation));
    out.append("  ");
    out.append(observation.description.as_str());
    out.append("  ");
    out.append(observation.provenance.staleness.spelling());
    out.append(" · ");
    out.append(observation.provenance.provider_id.as_str());
    out
}

/// How a content hash is shown.
pub open spec fn short_hash(hash: Seq<char>) -> Seq<char> {
    match slice_of(hash, 0, 12) {
        Some(short) => short,
        None => hash,
    }
}

/// One revision of a record.
pub open spec fn revision_text(row: StoredView) -> Seq<char> {
    let o = row.observation;
    "  r"@ + decimal(row.revision) + "  observation  "@ + spaces(lack(amount_text(o.amount), 16))
        + amount_text(o.amount) + " "@ + o.amount.asset + "  "@ + label_of_posting(o)
        + "  crawl "@ + signed_decimal(row.crawl_id) + " · "@ + o.provenance.provider_id
        + " · received "@ + o.provenance.received_at + " · content "@ + short_hash(
        row.content_hash,
    )
}

/// One retraction of a record.
pub open spec fn retraction_text(row: RetractionView) -> Seq<char> {
    "  r"@ + decimal(row.revision) + "  RETRACTED    "@ + row.reason + "  crawl "@
        + signed_decimal(row.crawl_id) + " · at "@ + row.retracted_at
}

fn revision_line(row: &StoredObservation) -> (r: String)
    ensures
        r@ == revision_text(row@),
{
    let o = &row.observation;
    let mut out = "  r".to_owned();
    push_decimal(&mut out, row.revision);
    out.append("  observation  ");
    push_right(&mut out, o.amount.to_string().as_str(), 16);
    out.append(" ");
    out.append(o.amount.asset().as_str());
    out.append("  ");
    out.append(posting_label(o));
    out.append("  crawl ");
    push_signed(&mut out, row.crawl_id);
    out.append(" · ");
    out.append(o.provenance.provider_id.as_str());
    out.append(" · received ");
    out.append(o.provenance.received_at.as_str());
    out.append(" · content ");
    out.append(
        match byte_slice(row.content_hash.as_str(), 0, 12) {
            Some(short) => short,
            None => row.content_hash.as_str(),
        },
    );
    out
}

fn retraction_line(row: &RetractionRow) -> (r: String)
    ensures
        r@ == retraction_text(row@),
{
    let mut out = "  r".to_owned();
    push_decimal(&mut out, row.revision);
    out.append("  RETRACTED    ");
    out.append(row.reason.as_str());
    out.append("  crawl ");
    push_signed(&mut out, row.crawl_id);
    out.append(" · at ");
    out.append(row.retracted_at.as_str());
    out
}

/// A line of a record's history, with where it belongs.
pub struct EntryView {
    pub revision: nat,
    pub retraction: bool,
    pub text: Seq<char>,
}

/// Whether an entry comes behind another: by revision, and a retraction behind
/// the revision that it retracts.
pub open spec fn comes_behind(a: EntryView, b: EntryView) -> bool {
    a.revision > b.revision || a.revision == b.revision && a.retraction && !b.retraction
}

/// Where a new entry goes: in front of the first that comes behind it.
pub open spec fn entry_place(entries: Seq<EntryView>, new: EntryView) -> nat
    decreases entries.len(),
{
    if entries.len() == 0 || comes_behind(entries[0], new) {
        0
    } else {
        1 + entry_place(entries.skip(1), new)
    }
}

/// Entries in order; equal ones stay as they came.
pub open spec fn in_order(entries: Seq<EntryView>) -> Seq<EntryView>
    decreases entries.len(),
{
    if entries.len() == 0 {
        Seq::empty()
    } else {
        let before = in_order(entries.drop_last());
        before.insert(entry_place(before, entries.last()) as int, entries.last())
    }
}

/// The entries of a record's revisions and retractions.
pub open spec fn entries_of(chain: Seq<StoredView>, retractions: Seq<RetractionView>) -> Seq<
    EntryView,
> {
    Seq::new(
        chain.len(),
        |i: int|
            EntryView {
                revision: chain[i].revision,
                retraction: false,
                text: revision_text(chain[i]),
            },
    ) + Seq::new(
        retractions.len(),
        |i: int|
            EntryView {
                revision: retractions[i].revision,
                retraction: true,
                text: retraction_text(retractions[i]),
            },
    )
}

/// The lines of a record's whole history.
pub open spec fn show_texts(chain: Seq<StoredView>, retractions: Seq<RetractionView>) -> Seq<
    Seq<char>,
> {
    let entries = in_order(entries_of(chain, retractions));
    Seq::new(entries.len(), |i: int| entries[i].text)
}

struct Entry {
    revision: u64,
    retraction: bool,
    text: String,
}

impl View for Entry {
    type V = EntryView;

    closed spec fn view(&self) -> EntryView {
        EntryView {
            revision: self.revision as nat,
            retraction: self.retraction,
            text: self.text@,
        }
    }
}

pub proof fn lemma_entry_place(entries: Seq<EntryView>, new: EntryView)
    ensures
        entry_place(entries, new) <= entries.len(),
        forall|k: int|
            0 <= k < entry_place(entries, new) ==> !comes_behind(#[trigger] entries[k], new),
        entry_place(entries, new) < entries.len() ==> comes_behind(
            entries[entry_place(entries, new) as int],
            new,
        ),
    decreases entries.len(),
{
    if entries.len() > 0 && !comes_behind(entries[0], new) {
        let rest = entries.skip(1);
        lemma_entry_place(rest, new);
        assert forall|k: int| 0 <= k < entry_place(entries, new) implies !comes_behind(
            #[trigger] entries[k],
            new,
        ) by {
            if k > 0 {
                assert(entries[k] == rest[k - 1]);
            }
        }
        if entry_place(entries, new) < entries.len() {
            assert(entries[entry_place(entries, new) as int] == rest[entry_place(rest, new)
                as int]);
        }
    }
}

proof fn lemma_entry_place_is(entries: Seq<EntryView>, new: EntryView, at: int)
    requires
        0 <= at <= entries.len(),
        forall|k: int| 0 <= k < at ==> !comes_behind(#[trigger] entries[k], new),
        at < entries.len() ==> comes_behind(entries[at], new),
    ensures
        entry_place(entries, new) == at,
    decreases at,
{
    if at > 0 {
        let rest = entries.skip(1);
        assert(!comes_behind(entries[0], new));
        assert forall|k: int| 0 <= k < at - 1 implies !comes_behind(#[trigger] rest[k], new) by {
            assert(rest[k] == entries[k + 1]);
        }
        lemma_entry_place_is(rest, new, at - 1);
    }
}

fn insert_entry(entries: &mut Vec<Entry>, entry: Entry)
    ensures
        views(final(entries)@) == views(old(entries)@).insert(
            entry_place(views(old(entries)@), entry@) as int,
            entry@,
        ),
{
    let ghost was = views(entries@);
    let mut at: usize = 0;
    while at < entries.len() && !(entries[at].revision > entry.revision || (entries[at].revision
        == entry.revision && entries[at].retraction && !entry.retraction))
        invariant
            at <= entries@.len(),
            was == views(entries@),
            forall|k: int| 0 <= k < at ==> !comes_behind(#[trigger] was[k], entry@),
        decreases entries@.len() - at,
    {
        proof {
            assert(was[at as int] == entries@[at as int]@);
        }
        at = at + 1;
    }
    proof {
        if at < entries@.len() {
            assert(was[at as int] == entries@[at as int]@);
        }
        lemma_entry_place_is(was, entry@, at as int);
    }
    entries.insert(at, entry);
    proof {
        assert(views(entries@) =~= was.insert(at as int, entry@));
    }
}

/// A record's whole history: every revision of its chain, and every retraction
/// behind the revision that it retracts.
pub fn show_lines(chain: &[StoredObservation], retractions: &[RetractionRow]) -> (r: Vec<String>)
    ensures
        views(r@) == show_texts(views(chain@), views(retractions@)),
{
    let ghost all = entries_of(views(chain@), views(retractions@));
    let mut entries: Vec<Entry> = Vec::new();
    proof {
        assert(views(entries@) =~= in_order(all.take(0)));
    }
    let mut i: usize = 0;
    while i < chain.len()
        invariant
            i <= chain@.len(),
            all == entries_of(views(chain@), views(retractions@)),
            views(entries@) == in_order(all.take(i as int)),
        decreases chain@.len() - i,
    {
        let entry = Entry {
            revision: chain[i].revision,
            retraction: false,
            text: revision_line(&chain[i]),
        };
        proof {
            assert(all.take(i + 1).drop_last() =~= all.take(i as int));
            assert(views(chain@)[i as int] == chain@[i as int]@);
            assert(all.take(i + 1).last() == entry@);
        }
        insert_entry(&mut entries, entry);
        i = i + 1;
    }
    let mut k: usize = 0;
    while k < retractions.len()
        invariant
            k <= retractions@.len(),
            all == entries_of(views(chain@), views(retractions@)),
            views(entries@) == in_order(all.take(chain@.len() + k)),
        decreases retractions@.len() - k,
    {
        let entry = Entry {
            revision: retractions[k].revision,
            retraction: true,
            text: retraction_line(&retractions[k]),
        };
        proof {
            let n = chain@.len() + k;
            assert(all.take(n + 1).drop_last() =~= all.take(n));
            assert(views(retractions@)[k as int] == retractions@[k as int]@);
            assert(all.take(n + 1).last() == entry@);
        }
        insert_entry(&mut entries, entry);
        k = k + 1;
    }
    proof {
        assert(all.take(chain@.len() + k) =~= all);
    }
    let mut r: Vec<String> = Vec::new();
    let mut j: usize = 0;
    while j < entries.len()
        invariant
            j <= entries@.len(),
            r@.len() == j,
            forall|n: int| 0 <= n < j ==> (#[trigger] r@[n])@ == views(entries@)[n].text,
        decreases entries@.len() - j,
    {
        proof {
            assert(views(entries@)[j as int] == entries@[j as int]@);
        }
        r.push(entries[j].text.clone());
        j = j + 1;
    }
    proof {
        assert(views(r@) =~= show_texts(views(chain@), views(retractions@)));
    }
    r
}

/// What a sweep came to.
pub open spec fn verdict_text(report: ReportView) -> Seq<char> {
    match (report.error, report.disqualified_reason) {
        (Some(error), _) => "sweep: failed -- "@ + error,
        (None, Some(reason)) => "sweep: partial -- "@ + reason + ", no retractions derived"@,
        (None, None) => "sweep: complete"@,
    }
}

/// The one line that a refresh prints for a resource.
pub open spec fn sweep_text(report: ReportView) -> Seq<char> {
    report.adapter_id + "/"@ + report.resource_id + ": "@ + decimal(report.new) + " new · "@
        + decimal(report.revised) + " revised · "@ + decimal(report.retracted) + " retracted · "@
        + decimal(report.unchanged) + " unchanged · "@ + verdict_text(report)
}

/// The one line that a refresh prints for a resource.
pub fn sweep_line(report: &SweepReport) -> (r: String)
    ensures
        r@ == sweep_text(report@),
{
    let mut out = report.adapter_id.clone();
    out.append("/");
    out.append(report.resource_id.as_str());
    out.append(": ");
    push_decimal(&mut out, report.new as u64);
    out.append(" new · ");
    push_decimal(&mut out, report.revised as u64);
    out.append(" revised · ");
    push_decimal(&mut out, report.retracted as u64);
    out.append(" retracted · ");
    push_decimal(&mut out, report.unchanged as u64);
    out.append(" unchanged · ");
    let ghost head = out@;
    match (&report.error, &report.disqualified_reason) {
        (Some(error), _) => {
            out.append("sweep: failed -- ");
            out.append(error.as_str());
        },
        (None, Some(reason)) => {
            out.append("sweep: partial -- ");
            out.append(reason.as_str());
            out.append(", no retractions derived");
        },
        (None, None) => {
            out.append("sweep: complete");
        },
    }
    proof {
        assert(out@ =~= head + verdict_text(report@));
    }
    out
}

/// Every entry is shown once, in order: a later revision below an earlier one,
/// and a retraction below the revision that it retracts.
pub proof fn law_a_history_is_shown_in_order(entries: Seq<EntryView>)
    ensures
        in_order(entries).len() == entries.len(),
        in_order(entries).to_multiset() == entries.to_multiset(),
        forall|i: int, j: int|
            0 <= i < j < in_order(entries).len() ==> !comes_behind(
                #[trigger] in_order(entries)[i],
                #[trigger] in_order(entries)[j],
            ),
    decreases entries.len(),
{
    if entries.len() > 0 {
        let front = entries.drop_last();
        let new = entries.last();
        law_a_history_is_shown_in_order(front);
        let before = in_order(front);
        let now = in_order(entries);
        let p = entry_place(before, new) as int;
        lemma_entry_place(before, new);
        assert(now =~= before.insert(p, new));
        before.to_multiset_ensures();
        vstd::seq_lib::to_multiset_insert(before, p, new);
        assert(entries =~= front.push(new));
        vstd::seq_lib::to_multiset_build(front, new);
        assert forall|i: int, j: int| 0 <= i < j < now.len() implies !comes_behind(
            #[trigger] now[i],
            #[trigger] now[j],
        ) by {
            if i < p && j < p {
                assert(now[i] == before[i] && now[j] == before[j]);
            } else if i < p && j > p {
                assert(now[i] == before[i] && now[j] == before[j - 1]);
            } else if i == p {
                assert(now[j] == before[j - 1]);
                if j - 1 > p {
                    assert(!comes_behind(before[p], before[j - 1]));
                }
            } else if i > p {
                assert(now[i] == before[i - 1] && now[j] == before[j - 1]);
            }
        }
    } else {
        assert(in_order(entries) =~= entries);
    }
}

/// Only a line that the adapter's newest read wrote, and that the adapter itself
/// called live, reads live; whatever any other line holds, it reads as something
/// else.
pub proof fn law_live_needs_both_words(category: Seq<char>, lines: Seq<BalanceRowView>, a: AmountView)
    requires
        lines.len() > 0,
        lines.last().amount == Some(a),
    ensures
        balance_text(category, lines) == if lines.last().from_latest_read
            && lines.last().staleness == Staleness::Live {
            line_head(category) + figure_text(a) + "   live · "@ + source_of(lines.last())
        } else {
            stale_text(category, a, lines.last())
        },
{
}

/// A failed read erases no figure: as long as there ever was one, it is shown,
/// under the provider that it came from.
pub proof fn law_a_failed_read_keeps_the_last_figure(
    category: Seq<char>,
    lines: Seq<BalanceRowView>,
    i: int,
)
    requires
        0 <= i < lines.len(),
        lines[i].amount is Some,
        lines.last().amount is None,
        !is_live_line(lines.last()),
        forall|k: int| i < k < lines.len() ==> (#[trigger] lines[k]).amount is None,
    ensures
        balance_text(category, lines) == stale_text(category, lines[i].amount->0, lines[i]),
{
    lemma_last_figure(lines, i);
}

pub proof fn lemma_last_figure(lines: Seq<BalanceRowView>, i: int)
    requires
        0 <= i < lines.len(),
        lines[i].amount is Some,
        forall|k: int| i < k < lines.len() ==> (#[trigger] lines[k]).amount is None,
    ensures
        last_figure(lines) == Some(lines[i]),
    decreases lines.len(),
{
    if i < lines.len() - 1 {
        assert(lines[lines.len() - 1].amount is None);
        lemma_last_figure(lines.drop_last(), i);
    }
}

/// In front of the first byte that is not ASCII, every offset is a boundary.
pub proof fn lemma_ascii_boundary(b: Seq<u8>, at: int)
    requires
        valid_utf8(b),
        0 <= at <= b.len(),
        forall|k: int| 0 <= k < at ==> (#[trigger] b[k]) < 128,
    ensures
        is_char_boundary(b, at),
    decreases at,
{
    if at > 0 {
        let byte = b[0];
        assert(byte & 0x80 == 0x00) by (bit_vector)
            requires
                byte < 128,
        ;
        assert(length_of_first_scalar(b) == 1);
        let rest = pop_first_scalar(b);
        assert forall|k: int| 0 <= k < at - 1 implies (#[trigger] rest[k]) < 128 by {
            assert(rest[k] == b[k + 1]);
        }
        lemma_ascii_boundary(rest, at - 1);
    }
}

/// Every timestamp has a time of day: what is shown of it is the part behind the
/// date, up to what follows the seconds.
pub proof fn law_a_timestamp_has_a_time_of_day(timestamp: Seq<char>)
    requires
        is_timestamp(encode_utf8(timestamp)),
    ensures
        clock_of(timestamp) == decode_utf8(encode_utf8(timestamp).subrange(11, 20)),
{
    let b = encode_utf8(timestamp);
    encode_utf8_valid_utf8(timestamp);
    let (d0, d1, d2) = (b.subrange(0, 4), b.subrange(5, 7), b.subrange(8, 10));
    let (d3, d4, d5) = (b.subrange(11, 13), b.subrange(14, 16), b.subrange(17, 19));
    assert forall|k: int| 0 <= k < 20 implies (#[trigger] b[k]) < 128 by {
        if k < 4 {
            assert(is_digit(d0[k]));
        } else if 5 <= k < 7 {
            assert(is_digit(d1[k - 5]));
        } else if 8 <= k < 10 {
            assert(is_digit(d2[k - 8]));
        } else if 11 <= k < 13 {
            assert(is_digit(d3[k - 11]));
        } else if 14 <= k < 16 {
            assert(is_digit(d4[k - 14]));
        } else if 17 <= k < 19 {
            assert(is_digit(d5[k - 17]));
        }
    }
    lemma_ascii_boundary(b, 11);
    lemma_ascii_boundary(b, 20);
}

} // verus!
