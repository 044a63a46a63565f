//! What each command prints.

use crate::store::live::{live_listing, live_records, live_views};
use crate::store::model::StoreView;
use crate::store::order::{key_before, lemma_place_is, pair_before, place_of, Key};
use crate::store::refresh::{error_views, RefreshReport};
use crate::store::render::{
    balance_line, balance_text, history_line, history_text, show_lines, show_texts, sweep_line,
    sweep_text,
};
use crate::store::report::{NoteView, ReportView, SweepReport};
use crate::store::rows::{
    AdapterRow, AdapterView, BalanceRow, BalanceRowView, CrawlRow, CrawlView, DiscrepancyRow,
    DiscrepancyView, ResourceRow, ResourceView,
};
use crate::store::tables::{
    adapters, balance_history, chain, crawls, discrepancies, newest_first, resources,
    resources_of, retractions_for, retractions_of, rows_of, Store,
};
use crate::text::{
    debug_quoted, debug_text, lemma_views_push, push_signed, same, signed_decimal, views,
};
use crate::wire::record::{DescriptorView, ResourceDescriptor};
use vstd::prelude::*;

verus! {

/// Appends lines to lines.
fn extend(out: &mut Vec<String>, more: Vec<String>)
    ensures
        views(final(out)@) == views(old(out)@) + views(more@),
{
    let ghost before = out@;
    let mut more = more;
    let ghost added = more@;
    out.append(&mut more);
    proof {
        assert(views(out@) =~= views(before) + views(added));
    }
}

fn push_line(out: &mut Vec<String>, line: String)
    ensures
        views(final(out)@) == views(old(out)@).push(line@),
{
    proof {
        lemma_views_push(out@, line);
    }
    out.push(line);
}

/// No line.
fn no_lines() -> (r: Vec<String>)
    ensures
        views(r@) == Seq::<Seq<char>>::empty(),
{
    let r: Vec<String> = Vec::new();
    proof {
        assert(views(r@) =~= Seq::<Seq<char>>::empty());
    }
    r
}

/// The heading of a resource.
pub open spec fn resource_heading(row: ResourceView) -> Seq<char> {
    row.adapter_id + "/"@ + row.resource_id + "  "@ + row.label
}

fn heading(row: &ResourceRow) -> (r: String)
    ensures
        r@ == resource_heading(row@),
{
    let mut out = row.adapter_id.clone();
    out.append("/");
    out.append(row.resource_id.as_str());
    out.append("  ");
    out.append(row.label.as_str());
    out
}

/// The line of a resource that was just listed.
pub open spec fn listed_text(d: DescriptorView) -> Seq<char> {
    "  "@ + d.resource_id + "  "@ + d.label + "  ["@ + d.kind + "]"@
}

/// What connecting an adapter prints.
pub open spec fn connect_texts(
    adapter_id: Seq<char>,
    derivation: Seq<char>,
    resources: Seq<DescriptorView>,
) -> Seq<Seq<char>> {
    seq!["connected "@ + adapter_id + " ("@ + derivation + ")"@] + Seq::new(
        resources.len(),
        |i: int| listed_text(resources[i]),
    )
}

/// What connecting an adapter prints.
pub fn connect_lines(
    adapter_id: &str,
    derivation: &str,
    resources: &Vec<ResourceDescriptor>,
) -> (r: Vec<String>)
    ensures
        views(r@) == connect_texts(adapter_id@, derivation@, views(resources@)),
{
    let ghost all = connect_texts(adapter_id@, derivation@, views(resources@));
    let mut first = "connected ".to_owned();
    first.append(adapter_id);
    first.append(" (");
    first.append(derivation);
    first.append(")");
    let mut out = no_lines();
    push_line(&mut out, first);
    let mut i: usize = 0;
    proof {
        assert(views(out@) =~= all.take(1));
    }
    while i < resources.len()
        invariant
            i <= resources@.len(),
            all == connect_texts(adapter_id@, derivation@, views(resources@)),
            views(out@) == all.take(i + 1),
        decreases resources@.len() - i,
    {
        let d = &resources[i];
        let mut line = "  ".to_owned();
        line.append(d.resource_id.as_str());
        line.append("  ");
        line.append(d.label.as_str());
        line.append("  [");
        line.append(d.kind.as_str());
        line.append("]");
        proof {
            assert(views(resources@)[i as int] == d@);
            assert(all[i + 1] == line@);
            assert(all.take(i + 2) =~= all.take(i + 1).push(line@));
        }
        push_line(&mut out, line);
        i = i + 1;
    }
    proof {
        assert(all.take(i + 1) =~= all);
    }
    out
}

/// The lines of one sweep: its own, and one for each discrepancy.
pub open spec fn report_texts(report: ReportView) -> Seq<Seq<char>> {
    seq![sweep_text(report)] + Seq::new(
        report.discrepancies.len(),
        |i: int| note_text(report.discrepancies[i]),
    )
}

/// The line of a discrepancy.
pub open spec fn note_text(note: NoteView) -> Seq<char> {
    "  ! "@ + note.kind + ": "@ + note.detail
}

fn report_lines(report: &SweepReport) -> (r: Vec<String>)
    ensures
        views(r@) == report_texts(report@),
{
    let ghost all = report_texts(report@);
    let mut out = no_lines();
    push_line(&mut out, sweep_line(report));
    let mut i: usize = 0;
    proof {
        assert(views(out@) =~= all.take(1));
    }
    while i < report.discrepancies.len()
        invariant
            i <= report.discrepancies@.len(),
            all == report_texts(report@),
            views(out@) == all.take(i + 1),
        decreases report.discrepancies@.len() - i,
    {
        let d = &report.discrepancies[i];
        let mut line = "  ! ".to_owned();
        line.append(d.kind.as_str());
        line.append(": ");
        line.append(d.detail.as_str());
        proof {
            assert(report@.discrepancies[i as int] == d@);
            assert(all[i + 1] == line@);
            assert(all.take(i + 2) =~= all.take(i + 1).push(line@));
        }
        push_line(&mut out, line);
        i = i + 1;
    }
    proof {
        assert(all.take(i + 1) =~= all);
    }
    out
}

/// The lines of these sweeps.
pub open spec fn sweeps_texts(sweeps: Seq<ReportView>) -> Seq<Seq<char>>
    decreases sweeps.len(),
{
    if sweeps.len() == 0 {
        Seq::empty()
    } else {
        sweeps_texts(sweeps.drop_last()) + report_texts(sweeps.last())
    }
}

/// What a refresh prints: what went wrong with whole adapters, and then every
/// sweep.
pub open spec fn refresh_texts(sweeps: Seq<ReportView>, errors: Seq<(Seq<char>, Seq<char>)>) -> Seq<
    Seq<char>,
> {
    Seq::new(errors.len(), |i: int| errors[i].0 + ": "@ + errors[i].1) + sweeps_texts(sweeps)
}

/// What a refresh prints.
pub fn refresh_lines(report: &RefreshReport) -> (r: Vec<String>)
    ensures
        views(r@) == refresh_texts(views(report.sweeps@), error_views(report.adapter_errors@)),
{
    let ghost errors = error_views(report.adapter_errors@);
    let ghost head = Seq::new(errors.len(), |i: int| errors[i].0 + ": "@ + errors[i].1);
    let mut out = no_lines();
    let mut i: usize = 0;
    proof {
        assert(views(out@) =~= head.take(0));
    }
    while i < report.adapter_errors.len()
        invariant
            i <= report.adapter_errors@.len(),
            errors == error_views(report.adapter_errors@),
            head == Seq::new(errors.len(), |i: int| errors[i].0 + ": "@ + errors[i].1),
            views(out@) == head.take(i as int),
        decreases report.adapter_errors@.len() - i,
    {
        let (adapter_id, error) = &report.adapter_errors[i];
        let mut line = adapter_id.clone();
        line.append(": ");
        line.append(error.as_str());
        proof {
            assert(head[i as int] == line@);
            assert(head.take(i + 1) =~= head.take(i as int).push(line@));
        }
        push_line(&mut out, line);
        i = i + 1;
    }
    let ghost all = views(report.sweeps@);
    let mut k: usize = 0;
    proof {
        assert(head.take(i as int) =~= head);
        assert(views(out@) =~= head + sweeps_texts(all.take(0)));
    }
    while k < report.sweeps.len()
        invariant
            k <= report.sweeps@.len(),
            all == views(report.sweeps@),
            views(out@) == head + sweeps_texts(all.take(k as int)),
        decreases report.sweeps@.len() - k,
    {
        proof {
            assert(all.take(k + 1).drop_last() =~= all.take(k as int));
            assert(all.take(k + 1).last() == report.sweeps@[k as int]@);
        }
        let ghost before = views(out@);
        let lines = report_lines(&report.sweeps[k]);
        extend(&mut out, lines);
        proof {
            assert(views(out@) =~= head + sweeps_texts(all.take(k + 1)));
        }
        k = k + 1;
    }
    proof {
        assert(all.take(k as int) =~= all);
    }
    out
}

/// The lines of one category.
pub open spec fn of_category(lines: Seq<BalanceRowView>, category: Seq<char>) -> Seq<BalanceRowView>
    decreases lines.len(),
{
    if lines.len() == 0 {
        Seq::empty()
    } else {
        let before = of_category(lines.drop_last(), category);
        if lines.last().category == category {
            before.push(lines.last())
        } else {
            before
        }
    }
}

/// The key of a category: its name alone.
pub open spec fn category_key(category: Seq<char>) -> Key {
    Key { first: category, second: Seq::empty() }
}

/// The categories of these lines, in order, each once.
pub open spec fn categories(lines: Seq<BalanceRowView>) -> Seq<Key>
    decreases lines.len(),
{
    if lines.len() == 0 {
        Seq::empty()
    } else {
        let before = categories(lines.drop_last());
        let key = category_key(lines.last().category);
        let p = place_of(before, key);
        if p < before.len() && before[p as int] == key {
            before
        } else {
            before.insert(p as int, key)
        }
    }
}

/// What the balances of a resource print: a heading, and a line for each
/// category under the provider's own name. Nothing is added up.
pub open spec fn balances_block(s: StoreView, row: ResourceView) -> Seq<Seq<char>> {
    let lines = s.balance_lines(row.adapter_id, row.resource_id);
    let names = categories(lines);
    if names.len() == 0 {
        seq![resource_heading(row), "  (no balance has ever been read)"@]
    } else {
        seq![resource_heading(row)] + Seq::new(
            names.len(),
            |i: int| balance_text(names[i].first, of_category(lines, names[i].first)),
        )
    }
}

spec fn name_keys(names: Seq<String>) -> Seq<Key> {
    Seq::new(names.len(), |i: int| category_key(names[i]@))
}

fn list_categories(history: &Vec<BalanceRow>) -> (r: Vec<String>)
    ensures
        name_keys(r@) == categories(views(history@)),
{
    let ghost lines = views(history@);
    let mut names: Vec<String> = Vec::new();
    let mut i: usize = 0;
    proof {
        reveal_strlit("");
        assert(""@ =~= Seq::<char>::empty());
        assert(name_keys(names@) =~= categories(lines.take(0)));
    }
    while i < history.len()
        invariant
            i <= history@.len(),
            lines == views(history@),
            ""@ == Seq::<char>::empty(),
            name_keys(names@) == categories(lines.take(i as int)),
        decreases history@.len() - i,
    {
        let category = history[i].category.as_str();
        let ghost keys = name_keys(names@);
        let ghost key = category_key(category@);
        proof {
            assert(lines.take(i + 1).drop_last() =~= lines.take(i as int));
            assert(lines.take(i + 1).last() == history@[i as int]@);
        }
        let mut p: usize = 0;
        while p < names.len() && pair_before((names[p].as_str(), ""), (category, ""))
            invariant
                p <= names@.len(),
                keys == name_keys(names@),
                key == category_key(category@),
                ""@ == Seq::<char>::empty(),
                forall|k: int| 0 <= k < p ==> key_before(#[trigger] keys[k], key),
            decreases names@.len() - p,
        {
            proof {
                assert(keys[p as int] == category_key(names@[p as int]@));
            }
            p = p + 1;
        }
        proof {
            if p < names@.len() {
                assert(keys[p as int] == category_key(names@[p as int]@));
            }
            lemma_place_is(keys, key, p as int);
        }
        if !(p < names.len() && same(names[p].as_str(), category)) {
            names.insert(p, category.to_owned());
            proof {
                assert(name_keys(names@) =~= keys.insert(p as int, key));
            }
        }
        i = i + 1;
    }
    proof {
        assert(lines.take(i as int) =~= lines);
    }
    names
}

fn pick_category<'a>(history: &'a Vec<BalanceRow>, category: &str) -> (r: Vec<&'a BalanceRow>)
    ensures
        views(r@) == of_category(views(history@), category@),
{
    let ghost lines = views(history@);
    let mut r: Vec<&'a BalanceRow> = Vec::new();
    let mut i: usize = 0;
    proof {
        assert(views(r@) =~= of_category(lines.take(0), category@));
    }
    while i < history.len()
        invariant
            i <= history@.len(),
            lines == views(history@),
            views(r@) == of_category(lines.take(i as int), category@),
        decreases history@.len() - i,
    {
        proof {
            assert(lines.take(i + 1).drop_last() =~= lines.take(i as int));
            assert(lines.take(i + 1).last() == history@[i as int]@);
        }
        if same(history[i].category.as_str(), category) {
            let row = &history[i];
            proof {
                lemma_views_push(r@, row);
            }
            r.push(row);
        }
        i = i + 1;
    }
    proof {
        assert(lines.take(i as int) =~= lines);
    }
    r
}

fn balances_of(store: &Store, row: &ResourceRow) -> (r: Vec<String>)
    ensures
        views(r@) == balances_block(store@, row@),
{
    let ghost all = balances_block(store@, row@);
    let history = balance_history(store, row.adapter_id.as_str(), row.resource_id.as_str());
    let names = list_categories(&history);
    let ghost lines = views(history@);
    let ghost keys = categories(lines);
    let mut out = no_lines();
    push_line(&mut out, heading(row));
    if names.len() == 0 {
        push_line(&mut out, "  (no balance has ever been read)".to_owned());
        proof {
            assert(keys.len() == 0);
            assert(views(out@) =~= all);
        }
        return out;
    }
    let mut i: usize = 0;
    proof {
        assert(keys.len() == names@.len());
        assert(views(out@) =~= all.take(1));
    }
    while i < names.len()
        invariant
            i <= names@.len(),
            names@.len() > 0,
            lines == views(history@),
            lines == store@.balance_lines(row@.adapter_id, row@.resource_id),
            keys == categories(lines),
            keys == name_keys(names@),
            all == balances_block(store@, row@),
            views(out@) == all.take(i + 1),
        decreases names@.len() - i,
    {
        let rows = pick_category(&history, names[i].as_str());
        let line = balance_line(names[i].as_str(), rows.as_slice());
        proof {
            assert(keys[i as int] == category_key(names@[i as int]@));
            assert(all[i + 1] == line@);
            assert(all.take(i + 2) =~= all.take(i + 1).push(line@));
        }
        push_line(&mut out, line);
        i = i + 1;
    }
    proof {
        assert(all.take(i + 1) =~= all);
    }
    out
}

/// What the balances of these resources print.
pub open spec fn balances_texts(s: StoreView, rows: Seq<ResourceView>) -> Seq<Seq<char>>
    decreases rows.len(),
{
    if rows.len() == 0 {
        Seq::empty()
    } else {
        balances_texts(s, rows.drop_last()) + balances_block(s, rows.last())
    }
}

/// What the balances print: every line of every resource.
pub fn balances_lines(store: &Store) -> (r: Vec<String>)
    ensures
        views(r@) == balances_texts(store@, resources_of(store@.resources, None)),
{
    let rows = resources(store, None);
    let ghost all = views(rows@);
    let mut out = no_lines();
    let mut i: usize = 0;
    while i < rows.len()
        invariant
            i <= rows@.len(),
            all == views(rows@),
            views(out@) == balances_texts(store@, all.take(i as int)),
        decreases rows@.len() - i,
    {
        proof {
            assert(all.take(i + 1).drop_last() =~= all.take(i as int));
            assert(all.take(i + 1).last() == rows@[i as int]@);
        }
        let lines = balances_of(store, &rows[i]);
        extend(&mut out, lines);
        i = i + 1;
    }
    proof {
        assert(all.take(i as int) =~= all);
    }
    out
}

/// What the live records of a resource print.
pub open spec fn history_block(s: StoreView, row: ResourceView) -> Seq<Seq<char>> {
    let live = live_listing(s, row.adapter_id, row.resource_id);
    if live.len() == 0 {
        seq![resource_heading(row), "  (nothing live)"@]
    } else {
        seq![resource_heading(row)] + Seq::new(
            live.len(),
            |i: int| history_text(live[i].local_id, live[i].revision, live[i].observation),
        )
    }
}

/// What the live records of these resources print, of one or of all.
pub open spec fn history_texts(
    s: StoreView,
    rows: Seq<ResourceView>,
    wanted: Option<Seq<char>>,
) -> Seq<Seq<char>>
    decreases rows.len(),
{
    if rows.len() == 0 {
        Seq::empty()
    } else {
        let before = history_texts(s, rows.drop_last(), wanted);
        if wanted is None || wanted == Some(rows.last().resource_id) {
            before + history_block(s, rows.last())
        } else {
            before
        }
    }
}

fn history_of(store: &Store, row: &ResourceRow) -> (r: Vec<String>)
    requires
        store@.observations.len() < u64::MAX,
    ensures
        views(r@) == history_block(store@, row@),
{
    let ghost all = history_block(store@, row@);
    let live = live_records(store, row.adapter_id.as_str(), row.resource_id.as_str());
    let ghost records = live_views(live@);
    let mut out = no_lines();
    push_line(&mut out, heading(row));
    if live.len() == 0 {
        push_line(&mut out, "  (nothing live)".to_owned());
        proof {
            assert(records.len() == 0);
            assert(views(out@) =~= all);
        }
        return out;
    }
    let mut i: usize = 0;
    proof {
        assert(views(out@) =~= all.take(1));
    }
    while i < live.len()
        invariant
            i <= live@.len(),
            live@.len() > 0,
            records == live_views(live@),
            records == live_listing(store@, row@.adapter_id, row@.resource_id),
            all == history_block(store@, row@),
            views(out@) == all.take(i + 1),
        decreases live@.len() - i,
    {
        let (local_id, revision, observation) = &live[i];
        let line = history_line(local_id.as_str(), *revision, observation);
        proof {
            assert(records[i as int].local_id == local_id@);
            assert(all[i + 1] == line@);
            assert(all.take(i + 2) =~= all.take(i + 1).push(line@));
        }
        push_line(&mut out, line);
        i = i + 1;
    }
    proof {
        assert(all.take(i + 1) =~= all);
    }
    out
}

/// What the history prints: the live records, of one resource or of all.
pub fn history_lines(store: &Store, wanted: &Option<String>) -> (r: Vec<String>)
    requires
        store@.observations.len() < u64::MAX,
    ensures
        views(r@) == history_texts(
            store@,
            resources_of(store@.resources, None),
            crate::text::opt_view(*wanted),
        ),
{
    let rows = resources(store, None);
    let ghost all = views(rows@);
    let ghost id = crate::text::opt_view(*wanted);
    let mut out = no_lines();
    let mut i: usize = 0;
    while i < rows.len()
        invariant
            i <= rows@.len(),
            all == views(rows@),
            id == crate::text::opt_view(*wanted),
            store@.observations.len() < u64::MAX,
            views(out@) == history_texts(store@, all.take(i as int), id),
        decreases rows@.len() - i,
    {
        proof {
            assert(all.take(i + 1).drop_last() =~= all.take(i as int));
            assert(all.take(i + 1).last() == rows@[i as int]@);
        }
        let taken = match wanted {
            Some(id) => same(id.as_str(), rows[i].resource_id.as_str()),
            None => true,
        };
        if taken {
            let lines = history_of(store, &rows[i]);
            extend(&mut out, lines);
        }
        i = i + 1;
    }
    proof {
        assert(all.take(i as int) =~= all);
    }
    out
}

/// What one adapter's record prints, if the adapter has it.
pub open spec fn show_block(s: StoreView, adapter_id: Seq<char>, local_id: Seq<char>) -> Seq<
    Seq<char>,
> {
    let rows = rows_of(s.observations, adapter_id, Some(local_id));
    if rows.len() == 0 {
        Seq::empty()
    } else {
        seq![adapter_id + "/"@ + local_id] + show_texts(
            rows,
            retractions_of(s.retractions, adapter_id, local_id),
        )
    }
}

/// What a record prints under these adapters.
pub open spec fn show_blocks(s: StoreView, rows: Seq<AdapterView>, local_id: Seq<char>) -> Seq<
    Seq<char>,
>
    decreases rows.len(),
{
    if rows.len() == 0 {
        Seq::empty()
    } else {
        show_blocks(s, rows.drop_last(), local_id) + show_block(
            s,
            rows.last().adapter_id,
            local_id,
        )
    }
}

/// What a record prints: its whole history under every adapter that has it.
pub open spec fn record_texts(s: StoreView, local_id: Seq<char>) -> Seq<Seq<char>> {
    let blocks = show_blocks(s, s.adapters, local_id);
    if blocks.len() == 0 {
        seq!["no record "@ + debug_text(local_id) + " in this profile"@]
    } else {
        blocks
    }
}

/// What a record prints.
pub fn record_lines(store: &Store, local_id: &str) -> (r: Vec<String>)
    ensures
        views(r@) == record_texts(store@, local_id@),
{
    let rows = adapters(store);
    let ghost all = views(rows@);
    let mut out = no_lines();
    let mut i: usize = 0;
    while i < rows.len()
        invariant
            i <= rows@.len(),
            all == views(rows@),
            views(out@) == show_blocks(store@, all.take(i as int), local_id@),
        decreases rows@.len() - i,
    {
        let ghost before = views(out@);
        proof {
            assert(all.take(i + 1).drop_last() =~= all.take(i as int));
            assert(all.take(i + 1).last() == rows@[i as int]@);
        }
        let adapter_id = rows[i].adapter_id.as_str();
        let stored = chain(store, adapter_id, local_id);
        proof {
            assert(views(stored@).len() == stored@.len());
        }
        if stored.len() > 0 {
            let retractions = retractions_for(store, adapter_id, local_id);
            let mut first = adapter_id.to_owned();
            first.append("/");
            first.append(local_id);
            push_line(&mut out, first);
            let lines = show_lines(stored.as_slice(), retractions.as_slice());
            extend(&mut out, lines);
            proof {
                assert(views(out@) =~= before + show_block(store@, adapter_id@, local_id@));
            }
        } else {
            proof {
                assert(before =~= before + show_block(store@, adapter_id@, local_id@));
            }
        }
        i = i + 1;
    }
    proof {
        assert(all.take(i as int) =~= all);
        assert(views(out@).len() == out@.len());
    }
    if out.len() == 0 {
        let mut line = "no record ".to_owned();
        line.append(debug_quoted(local_id).as_str());
        line.append(" in this profile");
        push_line(&mut out, line);
        proof {
            assert(views(out@) =~= record_texts(store@, local_id@));
        }
    }
    out
}

/// The status line of an adapter.
pub open spec fn adapter_text(row: AdapterView) -> Seq<char> {
    row.adapter_id + "  derivation "@ + (match row.local_id_derivation {
        Some(derivation) => derivation,
        None => "(unknown)"@,
    }) + "  "@ + (if row.needs_reauth {
        "NEEDS REAUTH"@
    } else {
        "ok"@
    })
}

/// The status line of a resource.
pub open spec fn vantage_text(row: ResourceView) -> Seq<char> {
    "  "@ + row.resource_id + "  "@ + row.label + "  vantage "@ + (match row.last_provider_id {
        Some(id) => id,
        None => "(none yet)"@,
    })
}

/// What became of a crawl.
pub open spec fn crawl_verdict(row: CrawlView) -> Seq<char> {
    if row.complete {
        "complete"@
    } else {
        match row.disqualified_reason {
            Some(reason) => "partial -- "@ + reason,
            None => "open"@,
        }
    }
}

/// The status line of a crawl.
pub open spec fn crawl_text(row: CrawlView) -> Seq<char> {
    "  "@ + signed_decimal(row.crawl_id) + " "@ + row.adapter_id + "/"@ + row.resource_id + " at "@
        + row.started_at + " -- "@ + crawl_verdict(row)
}

/// The status line of a discrepancy.
pub open spec fn discrepancy_text(row: DiscrepancyView) -> Seq<char> {
    "  ["@ + row.kind + "] "@ + row.adapter_id + "/"@ + row.resource_id + " crawl "@
        + signed_decimal(row.crawl_id) + ": "@ + row.detail
}

/// The status of an adapter: its own line, and one for each of its resources.
pub open spec fn adapter_block(s: StoreView, row: AdapterView) -> Seq<Seq<char>> {
    let own = resources_of(s.resources, Some(row.adapter_id));
    seq![adapter_text(row)] + Seq::new(own.len(), |i: int| vantage_text(own[i]))
}

/// The status of these adapters.
pub open spec fn adapter_blocks(s: StoreView, rows: Seq<AdapterView>) -> Seq<Seq<char>>
    decreases rows.len(),
{
    if rows.len() == 0 {
        Seq::empty()
    } else {
        adapter_blocks(s, rows.drop_last()) + adapter_block(s, rows.last())
    }
}

/// What the status prints: adapters and their resources, the newest crawls, and
/// the newest discrepancies.
pub open spec fn status_texts(s: StoreView) -> Seq<Seq<char>> {
    let recent = newest_first(s.crawls, 10);
    let notes = newest_first(s.discrepancies, 20);
    adapter_blocks(s, s.adapters) + seq!["\nrecent crawls"@] + Seq::new(
        recent.len(),
        |i: int| crawl_text(recent[i]),
    ) + seq!["\ndiscrepancies"@] + (if notes.len() == 0 {
        seq!["  (none)"@]
    } else {
        Seq::new(notes.len(), |i: int| discrepancy_text(notes[i]))
    })
}

fn adapter_lines(store: &Store, row: &AdapterRow) -> (r: Vec<String>)
    ensures
        views(r@) == adapter_block(store@, row@),
{
    let ghost all = adapter_block(store@, row@);
    let mut first = row.adapter_id.clone();
    first.append("  derivation ");
    match &row.local_id_derivation {
        Some(derivation) => first.append(derivation.as_str()),
        None => first.append("(unknown)"),
    }
    first.append("  ");
    if row.needs_reauth {
        first.append("NEEDS REAUTH");
    } else {
        first.append("ok");
    }
    let own = resources(store, Some(row.adapter_id.as_str()));
    let ghost rows = views(own@);
    let mut out = no_lines();
    push_line(&mut out, first);
    let mut i: usize = 0;
    proof {
        assert(rows.len() == own@.len());
        assert(views(out@) =~= all.take(1));
    }
    while i < own.len()
        invariant
            i <= own@.len(),
            rows == views(own@),
            rows == resources_of(store@.resources, Some(row@.adapter_id)),
            all == adapter_block(store@, row@),
            views(out@) == all.take(i + 1),
        decreases own@.len() - i,
    {
        let r = &own[i];
        let mut line = "  ".to_owned();
        line.append(r.resource_id.as_str());
        line.append("  ");
        line.append(r.label.as_str());
        line.append("  vantage ");
        match &r.last_provider_id {
            Some(id) => line.append(id.as_str()),
            None => line.append("(none yet)"),
        }
        proof {
            assert(rows[i as int] == r@);
            assert(all[i + 1] == line@);
            assert(all.take(i + 2) =~= all.take(i + 1).push(line@));
        }
        push_line(&mut out, line);
        i = i + 1;
    }
    proof {
        assert(all.take(i + 1) =~= all);
    }
    out
}

fn crawl_line(row: &CrawlRow) -> (r: String)
    ensures
        r@ == crawl_text(row@),
{
    let mut out = "  ".to_owned();
    push_signed(&mut out, row.crawl_id);
    out.append(" ");
    out.append(row.adapter_id.as_str());
    out.append("/");
    out.append(row.resource_id.as_str());
    out.append(" at ");
    out.append(row.started_at.as_str());
    out.append(" -- ");
    let ghost head = out@;
    if row.complete {
        out.append("complete");
    } else {
        match &row.disqualified_reason {
            Some(reason) => {
                out.append("partial -- ");
                out.append(reason.as_str());
            },
            None => out.append("open"),
        }
    }
    proof {
        assert(out@ =~= head + crawl_verdict(row@));
    }
    out
}

fn discrepancy_line(row: &DiscrepancyRow) -> (r: String)
    ensures
        r@ == discrepancy_text(row@),
{
    let mut out = "  [".to_owned();
    out.append(row.kind.as_str());
    out.append("] ");
    out.append(row.adapter_id.as_str());
    out.append("/");
    out.append(row.resource_id.as_str());
    out.append(" crawl ");
    push_signed(&mut out, row.crawl_id);
    out.append(": ");
    out.append(row.detail.as_str());
    out
}

fn crawl_lines(rows: &Vec<CrawlRow>) -> (r: Vec<String>)
    ensures
        views(r@) == Seq::new(rows@.len(), |i: int| crawl_text(views(rows@)[i])),
{
    let mut out: Vec<String> = Vec::new();
    let mut i: usize = 0;
    while i < rows.len()
        invariant
            i <= rows@.len(),
            out@.len() == i,
            forall|k: int| 0 <= k < i ==> (#[trigger] out@[k])@ == crawl_text(rows@[k]@),
        decreases rows@.len() - i,
    {
        out.push(crawl_line(&rows[i]));
        i = i + 1;
    }
    proof {
        assert(views(out@) =~= Seq::new(rows@.len(), |i: int| crawl_text(views(rows@)[i])));
    }
    out
}

fn discrepancy_lines(rows: &Vec<DiscrepancyRow>) -> (r: Vec<String>)
    ensures
        views(r@) == Seq::new(rows@.len(), |i: int| discrepancy_text(views(rows@)[i])),
{
    let mut out: Vec<String> = Vec::new();
    let mut i: usize = 0;
    while i < rows.len()
        invariant
            i <= rows@.len(),
            out@.len() == i,
            forall|k: int| 0 <= k < i ==> (#[trigger] out@[k])@ == discrepancy_text(rows@[k]@),
        decreases rows@.len() - i,
    {
        out.push(discrepancy_line(&rows[i]));
        i = i + 1;
    }
    proof {
        assert(views(out@) =~= Seq::new(
            rows@.len(),
            |i: int| discrepancy_text(views(rows@)[i]),
        ));
    }
    out
}

/// What the status prints.
pub fn status_lines(store: &Store) -> (r: Vec<String>)
    ensures
        views(r@) == status_texts(store@),
{
    let ghost s = store@;
    let rows = adapters(store);
    let ghost all = views(rows@);
    let mut out = no_lines();
    let mut i: usize = 0;
    while i < rows.len()
        invariant
            i <= rows@.len(),
            all == views(rows@),
            views(out@) == adapter_blocks(store@, all.take(i as int)),
        decreases rows@.len() - i,
    {
        proof {
            assert(all.take(i + 1).drop_last() =~= all.take(i as int));
            assert(all.take(i + 1).last() == rows@[i as int]@);
        }
        let lines = adapter_lines(store, &rows[i]);
        extend(&mut out, lines);
        i = i + 1;
    }
    let ghost head = views(out@);
    proof {
        assert(all.take(i as int) =~= all);
    }
    push_line(&mut out, "\nrecent crawls".to_owned());
    let recent = crawls(store, 10);
    extend(&mut out, crawl_lines(&recent));
    push_line(&mut out, "\ndiscrepancies".to_owned());
    let notes = discrepancies(store, 20);
    let ghost n = views(notes@).len();
    if notes.len() == 0 {
        push_line(&mut out, "  (none)".to_owned());
    } else {
        extend(&mut out, discrepancy_lines(&notes));
    }
    proof {
        assert(views(recent@).len() == recent@.len());
        assert(n == notes@.len());
        let a = newest_first(s.crawls, 10);
        let b = newest_first(s.discrepancies, 20);
        assert(Seq::new(recent@.len(), |i: int| crawl_text(views(recent@)[i])) =~= Seq::new(
            a.len(),
            |i: int| crawl_text(a[i]),
        ));
        assert(Seq::new(notes@.len(), |i: int| discrepancy_text(views(notes@)[i])) =~= Seq::new(
            b.len(),
            |i: int| discrepancy_text(b[i]),
        ));
        assert(views(out@) =~= status_texts(s));
    }
    out
}

} // verus!
