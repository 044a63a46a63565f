//! What the user reads of balances: every category of every resource once, with the
//! figure that it has itself, and with how current that figure is.

use crate::money::amount::{format_text, AmountView};
use crate::store::commands::{balances_block, balances_texts, categories, category_key};
use crate::store::model::StoreView;
use crate::store::order::{
    key_before, lemma_at_its_place, lemma_insert_keeps_order, lemma_place_of, ordered, place_of,
    Key,
};
use crate::store::picking_laws::{
    law_a_category_has_its_own_lines, law_a_resource_has_its_own_lines,
    law_the_newest_read_is_the_last,
};
use crate::store::render::{
    balance_text, clock_of, figure_text, is_live_line, last_figure, lemma_last_figure, line_head,
    stale_text,
};
use crate::store::rows::{BalanceRowView, ResourceView, StoredBalanceView};
use crate::text::{lack, spaces, text_before};
use crate::wire::record::Staleness;
use vstd::prelude::*;

verus! {

/// The blanks that bring a text of this length to a width.
pub open spec fn blanks(length: nat, width: nat) -> Seq<char> {
    Seq::new(
        if length < width {
            (width - length) as nat
        } else {
            0
        },
        |i: int| ' ',
    )
}

/// A line's category and its figure, each in its column.
pub open spec fn columns(category: Seq<char>, figure: Seq<char>) -> Seq<char> {
    "  "@ + category + blanks(category.len(), 14) + " "@ + blanks(figure.len(), 14) + figure
}

proof fn lemma_blanks(s: Seq<char>, width: nat)
    ensures
        spaces(lack(s, width)) == blanks(s.len(), width),
{
    assert(spaces(lack(s, width)) =~= blanks(s.len(), width));
}

proof fn lemma_figure(category: Seq<char>, a: AmountView)
    ensures
        line_head(category) + figure_text(a) == columns(category, format_text(a.units, a.scale))
            + " "@ + a.asset,
{
    let text = format_text(a.units, a.scale);
    lemma_blanks(category, 14);
    lemma_blanks(text, 14);
    assert(line_head(category) + figure_text(a) =~= columns(category, text) + " "@ + a.asset);
}

/// Whether a line says of its figure that it is as of this time: the time that the
/// adapter gave with a stale outcome, or else when the host received it.
pub open spec fn dates(row: BalanceRowView, at: Seq<char>) -> bool {
    ||| row.outcome == "stale:"@ + at
    ||| at == row.received_at && forall|t: Seq<char>| row.outcome != #[trigger] ("stale:"@ + t)
}

/// The stale line of a figure.
pub open spec fn stale_line_of(
    category: Seq<char>,
    a: AmountView,
    row: BalanceRowView,
    at: Seq<char>,
) -> Seq<char> {
    columns(category, format_text(a.units, a.scale)) + " "@ + a.asset + "   stale (as of "@ + at
        + ") · "@ + row.provider_id + " · "@ + clock_of(row.received_at)
}

/// A category whose newest line has a figure reads live exactly if the adapter's
/// newest read wrote that line and the adapter called it live; otherwise it reads
/// stale. Either way it shows that line's own figure, to the last digit, with its
/// own asset, provider and time.
pub proof fn law_a_figure_is_shown_as_it_is(
    category: Seq<char>,
    lines: Seq<BalanceRowView>,
    a: AmountView,
    at: Seq<char>,
)
    requires
        lines.len() > 0,
        lines.last().amount == Some(a),
        dates(lines.last(), at),
    ensures
        balance_text(category, lines) == (if lines.last().from_latest_read
            && lines.last().staleness == Staleness::Live {
            columns(category, format_text(a.units, a.scale)) + " "@ + a.asset + "   live · "@
                + lines.last().provider_id + " · "@ + clock_of(lines.last().received_at)
        } else {
            stale_line_of(category, a, lines.last(), at)
        }),
{
    let row = lines.last();
    lemma_figure(category, a);
    lemma_stale(category, a, row, at);
    if row.from_latest_read && row.staleness == Staleness::Live {
        assert(is_live_line(row));
        assert(balance_text(category, lines) =~= columns(category, format_text(a.units, a.scale))
            + " "@ + a.asset + "   live · "@ + row.provider_id + " · "@ + clock_of(
            row.received_at,
        ));
    }
}

proof fn lemma_stale(category: Seq<char>, a: AmountView, row: BalanceRowView, at: Seq<char>)
    requires
        dates(row, at),
    ensures
        stale_text(category, a, row) == stale_line_of(category, a, row, at),
{
    lemma_figure(category, a);
    reveal_strlit("stale:");
    if row.outcome == "stale:"@ + at {
        assert(row.outcome.take(6) =~= "stale:"@);
        assert(row.outcome.skip(6) =~= at);
    } else if row.outcome.len() >= 6 && row.outcome.take(6) == "stale:"@ {
        assert(row.outcome =~= "stale:"@ + row.outcome.skip(6));
    }
    assert(stale_text(category, a, row) =~= stale_line_of(category, a, row, at));
}

/// What the adapter looked for and does not know reads unknown: no figure is shown,
/// neither a zero nor an older one.
pub proof fn law_an_unknown_amount_reads_unknown(category: Seq<char>, lines: Seq<BalanceRowView>)
    requires
        lines.len() > 0,
        lines.last().amount is None,
        lines.last().from_latest_read,
        lines.last().staleness == Staleness::Live,
    ensures
        balance_text(category, lines) == columns(category, "unknown"@) + "     unknown · "@
            + lines.last().provider_id + " · "@ + clock_of(lines.last().received_at),
{
    let row = lines.last();
    lemma_blanks(category, 14);
    lemma_blanks("unknown"@, 14);
    assert(balance_text(category, lines) =~= columns(category, "unknown"@) + "     unknown · "@
        + row.provider_id + " · "@ + clock_of(row.received_at));
}

/// A read that brought no figure erases none: the last figure that there was is
/// shown, stale, under the provider that it came from.
pub proof fn law_a_failed_read_shows_the_last_figure(
    category: Seq<char>,
    lines: Seq<BalanceRowView>,
    i: int,
    a: AmountView,
    at: Seq<char>,
)
    requires
        0 <= i < lines.len() - 1,
        lines[i].amount == Some(a),
        dates(lines[i], at),
        forall|k: int| i < k < lines.len() ==> (#[trigger] lines[k]).amount is None,
        !(lines.last().from_latest_read && lines.last().staleness == Staleness::Live),
    ensures
        balance_text(category, lines) == stale_line_of(category, a, lines[i], at),
{
    assert(lines[lines.len() - 1].amount is None);
    lemma_last_figure(lines, i);
    lemma_stale(category, a, lines[i], at);
}

/// Where there never was a figure, none is made up.
pub proof fn law_no_figure_is_made_up(category: Seq<char>, lines: Seq<BalanceRowView>)
    requires
        lines.len() > 0,
        forall|k: int| 0 <= k < lines.len() ==> (#[trigger] lines[k]).amount is None,
        !(lines.last().from_latest_read && lines.last().staleness == Staleness::Live),
    ensures
        balance_text(category, lines) == columns(category, "--"@) + "     unavailable · "@
            + lines.last().provider_id + " · "@ + clock_of(lines.last().received_at),
{
    let row = lines.last();
    assert(lines[lines.len() - 1].amount is None);
    lemma_no_figure(lines);
    lemma_blanks(category, 14);
    lemma_blanks("--"@, 14);
    assert(balance_text(category, lines) =~= columns(category, "--"@) + "     unavailable · "@
        + row.provider_id + " · "@ + clock_of(row.received_at));
}

proof fn lemma_no_figure(lines: Seq<BalanceRowView>)
    requires
        forall|k: int| 0 <= k < lines.len() ==> (#[trigger] lines[k]).amount is None,
    ensures
        last_figure(lines) is None,
    decreases lines.len(),
{
    if lines.len() > 0 {
        assert(lines[lines.len() - 1].amount is None);
        assert forall|k: int| 0 <= k < lines.drop_last().len() implies (
        #[trigger] lines.drop_last()[k]).amount is None by {
            assert(lines.drop_last()[k] == lines[k]);
        }
        lemma_no_figure(lines.drop_last());
    }
}

/// Whether these are the names of the lines' categories: each once, in order.
pub open spec fn names_categories(names: Seq<Seq<char>>, lines: Seq<BalanceRowView>) -> bool {
    &&& forall|i: int, j: int|
        0 <= i < j < names.len() ==> text_before(#[trigger] names[i], #[trigger] names[j])
    &&& forall|i: int| 0 <= i < lines.len() ==> names.contains((#[trigger] lines[i]).category)
    &&& forall|k: int|
        0 <= k < names.len() ==> exists|i: int|
            0 <= i < lines.len() && (#[trigger] lines[i]).category == #[trigger] names[k]
}

spec fn first_parts(keys: Seq<Key>) -> Seq<Seq<char>> {
    Seq::new(keys.len(), |i: int| keys[i].first)
}

proof fn lemma_categories(lines: Seq<BalanceRowView>)
    ensures
        ordered(categories(lines)),
        forall|k: int|
            0 <= k < categories(lines).len() ==> (#[trigger] categories(lines)[k]).second
                == Seq::<char>::empty(),
        names_categories(first_parts(categories(lines)), lines),
    decreases lines.len(),
{
    let keys = categories(lines);
    let names = first_parts(keys);
    if lines.len() > 0 {
        let front = lines.drop_last();
        let key = category_key(lines.last().category);
        let before = categories(front);
        let was = first_parts(before);
        lemma_categories(front);
        lemma_place_of(before, key);
        let p = place_of(before, key) as int;
        if p < before.len() && before[p] == key {
            assert(names == was);
            assert(was[p] == lines.last().category);
        } else {
            if before.contains(key) {
                let at = choose|at: int| 0 <= at < before.len() && before[at] == key;
                lemma_at_its_place(before, key, at);
            }
            lemma_insert_keeps_order(before, key);
            assert(names =~= was.insert(p, lines.last().category));
            assert(names[p] == lines.last().category);
        }
        assert forall|i: int| 0 <= i < lines.len() implies names.contains(
            (#[trigger] lines[i]).category,
        ) by {
            if i < front.len() {
                assert(was.contains(front[i].category));
                let k = choose|k: int| 0 <= k < was.len() && was[k] == front[i].category;
                if names != was {
                    assert(names[if k < p {
                        k
                    } else {
                        k + 1
                    }] == was[k]);
                }
            }
        }
        assert forall|k: int| 0 <= k < names.len() implies exists|i: int|
            0 <= i < lines.len() && (#[trigger] lines[i]).category == #[trigger] names[k] by {
            if names != was && k == p {
                assert(lines[lines.len() - 1].category == names[k]);
            } else {
                let j = if names == was || k < p {
                    k
                } else {
                    k - 1
                };
                assert(names[k] == was[j]);
                let i = choose|i: int|
                    0 <= i < front.len() && (#[trigger] front[i]).category == was[j];
                assert(lines[i].category == names[k]);
            }
        }
    }
    assert forall|i: int, j: int| 0 <= i < j < names.len() implies text_before(
        #[trigger] names[i],
        #[trigger] names[j],
    ) by {
        assert(key_before(keys[i], keys[j]));
        crate::text::lemma_text_order(Seq::empty(), Seq::empty(), Seq::empty());
    }
}

/// What a resource prints: under a heading that names it, one line for each category
/// that was ever reported, in order, each made of the lines of that category alone.
pub proof fn law_every_category_prints_once(s: StoreView, row: ResourceView)
    ensures
        ({
            let block = balances_block(s, row);
            let lines = s.balance_lines(row.adapter_id, row.resource_id);
            &&& block.len() > 1
            &&& block[0] == row.adapter_id + "/"@ + row.resource_id + "  "@ + row.label
            &&& lines.len() == 0 ==> block.len() == 2 && block[1]
                == "  (no balance has ever been read)"@
            &&& lines.len() > 0 ==> exists|names: Seq<Seq<char>>|
                {
                    &&& #[trigger] names_categories(names, lines)
                    &&& block.len() == names.len() + 1
                    &&& forall|k: int|
                        0 <= k < names.len() ==> block[k + 1] == balance_text(
                            #[trigger] names[k],
                            lines.filter(|l: BalanceRowView| l.category == names[k]),
                        )
                }
        }),
{
    let block = balances_block(s, row);
    let lines = s.balance_lines(row.adapter_id, row.resource_id);
    let keys = categories(lines);
    let names = first_parts(keys);
    lemma_categories(lines);
    if lines.len() > 0 {
        assert(names.contains(lines[0].category));
        assert forall|k: int| 0 <= k < names.len() implies block[k + 1] == balance_text(
            #[trigger] names[k],
            lines.filter(|l: BalanceRowView| l.category == names[k]),
        ) by {
            law_a_category_has_its_own_lines(lines, names[k]);
        }
        assert(names_categories(names, lines));
    }
}

/// What is printed of several resources is what is printed of each, one after the
/// other.
pub proof fn law_balances_print_resource_by_resource(
    s: StoreView,
    rows: Seq<ResourceView>,
    row: ResourceView,
)
    ensures
        balances_texts(s, Seq::empty()).len() == 0,
        balances_texts(s, rows.push(row)) == balances_texts(s, rows) + balances_block(s, row),
{
    assert(rows.push(row).drop_last() =~= rows);
}

proof fn lemma_block_is_printed(s: StoreView, rows: Seq<ResourceView>, i: int, line: Seq<char>)
    requires
        0 <= i < rows.len(),
        balances_block(s, rows[i]).contains(line),
    ensures
        balances_texts(s, rows).contains(line),
    decreases rows.len(),
{
    let (a, b) = (balances_texts(s, rows.drop_last()), balances_block(s, rows.last()));
    if i < rows.len() - 1 {
        lemma_block_is_printed(s, rows.drop_last(), i, line);
        let k = choose|k: int| 0 <= k < a.len() && a[k] == line;
        assert((a + b)[k] == line);
    } else {
        let k = choose|k: int| 0 <= k < b.len() && b[k] == line;
        assert((a + b)[a.len() + k] == line);
    }
}

/// The last item that a filter keeps.
proof fn lemma_filter_last<T>(all: Seq<T>, keep: spec_fn(T) -> bool, j: int)
    requires
        0 <= j < all.len(),
        keep(all[j]),
        forall|k: int| j < k < all.len() ==> !keep(#[trigger] all[k]),
    ensures
        all.filter(keep).len() > 0,
        all.filter(keep).last() == all[j],
    decreases all.len(),
{
    reveal(Seq::filter);
    if j < all.len() - 1 {
        assert(!keep(all[all.len() - 1]));
        lemma_filter_last(all.drop_last(), keep, j);
    }
}

/// Filtering twice is filtering by both, through what is made of each item.
proof fn lemma_filter_mapped<T, U>(
    all: Seq<T>,
    keep: spec_fn(T) -> bool,
    made: spec_fn(T) -> U,
    pick: spec_fn(U) -> bool,
)
    ensures
        all.filter(keep).map_values(made).filter(pick) == all.filter(
            |t: T| keep(t) && pick(made(t)),
        ).map_values(made),
    decreases all.len(),
{
    reveal(Seq::filter);
    let both = |t: T| keep(t) && pick(made(t));
    if all.len() == 0 {
        assert(all.filter(keep).map_values(made) =~= Seq::<U>::empty());
        assert(all.filter(both).map_values(made) =~= Seq::<U>::empty());
    } else {
        let front = all.drop_last();
        let l = all.last();
        lemma_filter_mapped(front, keep, made, pick);
        if keep(l) {
            let was = front.filter(keep).map_values(made);
            let now = all.filter(keep).map_values(made);
            assert(now =~= was.push(made(l)));
            assert(now.drop_last() =~= was);
            if pick(made(l)) {
                assert(front.filter(both).push(l).map_values(made) =~= front.filter(
                    both,
                ).map_values(made).push(made(l)));
            }
        }
    }
}

/// The figure of the newest line of a category is what its resource prints for that
/// category, live if the newest read of the adapter wrote the line and the adapter
/// called it live: whatever stands in other categories, in other resources and in
/// older lines.
pub proof fn law_the_newest_figure_of_a_category_is_printed(
    s: StoreView,
    r: int,
    j: int,
    n: int,
    a: AmountView,
)
    requires
        0 <= r < s.resources.len(),
        0 <= j < s.balances.len(),
        0 <= n < s.reads.len(),
        s.balances[j].adapter_id == s.resources[r].adapter_id,
        s.balances[j].balance.resource_id == s.resources[r].resource_id,
        s.balances[j].balance.amount == Some(a),
        s.balances[j].balance.provenance.staleness == Staleness::Live,
        s.balances[j].read_id == s.reads[n].read_id,
        s.reads[n].adapter_id == s.resources[r].adapter_id,
        forall|k: int|
            n < k < s.reads.len() ==> (#[trigger] s.reads[k]).adapter_id
                != s.resources[r].adapter_id,
        forall|k: int|
            j < k < s.balances.len() ==> (#[trigger] s.balances[k]).adapter_id
                != s.resources[r].adapter_id || s.balances[k].balance.resource_id
                != s.resources[r].resource_id || s.balances[k].balance.category
                != s.balances[j].balance.category,
    ensures
        balances_texts(s, s.resources).contains(
            columns(s.balances[j].balance.category, format_text(a.units, a.scale)) + " "@ + a.asset
                + "   live · "@ + s.balances[j].balance.provenance.provider_id + " · "@ + clock_of(
                s.balances[j].balance.provenance.received_at,
            ),
        ),
{
    let row = s.resources[r];
    let stored = s.balances[j];
    let category = stored.balance.category;
    let (own, resource) = (row.adapter_id, row.resource_id);
    law_the_newest_read_is_the_last(s.reads, own, n);
    let latest = s.latest_read(own);
    law_a_resource_has_its_own_lines(s.balances, own, resource, latest);
    let mine = |b: StoredBalanceView| b.adapter_id == own && b.balance.resource_id == resource;
    let said = |r: StoredBalanceView|
        BalanceRowView {
            balance_id: r.balance_id,
            adapter_id: r.adapter_id,
            resource_id: r.balance.resource_id,
            category: r.balance.category,
            canonical_hint: r.balance.canonical_hint,
            amount: r.balance.amount,
            provider_id: r.balance.provenance.provider_id,
            received_at: r.balance.provenance.received_at,
            staleness: r.balance.provenance.staleness,
            outcome: r.outcome,
            from_latest_read: latest == Some(r.read_id),
        };
    let pick = |l: BalanceRowView| l.category == category;
    let lines = s.balance_lines(own, resource);
    assert(lines == s.balances.filter(mine).map_values(said));
    lemma_filter_mapped(s.balances, mine, said, pick);
    let both = |t: StoredBalanceView| mine(t) && pick(said(t));
    lemma_filter_last(s.balances, both, j);
    let picked = lines.filter(pick);
    assert(picked == s.balances.filter(both).map_values(said));
    assert(picked.last() == said(stored));
    // The line is there, so its category is listed.
    if lines.len() == 0 {
        reveal(Seq::filter);
    }
    law_every_category_prints_once(s, row);
    let block = balances_block(s, row);
    let names = choose|names: Seq<Seq<char>>|
        {
            &&& #[trigger] names_categories(names, lines)
            &&& block.len() == names.len() + 1
            &&& forall|k: int|
                0 <= k < names.len() ==> block[k + 1] == balance_text(
                    #[trigger] names[k],
                    lines.filter(|l: BalanceRowView| l.category == names[k]),
                )
        };
    lemma_filtered_is_there(lines, pick, said(stored));
    let i = choose|i: int| 0 <= i < lines.len() && lines[i] == said(stored);
    assert(names.contains(lines[i].category));
    let k = choose|k: int| 0 <= k < names.len() && names[k] == category;
    assert(block[k + 1] == balance_text(names[k], lines.filter(|l: BalanceRowView| l.category == names[k])));
    assert(lines.filter(|l: BalanceRowView| l.category == names[k]) == picked) by {
        assert((|l: BalanceRowView| l.category == names[k]) =~= pick);
    }
    let at = if exists|t: Seq<char>| stored.outcome == #[trigger] ("stale:"@ + t) {
        choose|t: Seq<char>| stored.outcome == #[trigger] ("stale:"@ + t)
    } else {
        stored.balance.provenance.received_at
    };
    law_a_figure_is_shown_as_it_is(category, picked, a, at);
    lemma_block_is_printed(s, s.resources, r, block[k + 1]);
}

pub proof fn lemma_filtered_is_there<T>(all: Seq<T>, keep: spec_fn(T) -> bool, x: T)
    requires
        all.filter(keep).contains(x),
    ensures
        all.contains(x),
    decreases all.len(),
{
    reveal(Seq::filter);
    if all.len() > 0 {
        let front = all.drop_last();
        let i = choose|i: int| 0 <= i < all.filter(keep).len() && all.filter(keep)[i] == x;
        if i < front.filter(keep).len() {
            assert(front.filter(keep)[i] == x);
            lemma_filtered_is_there(front, keep, x);
            let k = choose|k: int| 0 <= k < front.len() && front[k] == x;
            assert(all[k] == x);
        } else {
            assert(all[all.len() - 1] == x);
        }
    }
}

} // verus!
