//! What the user is shown of one record: every revision that is stored of it, every
//! retraction that is, and nothing of another record.

use crate::money::amount::format_text;
use crate::money::numeral::lemma_decimal;
use crate::store::balances_laws::blanks;
use crate::store::commands::{record_texts, show_block, show_blocks};
use crate::store::history_laws::called;
use crate::store::model::StoreView;
use crate::store::picking_laws::{
    law_a_record_has_its_own_retractions, law_a_record_has_its_own_rows,
};
use crate::store::render::{
    comes_behind, entries_of, entry_place, in_order, law_a_history_is_shown_in_order,
    lemma_entry_place, retraction_text, revision_text, show_texts, EntryView,
};
use crate::store::rows::{AdapterView, RetractionView, StoredView};
use crate::store::tables::{retractions_of, rows_of};
use crate::text::{debug_text, decimal, lack, signed_decimal, slice_of, spaces};
use vstd::prelude::*;
use vstd::utf8::{
    encode_utf8, encode_utf8_decode_utf8, is_ascii_chars, is_ascii_chars_encode_utf8,
};

verus! {

/// The line of a stored revision: its number, what it is worth, how far it had come, who
/// saw it when, and the first twelve characters of its hash.
pub open spec fn revision_line_of(row: StoredView) -> Seq<char> {
    let o = row.observation;
    let figure = format_text(o.amount.units, o.amount.scale);
    "  r"@ + decimal(row.revision) + "  observation  "@ + blanks(figure.len(), 16) + figure + " "@
        + o.amount.asset + "  "@ + called(o) + "  crawl "@ + signed_decimal(row.crawl_id) + " · "@
        + o.provenance.provider_id + " · received "@ + o.provenance.received_at + " · content "@
        + (if row.content_hash.len() > 12 {
        row.content_hash.take(12)
    } else {
        row.content_hash
    })
}

/// The line of a stored retraction: at which revision, why, by whom and when.
pub open spec fn retraction_line_of(row: RetractionView) -> Seq<char> {
    "  r"@ + decimal(row.revision) + "  RETRACTED    "@ + row.reason + "  crawl "@
        + signed_decimal(row.crawl_id) + " · at "@ + row.retracted_at
}

proof fn lemma_first_twelve(hash: Seq<char>)
    requires
        is_ascii_chars(hash),
    ensures
        slice_of(hash, 0, 12) == (if hash.len() >= 12 {
            Some(hash.take(12))
        } else {
            None
        }),
{
    let b = encode_utf8(hash);
    is_ascii_chars_encode_utf8(hash);
    vstd::utf8::encode_utf8_valid_utf8(hash);
    if hash.len() >= 12 {
        let head = hash.take(12);
        assert(is_ascii_chars(head)) by {
            assert forall|i: int| 0 <= i < head.len() implies '\0' <= #[trigger] head[i]
                <= '\u{7f}' by {
                assert(head[i] == hash[i]);
            }
        }
        is_ascii_chars_encode_utf8(head);
        assert(encode_utf8(head) =~= b.subrange(0, 12)) by {
            assert forall|i: int| 0 <= i < 12 implies encode_utf8(head)[i] == b[i] by {
                assert(head[i] == hash[i]);
            }
        }
        encode_utf8_decode_utf8(head);
        assert forall|k: int| 0 <= k < 12 implies (#[trigger] b[k]) < 128 by {
            assert('\0' <= hash[k] <= '\u{7f}');
        }
        crate::store::render::lemma_ascii_boundary(b, 0);
        crate::store::render::lemma_ascii_boundary(b, 12);
    }
}

/// A stored revision is shown as it is. A hash is written in ASCII.
pub proof fn law_a_revision_is_shown_as_it_is(row: StoredView)
    requires
        is_ascii_chars(row.content_hash),
    ensures
        revision_text(row) == revision_line_of(row),
{
    let o = row.observation;
    let figure = format_text(o.amount.units, o.amount.scale);
    assert(spaces(lack(figure, 16)) =~= blanks(figure.len(), 16));
    lemma_first_twelve(row.content_hash);
    if row.content_hash.len() == 12 {
        assert(row.content_hash.take(12) =~= row.content_hash);
    }
}

/// A stored retraction is shown as it is.
pub proof fn law_a_retraction_is_shown_as_it_is(row: RetractionView)
    ensures
        retraction_text(row) == retraction_line_of(row),
{
}

/// No revision reads as a retraction, of whatever record.
pub proof fn law_a_revision_never_reads_as_a_retraction(row: StoredView, r: RetractionView)
    requires
        is_ascii_chars(row.content_hash),
    ensures
        revision_text(row) != retraction_text(r),
{
    law_a_revision_is_shown_as_it_is(row);
    let (x, y) = (revision_line_of(row), retraction_line_of(r));
    let (d, e) = (decimal(row.revision), decimal(r.revision));
    lemma_decimal(row.revision);
    lemma_decimal(r.revision);
    reveal_strlit("  r");
    reveal_strlit("  observation  ");
    reveal_strlit("  RETRACTED    ");
    assert(x.take((3 + d.len() + 15) as int) =~= "  r"@ + d + "  observation  "@);
    assert(y.take((3 + e.len() + 15) as int) =~= "  r"@ + e + "  RETRACTED    "@);
    if x == y {
        let m: int = if d.len() < e.len() {
            d.len() as int
        } else {
            e.len() as int
        };
        let (p, q) = ("  r"@ + d + "  observation  "@, "  r"@ + e + "  RETRACTED    "@);
        assert(x[3 + m] == p[3 + m]);
        assert(y[3 + m] == q[3 + m]);
        if d.len() < e.len() {
            assert(p[3 + m] == ' ');
            assert(q[3 + m] == e[m]);
        } else if e.len() < d.len() {
            assert(q[3 + m] == ' ');
            assert(p[3 + m] == d[m]);
        } else {
            assert(x[5 + m] == p[5 + m] && p[5 + m] == 'o');
            assert(y[5 + m] == q[5 + m] && q[5 + m] == 'R');
        }
    }
}

/// The lines of a record come by revision, and at one revision the observation comes
/// before the retractions.
pub proof fn law_a_record_is_shown_by_revision(
    chain: Seq<StoredView>,
    retractions: Seq<RetractionView>,
)
    ensures
        ({
            let entries = in_order(entries_of(chain, retractions));
            &&& show_texts(chain, retractions) == entries.map_values(|e: EntryView| e.text)
            &&& entries.to_multiset() == (chain.map_values(
                |row: StoredView|
                    EntryView {
                        revision: row.revision,
                        retraction: false,
                        text: revision_text(row),
                    },
            ) + retractions.map_values(
                |row: RetractionView|
                    EntryView {
                        revision: row.revision,
                        retraction: true,
                        text: retraction_text(row),
                    },
            )).to_multiset()
            &&& forall|i: int, j: int|
                0 <= i < j < entries.len() ==> (#[trigger] entries[i]).revision < (
                #[trigger] entries[j]).revision || entries[i].revision == entries[j].revision && (
                entries[j].retraction || !entries[i].retraction)
        }),
{
    let all = entries_of(chain, retractions);
    law_a_history_is_shown_in_order(all);
    assert(all =~= chain.map_values(
        |row: StoredView|
            EntryView { revision: row.revision, retraction: false, text: revision_text(row) },
    ) + retractions.map_values(
        |row: RetractionView|
            EntryView { revision: row.revision, retraction: true, text: retraction_text(row) },
    ));
    assert(show_texts(chain, retractions) =~= in_order(all).map_values(|e: EntryView| e.text));
}

/// Lines that belong at one place stay in the order in which they are stored.
pub proof fn law_lines_at_one_place_stay_in_order(
    entries: Seq<EntryView>,
    revision: nat,
    retraction: bool,
)
    ensures
        in_order(entries).filter(
            |e: EntryView| e.revision == revision && e.retraction == retraction,
        ) == entries.filter(|e: EntryView| e.revision == revision && e.retraction == retraction),
    decreases entries.len(),
{
    reveal(Seq::filter);
    let here = |e: EntryView| e.revision == revision && e.retraction == retraction;
    if entries.len() > 0 {
        let front = entries.drop_last();
        let new = entries.last();
        law_lines_at_one_place_stay_in_order(front, revision, retraction);
        law_a_history_is_shown_in_order(front);
        let before = in_order(front);
        lemma_entry_place(before, new);
        let p = entry_place(before, new) as int;
        let (a, b) = (before.take(p), before.skip(p));
        let now = in_order(entries);
        assert(before =~= a + b);
        assert(now =~= a.push(new) + b);
        Seq::filter_distributes_over_add(a, b, here);
        Seq::filter_distributes_over_add(a.push(new), b, here);
        assert(a.push(new).drop_last() =~= a);
        if here(new) {
            assert forall|k: int| 0 <= k < b.len() implies !here(#[trigger] b[k]) by {
                assert(b[k] == before[p + k]);
                assert(comes_behind(before[p], new));
                if k > 0 {
                    assert(!comes_behind(before[p], before[p + k]));
                }
            }
            lemma_none_here(b, here);
            assert(b.filter(here).len() == 0);
            assert(a.filter(here).push(new) + b.filter(here) =~= (a.filter(here) + b.filter(
                here,
            )).push(new));
        }
    }
}

proof fn lemma_none_here(rows: Seq<EntryView>, here: spec_fn(EntryView) -> bool)
    requires
        forall|k: int| 0 <= k < rows.len() ==> !here(#[trigger] rows[k]),
    ensures
        rows.filter(here).len() == 0,
    decreases rows.len(),
{
    reveal(Seq::filter);
    if rows.len() > 0 {
        let front = rows.drop_last();
        assert forall|k: int| 0 <= k < front.len() implies !here(#[trigger] front[k]) by {
            assert(front[k] == rows[k]);
        }
        assert(!here(rows[rows.len() - 1]));
        lemma_none_here(front, here);
    }
}

/// A record that was stored is shown under its name with its own revisions and its own
/// retractions, each once, and with no line besides. One that was not is not shown.
pub proof fn law_a_record_is_shown_with_its_own_lines(
    s: StoreView,
    adapter_id: Seq<char>,
    local_id: Seq<char>,
)
    ensures
        ({
            let rows = s.observations.filter(
                |r: StoredView|
                    r.adapter_id == adapter_id && r.observation.local_id == local_id,
            );
            let gone = s.retractions.filter(
                |r: RetractionView| r.adapter_id == adapter_id && r.local_id == local_id,
            );
            let block = show_block(s, adapter_id, local_id);
            &&& rows.len() == 0 ==> block.len() == 0
            &&& rows.len() > 0 ==> {
                &&& block.len() == 1 + rows.len() + gone.len()
                &&& block[0] == adapter_id + "/"@ + local_id
                &&& block.skip(1) == show_texts(rows, gone)
                &&& block.skip(1).to_multiset() == (rows.map_values(
                    |r: StoredView| revision_text(r),
                ) + gone.map_values(|r: RetractionView| retraction_text(r))).to_multiset()
            }
        }),
{
    law_a_record_has_its_own_rows(s.observations, adapter_id, local_id);
    law_a_record_has_its_own_retractions(s.retractions, adapter_id, local_id);
    let rows = rows_of(s.observations, adapter_id, Some(local_id));
    let gone = retractions_of(s.retractions, adapter_id, local_id);
    let block = show_block(s, adapter_id, local_id);
    if rows.len() > 0 {
        let all = entries_of(rows, gone);
        law_a_history_is_shown_in_order(all);
        assert(block.skip(1) =~= show_texts(rows, gone));
        let text = |e: EntryView| e.text;
        lemma_same_texts(in_order(all), all);
        assert(show_texts(rows, gone) =~= in_order(all).map_values(text));
        assert(all.map_values(text) =~= rows.map_values(|r: StoredView| revision_text(r))
            + gone.map_values(|r: RetractionView| retraction_text(r)));
    }
}

/// The same entries have the same texts, in whatever order.
proof fn lemma_same_texts(a: Seq<EntryView>, b: Seq<EntryView>)
    requires
        a.to_multiset() == b.to_multiset(),
    ensures
        a.map_values(|e: EntryView| e.text).to_multiset() == b.map_values(
            |e: EntryView| e.text,
        ).to_multiset(),
    decreases a.len(),
{
    let text = |e: EntryView| e.text;
    a.to_multiset_ensures();
    b.to_multiset_ensures();
    if a.len() > 0 {
        let x = a.last();
        assert(a.to_multiset().count(x) > 0) by {
            assert(a[a.len() - 1] == x);
            assert(a.contains(x));
        }
        assert(b.contains(x));
        let k = choose|k: int| 0 <= k < b.len() && b[k] == x;
        let (c, d) = (a.drop_last(), b.remove(k));
        assert(a =~= c.push(x));
        vstd::seq_lib::to_multiset_build(c, x);
        b.to_multiset_ensures();
        assert(d.to_multiset() =~= b.to_multiset().remove(x));
        assert(c.to_multiset() =~= a.to_multiset().remove(x));
        lemma_same_texts(c, d);
        assert(a.map_values(text) =~= c.map_values(text).push(x.text));
        vstd::seq_lib::to_multiset_build(c.map_values(text), x.text);
        assert(b.map_values(text) =~= d.map_values(text).insert(k, x.text));
        vstd::seq_lib::to_multiset_insert(d.map_values(text), k, x.text);
    } else {
        assert(b.len() == 0);
        assert(a =~= b);
    }
}

/// A record without a retraction of its own is shown without one: none of its lines reads
/// as a retraction, whatever is stored of other records.
pub proof fn law_a_record_never_retracted_shows_none(
    s: StoreView,
    adapter_id: Seq<char>,
    local_id: Seq<char>,
    k: int,
    r: RetractionView,
)
    requires
        forall|i: int|
            0 <= i < s.observations.len() ==> is_ascii_chars(
                (#[trigger] s.observations[i]).content_hash,
            ),
        forall|i: int|
            0 <= i < s.retractions.len() ==> !((#[trigger] s.retractions[i]).adapter_id
                == adapter_id && s.retractions[i].local_id == local_id),
        1 <= k < show_block(s, adapter_id, local_id).len(),
    ensures
        show_block(s, adapter_id, local_id)[k] != retraction_text(r),
{
    let block = show_block(s, adapter_id, local_id);
    let own = |x: StoredView| x.adapter_id == adapter_id && x.observation.local_id == local_id;
    let its = |x: RetractionView| x.adapter_id == adapter_id && x.local_id == local_id;
    let rows = s.observations.filter(own);
    let gone = s.retractions.filter(its);
    law_a_record_is_shown_with_its_own_lines(s, adapter_id, local_id);
    if gone.len() > 0 {
        s.retractions.lemma_filter_pred(its, 0);
        assert(gone.contains(gone[0]));
        crate::store::balances_laws::lemma_filtered_is_there(s.retractions, its, gone[0]);
    }
    let texts = rows.map_values(|x: StoredView| revision_text(x));
    assert(texts + gone.map_values(|x: RetractionView| retraction_text(x)) =~= texts);
    let line = block[k];
    assert(block.skip(1)[k - 1] == line);
    assert(block.skip(1).contains(line));
    block.skip(1).to_multiset_ensures();
    texts.to_multiset_ensures();
    assert(rows.len() > 0);
    assert(block.skip(1).to_multiset() =~= texts.to_multiset());
    assert(block.skip(1).to_multiset().count(line) > 0);
    assert(texts.contains(line));
    let i = choose|i: int| 0 <= i < texts.len() && texts[i] == line;
    assert(rows.contains(rows[i]));
    crate::store::balances_laws::lemma_filtered_is_there(s.observations, own, rows[i]);
    let j = choose|j: int| 0 <= j < s.observations.len() && s.observations[j] == rows[i];
    assert(is_ascii_chars(s.observations[j].content_hash));
    law_a_revision_never_reads_as_a_retraction(rows[i], r);
}

/// A record is looked for under every connected adapter, in their order. Where there is
/// none, the user is told so.
pub proof fn law_a_record_is_looked_for_everywhere(
    s: StoreView,
    rows: Seq<AdapterView>,
    row: AdapterView,
    local_id: Seq<char>,
)
    ensures
        show_blocks(s, Seq::empty(), local_id).len() == 0,
        show_blocks(s, rows.push(row), local_id) == show_blocks(s, rows, local_id) + show_block(
            s,
            row.adapter_id,
            local_id,
        ),
        show_blocks(s, s.adapters, local_id).len() > 0 ==> record_texts(s, local_id) == show_blocks(
            s,
            s.adapters,
            local_id,
        ),
        show_blocks(s, s.adapters, local_id).len() == 0 ==> record_texts(s, local_id) == seq![
            "no record "@ + debug_text(local_id) + " in this profile"@,
        ],
{
    assert(rows.push(row).drop_last() =~= rows);
}

} // verus!
