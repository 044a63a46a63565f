//! What the user reads of records: which are live, and what the line of each says.

use crate::money::amount::format_text;
use crate::store::balances_laws::blanks;
use crate::store::commands::{history_block, history_texts};
use crate::store::live::{
    law_the_listing_is_the_live_set, live_entry, live_keys, live_listing, LiveView,
};
use crate::store::model::StoreView;
use crate::store::order::{key_before, Key};
use crate::store::picking_laws::law_the_mark_is_the_highest_of_its_own;
use crate::store::render::history_text;
use crate::store::rows::ResourceView;
use crate::text::{decimal, lack, spaces, text_before};
use crate::wire::record::{ObservationState, ObservationView, Posting, Staleness};
use vstd::prelude::*;

verus! {

/// A record is live in a resource exactly if its chain ends in an active observation
/// of that resource, and none of its own retractions is at a revision as high as the
/// number of its arrivals. What is live of it is what its chain ends with.
pub proof fn law_what_is_live(
    s: StoreView,
    adapter_id: Seq<char>,
    resource_id: Seq<char>,
    local_id: Seq<char>,
)
    ensures
        ({
            let chain = s.chain(adapter_id, local_id);
            let stands = chain.len() > 0 && chain.last().observation.state
                == ObservationState::Active && chain.last().observation.resource_id == resource_id
                && forall|i: int|
                0 <= i < s.retractions.len() && (#[trigger] s.retractions[i]).adapter_id
                    == adapter_id && s.retractions[i].local_id == local_id
                    ==> s.retractions[i].revision < chain.len();
            live_entry(s, adapter_id, resource_id, local_id) == (if stands {
                Some(
                    LiveView {
                        local_id,
                        revision: chain.len(),
                        observation: chain.last().observation,
                    },
                )
            } else {
                None
            })
        }),
{
    law_the_mark_is_the_highest_of_its_own(s.retractions, adapter_id, local_id);
}

/// The listing of a resource's live records is in the bytewise order of their ids, and
/// has every one of them once.
pub proof fn law_live_records_are_listed_in_order(
    s: StoreView,
    adapter_id: Seq<char>,
    resource_id: Seq<char>,
)
    ensures
        ({
            let live = live_listing(s, adapter_id, resource_id);
            &&& forall|i: int, j: int|
                0 <= i < j < live.len() ==> text_before(
                    (#[trigger] live[i]).local_id,
                    (#[trigger] live[j]).local_id,
                )
            &&& forall|l: LiveView|
                #[trigger] live.contains(l) <==> live_entry(
                    s,
                    adapter_id,
                    resource_id,
                    l.local_id,
                ) == Some(l)
        }),
{
    let live = live_listing(s, adapter_id, resource_id);
    let keys = live_keys(adapter_id, live);
    law_the_listing_is_the_live_set(s, adapter_id, resource_id);
    assert forall|i: int, j: int| 0 <= i < j < live.len() implies text_before(
        (#[trigger] live[i]).local_id,
        (#[trigger] live[j]).local_id,
    ) by {
        assert(key_before(keys[i], keys[j]));
        crate::text::lemma_text_order(adapter_id, adapter_id, adapter_id);
    }
    assert forall|l: LiveView|
        #[trigger] live.contains(l) <==> live_entry(s, adapter_id, resource_id, l.local_id) == Some(
            l,
        ) by {
        if live.contains(l) {
            let i = choose|i: int| 0 <= i < live.len() && live[i] == l;
            assert(live_entry(s, adapter_id, resource_id, live[i].local_id) == Some(live[i]));
        }
        if live_entry(s, adapter_id, resource_id, l.local_id) == Some(l) {
            let key = Key { first: adapter_id, second: l.local_id };
            assert(keys.contains(key));
            let i = choose|i: int| 0 <= i < keys.len() && keys[i] == key;
            assert(live[i].local_id == l.local_id);
            assert(live_entry(s, adapter_id, resource_id, live[i].local_id) == Some(live[i]));
            assert(live[i] == l);
        }
    }
}

/// What a record is called on its line.
pub open spec fn called(o: ObservationView) -> Seq<char> {
    match (o.state, o.posting) {
        (ObservationState::Tombstoned, _) => "tombstoned"@,
        (_, Posting::Pending) => "pending"@,
        (_, Posting::Posted) => "posted"@,
        (_, Posting::Unknown) => "unknown"@,
    }
}

/// The word for how current a record is.
pub open spec fn currency(o: ObservationView) -> Seq<char> {
    match o.provenance.staleness {
        Staleness::Live => "live"@,
        Staleness::Cached => "cached"@,
        Staleness::Unavailable => "unavailable"@,
    }
}

/// The line of a live record says what it is worth, to the last digit; whether it is
/// pending, posted or unknown; what it is; how current it is; and whose word it is.
pub proof fn law_a_live_record_says_what_it_is(
    local_id: Seq<char>,
    revision: nat,
    o: ObservationView,
)
    ensures
        ({
            let figure = format_text(o.amount.units, o.amount.scale);
            history_text(local_id, revision, o) == "  "@ + local_id + "  r"@ + decimal(revision)
                + "  "@ + blanks(figure.len(), 16) + figure + " "@ + o.amount.asset + "  "@
                + called(o) + "  "@ + o.description + "  "@ + currency(o) + " · "@
                + o.provenance.provider_id
        }),
{
    let figure = format_text(o.amount.units, o.amount.scale);
    assert(spaces(lack(figure, 16)) =~= blanks(figure.len(), 16));
}

/// What stands between two texts is told by the whole.
proof fn lemma_between(a: Seq<char>, x: Seq<char>, y: Seq<char>, b: Seq<char>)
    requires
        a + x + b == a + y + b,
    ensures
        x == y,
{
    let p = a + x + b;
    let q = a + y + b;
    assert(p.len() == a.len() + x.len() + b.len());
    assert(q.len() == a.len() + y.len() + b.len());
    assert(p.subrange(a.len() as int, (a.len() + x.len()) as int) =~= x);
    assert(q.subrange(a.len() as int, (a.len() + y.len()) as int) =~= y);
}

/// Records that differ in nothing but how far they have come never print the same: a
/// pending one never reads as a posted one, nor either as one of which nothing is known.
pub proof fn law_postings_are_told_apart(
    local_id: Seq<char>,
    revision: nat,
    o: ObservationView,
    other: Posting,
)
    requires
        o.state == ObservationState::Active,
        o.posting != other,
    ensures
        history_text(local_id, revision, o) != history_text(
            local_id,
            revision,
            ObservationView { posting: other, ..o },
        ),
{
    let p = ObservationView { posting: other, ..o };
    reveal_strlit("pending");
    reveal_strlit("posted");
    reveal_strlit("unknown");
    assert("pending"@[1] != "posted"@[1]);
    assert("unknown"@[0] != "pending"@[0] && "unknown"@[0] != "posted"@[0]);
    let (x, y) = (history_text(local_id, revision, o), history_text(local_id, revision, p));
    law_a_live_record_says_what_it_is(local_id, revision, o);
    law_a_live_record_says_what_it_is(local_id, revision, p);
    let figure = format_text(o.amount.units, o.amount.scale);
    let a = "  "@ + local_id + "  r"@ + decimal(revision) + "  "@ + blanks(figure.len(), 16)
        + figure + " "@ + o.amount.asset + "  "@;
    let b = "  "@ + o.description + "  "@ + currency(o) + " · "@ + o.provenance.provider_id;
    assert(x =~= a + called(o) + b);
    assert(y =~= a + called(p) + b);
    if x == y {
        lemma_between(a, called(o), called(p), b);
    }
}

/// What a resource's live records print: a heading that names it, and one line for
/// each live record, in order; without one, that there is none.
pub proof fn law_every_live_record_prints_once(s: StoreView, row: ResourceView)
    ensures
        ({
            let block = history_block(s, row);
            let live = live_listing(s, row.adapter_id, row.resource_id);
            &&& block.len() > 1
            &&& block[0] == row.adapter_id + "/"@ + row.resource_id + "  "@ + row.label
            &&& live.len() == 0 ==> block.len() == 2 && block[1] == "  (nothing live)"@
            &&& live.len() > 0 ==> block.len() == live.len() + 1 && forall|i: int|
                0 <= i < live.len() ==> block[i + 1] == history_text(
                    (#[trigger] live[i]).local_id,
                    live[i].revision,
                    live[i].observation,
                )
        }),
{
}

/// Resources are printed one after the other. Where one is asked for, only those under
/// its id are.
pub proof fn law_history_prints_resource_by_resource(
    s: StoreView,
    rows: Seq<ResourceView>,
    row: ResourceView,
    resource_id: Seq<char>,
)
    ensures
        history_texts(s, Seq::empty(), None).len() == 0,
        history_texts(s, rows.push(row), None) == history_texts(s, rows, None) + history_block(
            s,
            row,
        ),
        history_texts(s, rows, Some(resource_id)) == history_texts(
            s,
            rows.filter(|r: ResourceView| r.resource_id == resource_id),
            None,
        ),
    decreases rows.len(),
{
    reveal(Seq::filter);
    assert(rows.push(row).drop_last() =~= rows);
    let mine = |r: ResourceView| r.resource_id == resource_id;
    if rows.len() > 0 {
        let front = rows.drop_last();
        law_history_prints_resource_by_resource(s, front, row, resource_id);
        if mine(rows.last()) {
            assert(front.filter(mine).push(rows.last()).drop_last() =~= front.filter(mine));
        }
    }
}

proof fn lemma_block_is_printed(s: StoreView, rows: Seq<ResourceView>, i: int, line: Seq<char>)
    requires
        0 <= i < rows.len(),
        history_block(s, rows[i]).contains(line),
    ensures
        history_texts(s, rows, None).contains(line),
    decreases rows.len(),
{
    let (a, b) = (history_texts(s, rows.drop_last(), None), history_block(s, rows.last()));
    if i < rows.len() - 1 {
        lemma_block_is_printed(s, rows.drop_last(), i, line);
        let k = choose|k: int| 0 <= k < a.len() && a[k] == line;
        assert((a + b)[k] == line);
    } else {
        let k = choose|k: int| 0 <= k < b.len() && b[k] == line;
        assert((a + b)[a.len() + k] == line);
    }
}

/// A record that stands is printed under its resource, with what its chain ends with
/// and with the number of its arrivals.
pub proof fn law_a_record_that_stands_is_printed(s: StoreView, r: int, local_id: Seq<char>)
    requires
        0 <= r < s.resources.len(),
        ({
            let row = s.resources[r];
            let chain = s.chain(row.adapter_id, local_id);
            &&& chain.len() > 0
            &&& chain.last().observation.state == ObservationState::Active
            &&& chain.last().observation.resource_id == row.resource_id
            &&& forall|i: int|
                0 <= i < s.retractions.len() && (#[trigger] s.retractions[i]).adapter_id
                    == row.adapter_id && s.retractions[i].local_id == local_id
                    ==> s.retractions[i].revision < chain.len()
        }),
    ensures
        ({
            let chain = s.chain(s.resources[r].adapter_id, local_id);
            let o = chain.last().observation;
            let figure = format_text(o.amount.units, o.amount.scale);
            history_texts(s, s.resources, None).contains(
                "  "@ + local_id + "  r"@ + decimal(chain.len()) + "  "@ + blanks(figure.len(), 16)
                    + figure + " "@ + o.amount.asset + "  "@ + called(o) + "  "@ + o.description
                    + "  "@ + currency(o) + " · "@ + o.provenance.provider_id,
            )
        }),
{
    let row = s.resources[r];
    let chain = s.chain(row.adapter_id, local_id);
    let o = chain.last().observation;
    let l = LiveView { local_id, revision: chain.len(), observation: o };
    let live = live_listing(s, row.adapter_id, row.resource_id);
    law_what_is_live(s, row.adapter_id, row.resource_id, local_id);
    law_live_records_are_listed_in_order(s, row.adapter_id, row.resource_id);
    assert(live.contains(l));
    let i = choose|i: int| 0 <= i < live.len() && live[i] == l;
    law_every_live_record_prints_once(s, row);
    law_a_live_record_says_what_it_is(local_id, chain.len(), o);
    let line = history_block(s, row)[i + 1];
    assert(line == history_text(live[i].local_id, live[i].revision, live[i].observation));
    lemma_block_is_printed(s, s.resources, r, line);
}

} // verus!
