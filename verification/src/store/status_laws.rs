//! What the user is told of a profile: which adapters want a credential renewed, where
//! each resource is read from, how the last crawls went, and what was noted.

use crate::store::commands::{
    adapter_block, adapter_blocks, adapter_text, crawl_text, status_texts,
};
use crate::store::model::{adapter_key, adapter_keys, StoreView};
use crate::store::order::lemma_at_its_place;
use crate::store::picking_laws::law_an_adapter_has_its_own_resources;
use crate::store::refresh::{asks_renewal, needs_renewal};
use crate::store::rows::{AdapterView, CrawlView, ResourceView};
use crate::store::tables::newest_first;
use crate::text::signed_decimal;
use crate::wire::status::{ReadOutcome, StatusView};
use vstd::prelude::*;

verus! {

/// A credential is to be renewed exactly if some resource was answered that it has to be,
/// that the provider wants the user to confirm, or that access was taken back. Every other
/// answer leaves it as it is.
pub proof fn law_three_answers_ask_for_renewal(statuses: Seq<StatusView>)
    ensures
        needs_renewal(statuses) <==> exists|i: int|
            0 <= i < statuses.len() && match (#[trigger] statuses[i]).outcome {
                ReadOutcome::ReauthRequired { .. } => true,
                ReadOutcome::ScaRequired { .. } => true,
                ReadOutcome::Revoked { .. } => true,
                _ => false,
            },
{
    if needs_renewal(statuses) {
        let i = choose|i: int|
            0 <= i < statuses.len() && asks_renewal((#[trigger] statuses[i]).outcome);
        assert(match statuses[i].outcome {
            ReadOutcome::ReauthRequired { .. } => true,
            ReadOutcome::ScaRequired { .. } => true,
            ReadOutcome::Revoked { .. } => true,
            _ => false,
        });
    }
}

proof fn lemma_the_adapter(s: StoreView, i: int)
    requires
        s.valid(),
        0 <= i < s.adapters.len(),
    ensures
        s.adapter_place(s.adapters[i].adapter_id) == i,
        s.has_adapter(s.adapters[i].adapter_id),
{
    lemma_at_its_place(adapter_keys(s.adapters), adapter_key(s.adapters[i].adapter_id), i);
}

/// Once the statuses of a read are taken, the adapter's row says whether one of them asked
/// for renewal, whatever it said before; the rest of it stays, and so do all other rows.
pub proof fn law_taken_statuses_decide_about_renewal(
    s: StoreView,
    i: int,
    statuses: Seq<StatusView>,
)
    requires
        s.valid(),
        0 <= i < s.adapters.len(),
    ensures
        ({
            let t = s.with_reauth(s.adapters[i].adapter_id, needs_renewal(statuses));
            let asked = exists|k: int|
                0 <= k < statuses.len() && ((#[trigger] statuses[k]).outcome is ReauthRequired
                    || statuses[k].outcome is ScaRequired || statuses[k].outcome is Revoked);
            t == (StoreView {
                adapters: s.adapters.update(
                    i,
                    AdapterView {
                        adapter_id: s.adapters[i].adapter_id,
                        argv: s.adapters[i].argv,
                        local_id_derivation: s.adapters[i].local_id_derivation,
                        needs_reauth: asked,
                    },
                ),
                ..s
            })
        }),
{
    lemma_the_adapter(s, i);
    law_three_answers_ask_for_renewal(statuses);
    if exists|k: int|
        0 <= k < statuses.len() && ((#[trigger] statuses[k]).outcome is ReauthRequired
            || statuses[k].outcome is ScaRequired || statuses[k].outcome is Revoked) {
        let k = choose|k: int|
            0 <= k < statuses.len() && ((#[trigger] statuses[k]).outcome is ReauthRequired
                || statuses[k].outcome is ScaRequired || statuses[k].outcome is Revoked);
        assert(needs_renewal(statuses));
    }
}

/// The line of an adapter: its derivation, and whether the user has something to do.
pub proof fn law_an_adapter_says_whether_it_needs_the_user(row: AdapterView)
    ensures
        adapter_text(row) == row.adapter_id + "  derivation "@ + (
        if row.local_id_derivation is Some {
            row.local_id_derivation->0
        } else {
            "(unknown)"@
        }) + "  "@ + (if row.needs_reauth {
            "NEEDS REAUTH"@
        } else {
            "ok"@
        }),
{
}

/// The lines of an adapter: its own, and behind it one for each of its resources, in
/// order, with the vantage that it was last read from.
pub proof fn law_an_adapter_is_told_with_its_resources(s: StoreView, row: AdapterView)
    ensures
        ({
            let own = s.resources.filter(|r: ResourceView| r.adapter_id == row.adapter_id);
            let block = adapter_block(s, row);
            &&& block.len() == 1 + own.len()
            &&& block[0] == adapter_text(row)
            &&& forall|i: int|
                0 <= i < own.len() ==> #[trigger] block[i + 1] == "  "@ + own[i].resource_id + "  "@
                    + own[i].label + "  vantage "@ + (if own[i].last_provider_id is Some {
                    own[i].last_provider_id->0
                } else {
                    "(none yet)"@
                })
        }),
{
    law_an_adapter_has_its_own_resources(s.resources, row.adapter_id);
}

/// Adapters are told of one after the other.
pub proof fn law_adapters_are_told_of_in_turn(
    s: StoreView,
    rows: Seq<AdapterView>,
    row: AdapterView,
)
    ensures
        adapter_blocks(s, Seq::empty()).len() == 0,
        adapter_blocks(s, rows.push(row)) == adapter_blocks(s, rows) + adapter_block(s, row),
{
    assert(rows.push(row).drop_last() =~= rows);
}

proof fn lemma_block_is_told(s: StoreView, rows: Seq<AdapterView>, i: int, line: Seq<char>)
    requires
        0 <= i < rows.len(),
        adapter_block(s, rows[i]).contains(line),
    ensures
        adapter_blocks(s, rows).contains(line),
    decreases rows.len(),
{
    let (a, b) = (adapter_blocks(s, rows.drop_last()), adapter_block(s, rows.last()));
    if i < rows.len() - 1 {
        lemma_block_is_told(s, rows.drop_last(), i, line);
        let k = choose|k: int| 0 <= k < a.len() && a[k] == line;
        assert((a + b)[k] == line);
    } else {
        let k = choose|k: int| 0 <= k < b.len() && b[k] == line;
        assert((a + b)[a.len() + k] == line);
    }
}

/// An adapter's line is told.
pub proof fn law_every_adapter_is_told_of(s: StoreView, i: int)
    requires
        0 <= i < s.adapters.len(),
    ensures
        status_texts(s).contains(adapter_text(s.adapters[i])),
{
    let line = adapter_text(s.adapters[i]);
    assert(adapter_block(s, s.adapters[i])[0] == line);
    lemma_block_is_told(s, s.adapters, i, line);
    let blocks = adapter_blocks(s, s.adapters);
    let k = choose|k: int| 0 <= k < blocks.len() && blocks[k] == line;
    assert(status_texts(s)[k] == line);
}

/// An adapter that was answered that a credential has to be renewed is told of as one that
/// needs it, however many other answers it got.
pub proof fn law_a_credential_to_renew_is_told(
    s: StoreView,
    i: int,
    statuses: Seq<StatusView>,
    k: int,
)
    requires
        s.valid(),
        0 <= i < s.adapters.len(),
        0 <= k < statuses.len(),
        statuses[k].outcome is ReauthRequired || statuses[k].outcome is ScaRequired
            || statuses[k].outcome is Revoked,
    ensures
        ({
            let row = s.adapters[i];
            let t = s.with_reauth(row.adapter_id, needs_renewal(statuses));
            status_texts(t).contains(
                row.adapter_id + "  derivation "@ + (match row.local_id_derivation {
                    Some(derivation) => derivation,
                    None => "(unknown)"@,
                }) + "  "@ + "NEEDS REAUTH"@,
            )
        }),
{
    law_taken_statuses_decide_about_renewal(s, i, statuses);
    let t = s.with_reauth(s.adapters[i].adapter_id, needs_renewal(statuses));
    law_every_adapter_is_told_of(t, i);
}

/// An adapter that got no such answer is told of as one that is in order.
pub proof fn law_an_adapter_in_order_is_told(s: StoreView, i: int, statuses: Seq<StatusView>)
    requires
        s.valid(),
        0 <= i < s.adapters.len(),
        forall|k: int|
            0 <= k < statuses.len() ==> !((#[trigger] statuses[k]).outcome is ReauthRequired)
                && !(statuses[k].outcome is ScaRequired) && !(statuses[k].outcome is Revoked),
    ensures
        ({
            let row = s.adapters[i];
            let t = s.with_reauth(row.adapter_id, needs_renewal(statuses));
            status_texts(t).contains(
                row.adapter_id + "  derivation "@ + (match row.local_id_derivation {
                    Some(derivation) => derivation,
                    None => "(unknown)"@,
                }) + "  "@ + "ok"@,
            )
        }),
{
    law_taken_statuses_decide_about_renewal(s, i, statuses);
    let t = s.with_reauth(s.adapters[i].adapter_id, needs_renewal(statuses));
    law_every_adapter_is_told_of(t, i);
}

/// What one crawl came to: complete, partial and why, or still open.
pub proof fn law_a_crawl_says_what_it_came_to(row: CrawlView)
    ensures
        ({
            let head = "  "@ + signed_decimal(row.crawl_id) + " "@ + row.adapter_id + "/"@
                + row.resource_id + " at "@ + row.started_at + " -- "@;
            &&& row.complete ==> crawl_text(row) == head + "complete"@
            &&& !row.complete && row.disqualified_reason is Some ==> crawl_text(row) == head + (
            "partial -- "@ + row.disqualified_reason->0)
            &&& !row.complete && row.disqualified_reason is None ==> crawl_text(row) == head
                + "open"@
        }),
{
}

/// A limited listing has the last rows, the last one first: all of them if there are no
/// more than the limit, or if the limit is a negative one.
pub proof fn law_the_newest_come_first<T>(rows: Seq<T>, limit: i64)
    ensures
        newest_first(rows, limit).len() == (if limit < 0 || rows.len() < limit {
            rows.len() as int
        } else {
            limit as int
        }),
        forall|i: int|
            0 <= i < newest_first(rows, limit).len() ==> #[trigger] newest_first(rows, limit)[i]
                == rows[rows.len() - 1 - i],
{
}

/// The whole of what the user is told: every adapter, the last ten crawls, and the last
/// twenty discrepancies, newest first.
pub proof fn law_the_whole_status(s: StoreView)
    ensures
        ({
            let all = status_texts(s);
            let blocks = adapter_blocks(s, s.adapters);
            let (a, m, n) = (
                blocks.len() as int,
                s.crawls.len() as int,
                s.discrepancies.len() as int,
            );
            let c = if m < 10 {
                m
            } else {
                10
            };
            let d = if n < 20 {
                n
            } else {
                20
            };
            &&& all.len() == a + 1 + c + 1 + (if d == 0 {
                1
            } else {
                d
            })
            &&& all.take(a) == blocks
            &&& all[a] == "\nrecent crawls"@
            &&& forall|i: int|
                0 <= i < c ==> #[trigger] all[a + 1 + i] == crawl_text(s.crawls[m - 1 - i])
            &&& all[a + 1 + c] == "\ndiscrepancies"@
            &&& d == 0 ==> all[a + 2 + c] == "  (none)"@
            &&& forall|i: int|
                0 <= i < d ==> {
                    let row = s.discrepancies[n - 1 - i];
                    #[trigger] all[a + 2 + c + i] == "  ["@ + row.kind + "] "@ + row.adapter_id
                        + "/"@ + row.resource_id + " crawl "@ + signed_decimal(row.crawl_id)
                        + ": "@ + row.detail
                }
        }),
{
    let all = status_texts(s);
    let blocks = adapter_blocks(s, s.adapters);
    law_the_newest_come_first(s.crawls, 10);
    law_the_newest_come_first(s.discrepancies, 20);
    assert(all.take(blocks.len() as int) =~= blocks);
}

} // verus!
