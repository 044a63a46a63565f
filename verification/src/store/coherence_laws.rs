//! That the rows of a profile fit together, and stay so in whatever the library
//! does.

use crate::host::fold::{chain_of, key_of, lemma_chain_grows, ChainKey};
use crate::store::ingest::{
    admits_all, collides, ingested, ingested_all, lemma_ingested_all, unchanged,
};
use crate::store::live::{law_the_listing_is_the_live_set, live_listing, LiveView};
use crate::store::model::{
    adapter_key, adapter_keys, arrivals_of, ascending, balance_ids, crawl_ids, is_crawl, is_read,
    is_row_of, next_id, observation_ids, read_ids, resource_key, resource_keys, revisions_at,
    StoreView,
};
use crate::store::order::{lemma_at_its_place, lemma_insert_keeps_order, lemma_place_of};
use crate::store::report::{InputView, NoteView};
use crate::store::retract::{concluded, conclusion, noted, retraction_of, tally};
use crate::store::rows::{AdapterView, CrawlView, ResourceView, RetractionView, StoredView};
use crate::store::sweep::{
    admits_page, advanced, committed, concludes, gate_at_commit, no_status_reason, opened,
    own_records, page_limit_reason, took_page, StepView, SweepView,
};
use crate::store::sweep_laws::lemma_own_records;
use crate::store::tables::{lemma_crawls_stay, lemma_next_ascends, lemma_same_arrivals};
use crate::wire::failure::ProtocolViolationKind;
use crate::wire::page::PageRequest;
use crate::wire::record::{BalanceView, ObservationView};
use crate::wire::status::{status_of, StatusView};
use vstd::prelude::*;

verus! {

/// Changing the rest of an adapter's row moves nothing.
proof fn lemma_adapter_updated(s: StoreView, p: int, row: AdapterView)
    requires
        s.coherent(),
        0 <= p < s.adapters.len(),
        row.adapter_id == s.adapters[p].adapter_id,
    ensures
        (StoreView { adapters: s.adapters.update(p, row), ..s }).coherent(),
{
    let now = StoreView { adapters: s.adapters.update(p, row), ..s };
    assert(adapter_keys(now.adapters) =~= adapter_keys(s.adapters));
    assert forall|i: int| 0 <= i < now.resources.len() implies now.has_adapter(
        (#[trigger] now.resources[i]).adapter_id,
    ) by {
        assert(s.has_adapter(s.resources[i].adapter_id));
    }
    lemma_other_tables(s, now);
}

/// What a change of adapters or resources leaves as it is.
proof fn lemma_other_tables(s: StoreView, now: StoreView)
    requires
        s.coherent(),
        now == (StoreView { adapters: now.adapters, resources: now.resources, ..s }),
    ensures
        now.filed_at_home(),
        now.numbered(),
        now.retracted_in_time(),
        now.lines_were_read(),
{
    assert forall|i: int| 0 <= i < now.retractions.len() implies {
        let row = #[trigger] now.retractions[i];
        row.revision <= now.chain(row.adapter_id, row.local_id).len()
    } by {
        let row = s.retractions[i];
        assert(row.revision <= s.chain(row.adapter_id, row.local_id).len());
    }
}

/// Connecting an adapter, and noting things of one, keeps a profile coherent.
pub proof fn law_connecting_keeps_a_profile_coherent(
    s: StoreView,
    adapter_id: Seq<char>,
    argv: Seq<Seq<char>>,
    derivation: Seq<char>,
    needs: bool,
)
    requires
        s.coherent(),
    ensures
        s.with_adapter(adapter_id, argv).coherent(),
        s.with_derivation(adapter_id, derivation).coherent(),
        s.with_reauth(adapter_id, needs).coherent(),
{
    let now = s.with_adapter(adapter_id, argv);
    let p = s.adapter_place(adapter_id) as int;
    let keys = adapter_keys(s.adapters);
    let key = adapter_key(adapter_id);
    lemma_place_of(keys, key);
    if s.has_adapter(adapter_id) {
        let row = s.adapters[p];
        lemma_adapter_updated(s, p, AdapterView { argv, ..row });
        lemma_adapter_updated(s, p, AdapterView { local_id_derivation: Some(derivation), ..row });
        lemma_adapter_updated(s, p, AdapterView { needs_reauth: needs, ..row });
    } else {
        if keys.contains(key) {
            let at = choose|at: int| 0 <= at < keys.len() && keys[at] == key;
            lemma_at_its_place(keys, key, at);
        }
        lemma_insert_keeps_order(keys, key);
        assert(adapter_keys(now.adapters) =~= keys.insert(p, key));
        assert forall|i: int| 0 <= i < now.resources.len() implies now.has_adapter(
            (#[trigger] now.resources[i]).adapter_id,
        ) by {
            let id = s.resources[i].adapter_id;
            assert(s.has_adapter(id));
            let at = s.adapter_place(id) as int;
            let to = if at < p {
                at
            } else {
                at + 1
            };
            assert(now.adapters[to] == s.adapters[at]);
            assert(adapter_keys(now.adapters)[to] == adapter_key(id));
            lemma_at_its_place(adapter_keys(now.adapters), adapter_key(id), to);
        }
        lemma_other_tables(s, now);
    }
}

/// Changing the rest of a resource's row moves nothing.
proof fn lemma_resource_updated(s: StoreView, p: int, row: ResourceView)
    requires
        s.coherent(),
        0 <= p < s.resources.len(),
        row.adapter_id == s.resources[p].adapter_id,
        row.resource_id == s.resources[p].resource_id,
    ensures
        (StoreView { resources: s.resources.update(p, row), ..s }).coherent(),
{
    let now = StoreView { resources: s.resources.update(p, row), ..s };
    assert(resource_keys(now.resources) =~= resource_keys(s.resources));
    assert forall|i: int| 0 <= i < now.resources.len() implies now.has_adapter(
        (#[trigger] now.resources[i]).adapter_id,
    ) by {
        assert(s.has_adapter(s.resources[i].adapter_id));
    }
    lemma_other_tables(s, now);
}

/// Noting a resource of a connected adapter, and the definition of any, keeps a
/// profile coherent.
pub proof fn law_listing_keeps_a_profile_coherent(
    s: StoreView,
    adapter_id: Seq<char>,
    resource_id: Seq<char>,
    kind: Seq<char>,
    label: Seq<char>,
    fingerprint: Seq<char>,
    provider_id: Option<Seq<char>>,
)
    requires
        s.coherent(),
    ensures
        s.has_adapter(adapter_id) ==> s.with_resource(
            adapter_id,
            resource_id,
            kind,
            label,
        ).coherent(),
        s.with_definition(adapter_id, resource_id, fingerprint, provider_id).coherent(),
{
    let p = s.resource_place(adapter_id, resource_id) as int;
    let keys = resource_keys(s.resources);
    let key = resource_key(adapter_id, resource_id);
    let now = s.with_resource(adapter_id, resource_id, kind, label);
    lemma_place_of(keys, key);
    if s.has_resource(adapter_id, resource_id) {
        lemma_resource_updated(s, p, now.resources[p]);
        lemma_resource_updated(
            s,
            p,
            s.with_definition(adapter_id, resource_id, fingerprint, provider_id).resources[p],
        );
    } else if s.has_adapter(adapter_id) {
        if keys.contains(key) {
            let at = choose|at: int| 0 <= at < keys.len() && keys[at] == key;
            lemma_at_its_place(keys, key, at);
        }
        lemma_insert_keeps_order(keys, key);
        assert(resource_keys(now.resources) =~= keys.insert(p, key));
        assert forall|i: int| 0 <= i < now.resources.len() implies now.has_adapter(
            (#[trigger] now.resources[i]).adapter_id,
        ) by {
            if i < p {
                assert(now.resources[i] == s.resources[i]);
            } else if i > p {
                assert(now.resources[i] == s.resources[i - 1]);
            }
        }
        lemma_other_tables(s, now);
    }
}

/// Reading balances keeps a profile coherent.
pub proof fn law_reading_keeps_a_profile_coherent(
    s: StoreView,
    adapter_id: Seq<char>,
    started_at: Seq<char>,
    read_id: int,
    outcome: Seq<char>,
    balance: BalanceView,
)
    requires
        s.coherent(),
    ensures
        s.with_read(adapter_id, started_at).coherent(),
        is_read(s.with_read(adapter_id, started_at).reads, next_id(read_ids(s.reads))),
        is_read(s.reads, read_id) ==> s.with_balance(
            read_id,
            adapter_id,
            outcome,
            balance,
        ).coherent(),
{
    let now = s.with_read(adapter_id, started_at);
    let id = next_id(read_ids(s.reads));
    lemma_next_ascends(read_ids(s.reads));
    assert(read_ids(now.reads) =~= read_ids(s.reads).push(id));
    assert(now.reads[s.reads.len() as int].read_id == id);
    assert forall|i: int| 0 <= i < now.balances.len() implies is_read(
        now.reads,
        (#[trigger] now.balances[i]).read_id,
    ) by {
        let id = s.balances[i].read_id;
        assert(is_read(s.reads, id));
        let k = choose|k: int| 0 <= k < s.reads.len() && (#[trigger] s.reads[k]).read_id == id;
        assert(now.reads[k].read_id == id);
    }
    lemma_same_adapters(s, now);
    lemma_other_rows(s, now);
    let more = s.with_balance(read_id, adapter_id, outcome, balance);
    lemma_next_ascends(balance_ids(s.balances));
    assert(balance_ids(more.balances) =~= balance_ids(s.balances).push(
        next_id(balance_ids(s.balances)),
    ));
    lemma_same_adapters(s, more);
    lemma_other_rows(s, more);
}

/// What depends on adapters and resources alone.
proof fn lemma_same_adapters(s: StoreView, now: StoreView)
    requires
        s.coherent(),
        now.adapters == s.adapters,
        now.resources == s.resources,
    ensures
        forall|i: int|
            0 <= i < now.resources.len() ==> now.has_adapter(
                (#[trigger] now.resources[i]).adapter_id,
            ),
{
    assert forall|i: int| 0 <= i < now.resources.len() implies now.has_adapter(
        (#[trigger] now.resources[i]).adapter_id,
    ) by {
        assert(s.has_adapter(s.resources[i].adapter_id));
    }
}

/// What depends on the stored records and the retractions alone.
proof fn lemma_other_rows(s: StoreView, now: StoreView)
    requires
        s.coherent(),
        now.observations == s.observations,
        now.retractions == s.retractions,
    ensures
        now.filed_at_home(),
        now.numbered(),
        now.retracted_in_time(),
{
    assert forall|i: int| 0 <= i < now.retractions.len() implies {
        let row = #[trigger] now.retractions[i];
        row.revision <= now.chain(row.adapter_id, row.local_id).len()
    } by {
        let row = s.retractions[i];
        assert(row.revision <= s.chain(row.adapter_id, row.local_id).len());
    }
}

proof fn lemma_crawls_changed(s: StoreView, crawls: Seq<CrawlView>)
    requires
        s.coherent(),
        crawls.len() >= s.crawls.len(),
        forall|i: int|
            0 <= i < s.crawls.len() ==> (#[trigger] crawls[i]).crawl_id == s.crawls[i].crawl_id,
        ascending(crawl_ids(crawls)),
    ensures
        (StoreView { crawls, ..s }).coherent(),
{
    let now = StoreView { crawls, ..s };
    lemma_crawls_stay(s.crawls, crawls);
    lemma_same_adapters(s, now);
    lemma_other_rows(s, now);
}

/// Opening a crawl, moving its place to resume from and ending it keep a profile
/// coherent.
pub proof fn law_crawling_keeps_a_profile_coherent(
    s: StoreView,
    input: InputView,
    now: Seq<char>,
    crawl_id: int,
    next_page: Option<PageRequest>,
    drained: bool,
    complete: bool,
    reason: Option<Seq<char>>,
)
    requires
        s.coherent(),
    ensures
        opened(s, input, now).coherent(),
        is_crawl(opened(s, input, now).crawls, next_id(crawl_ids(s.crawls))),
        s.with_cursor(crawl_id, next_page).coherent(),
        s.with_verdict(crawl_id, drained, complete, reason).coherent(),
{
    let a = opened(s, input, now);
    let id = next_id(crawl_ids(s.crawls));
    lemma_next_ascends(crawl_ids(s.crawls));
    assert(crawl_ids(a.crawls) =~= crawl_ids(s.crawls).push(id));
    assert(a.crawls[s.crawls.len() as int].crawl_id == id);
    lemma_crawls_changed(s, a.crawls);
    let b = s.with_cursor(crawl_id, next_page);
    assert(crawl_ids(b.crawls) =~= crawl_ids(s.crawls));
    lemma_crawls_changed(s, b.crawls);
    let c = s.with_verdict(crawl_id, drained, complete, reason);
    assert(crawl_ids(c.crawls) =~= crawl_ids(s.crawls));
    lemma_crawls_changed(s, c.crawls);
}

/// A chain is no shorter with more rows.
proof fn lemma_chain_of_front(rows: Seq<StoredView>, n: int, key: ChainKey)
    requires
        0 <= n <= rows.len(),
    ensures
        chain_of(arrivals_of(rows.take(n), key.adapter_id), key).len() <= chain_of(
            arrivals_of(rows, key.adapter_id),
            key,
        ).len(),
    decreases rows.len() - n,
{
    if n < rows.len() {
        lemma_chain_of_front(rows, n + 1, key);
        let front = rows.take(n + 1);
        assert(front.drop_last() =~= rows.take(n));
        lemma_chain_grows(arrivals_of(rows.take(n), key.adapter_id), front.last().observation, key);
    } else {
        assert(rows.take(n) =~= rows);
    }
}

/// In a coherent profile no record collides: the revision that comes next in a
/// chain is not stored yet.
proof fn lemma_next_is_free(s: StoreView, adapter_id: Seq<char>, local_id: Seq<char>)
    requires
        s.filed_at_home(),
        s.numbered(),
    ensures
        !s.has_revision(adapter_id, local_id, s.chain(adapter_id, local_id).len() + 1),
{
    let n = s.chain(adapter_id, local_id).len() + 1;
    if s.has_revision(adapter_id, local_id, n) {
        let i = choose|i: int|
            0 <= i < s.observations.len() && is_row_of(
                #[trigger] s.observations[i],
                adapter_id,
                local_id,
                n,
            );
        assert(s.observations[i].revision == revisions_at(s.observations, i));
        lemma_chain_of_front(s.observations, i + 1, ChainKey { adapter_id, local_id });
    }
}

proof fn lemma_observation_added(s: StoreView, row: StoredView)
    requires
        s.coherent(),
        row.observation_id == next_id(observation_ids(s.observations)),
        row.adapter_id == row.observation.provenance.adapter_id,
        row.revision == s.chain(row.adapter_id, row.observation.local_id).len() + 1,
        is_crawl(s.crawls, row.crawl_id),
        is_crawl(s.crawls, row.last_seen_crawl),
    ensures
        (StoreView { observations: s.observations.push(row), ..s }).coherent(),
{
    let now = StoreView { observations: s.observations.push(row), ..s };
    lemma_next_ascends(observation_ids(s.observations));
    assert(observation_ids(now.observations) =~= observation_ids(s.observations).push(
        row.observation_id,
    ));
    lemma_same_adapters(s, now);
    assert(now.observations.drop_last() =~= s.observations);
    assert forall|i: int| 0 <= i < now.observations.len() implies (
    #[trigger] now.observations[i]).revision == revisions_at(now.observations, i) by {
        if i < s.observations.len() {
            assert(now.observations[i] == s.observations[i]);
            assert(now.observations.take(i + 1) =~= s.observations.take(i + 1));
        } else {
            assert(now.observations.take(i + 1) =~= now.observations);
            lemma_chain_grows(
                arrivals_of(s.observations, row.adapter_id),
                row.observation,
                key_of(row.observation),
            );
        }
    }
    assert forall|i: int| 0 <= i < now.retractions.len() implies {
        let r = #[trigger] now.retractions[i];
        r.revision <= now.chain(r.adapter_id, r.local_id).len()
    } by {
        let r = s.retractions[i];
        assert(r.revision <= s.chain(r.adapter_id, r.local_id).len());
        lemma_chain_grows(
            arrivals_of(s.observations, r.adapter_id),
            row.observation,
            ChainKey { adapter_id: r.adapter_id, local_id: r.local_id },
        );
    }
}

proof fn lemma_seen(
    s: StoreView,
    adapter_id: Seq<char>,
    local_id: Seq<char>,
    revision: nat,
    crawl_id: int,
    derivation: Seq<char>,
    fingerprint: Option<Seq<char>>,
)
    requires
        s.coherent(),
        is_crawl(s.crawls, crawl_id),
    ensures
        s.with_seen(adapter_id, local_id, revision, crawl_id, derivation, fingerprint).coherent(),
{
    let now = s.with_seen(adapter_id, local_id, revision, crawl_id, derivation, fingerprint);
    assert(observation_ids(now.observations) =~= observation_ids(s.observations));
    lemma_same_adapters(s, now);
    assert forall|i: int| 0 <= i < now.observations.len() implies (
    #[trigger] now.observations[i]).revision == revisions_at(now.observations, i) by {
        let row = s.observations[i];
        assert(row.revision == revisions_at(s.observations, i));
        let (a, b) = (s.observations.take(i + 1), now.observations.take(i + 1));
        assert forall|k: int| 0 <= k < a.len() implies (#[trigger] a[k]).observation
            == b[k].observation && a[k].adapter_id == b[k].adapter_id by {
            assert(a[k] == s.observations[k] && b[k] == now.observations[k]);
        }
        lemma_same_arrivals(a, b, row.adapter_id);
    }
    assert forall|i: int| 0 <= i < now.retractions.len() implies {
        let r = #[trigger] now.retractions[i];
        r.revision <= now.chain(r.adapter_id, r.local_id).len()
    } by {
        let r = s.retractions[i];
        assert(r.revision <= s.chain(r.adapter_id, r.local_id).len());
        lemma_same_arrivals(now.observations, s.observations, r.adapter_id);
    }
    assert forall|i: int| 0 <= i < now.observations.len() implies {
        let row = #[trigger] now.observations[i];
        is_crawl(now.crawls, row.crawl_id) && is_crawl(now.crawls, row.last_seen_crawl)
    } by {
        let row = s.observations[i];
        assert(is_crawl(s.crawls, row.crawl_id) && is_crawl(s.crawls, row.last_seen_crawl));
    }
}

proof fn lemma_ingested_coherent(
    s: StoreView,
    input: InputView,
    crawl_id: int,
    records: Seq<ObservationView>,
)
    requires
        s.coherent(),
        is_crawl(s.crawls, crawl_id),
        forall|i: int|
            0 <= i < records.len() ==> (#[trigger] records[i]).provenance.adapter_id
                == input.adapter_id,
    ensures
        admits_all(s, input, crawl_id, records),
        ingested_all(s, input, crawl_id, records).0.coherent(),
    decreases records.len(),
{
    if records.len() > 0 {
        let front = records.drop_last();
        let o = records.last();
        assert forall|i: int| 0 <= i < front.len() implies (
        #[trigger] front[i]).provenance.adapter_id == input.adapter_id by {
            assert(front[i] == records[i]);
        }
        assert(records[records.len() - 1] == o);
        lemma_ingested_coherent(s, input, crawl_id, front);
        lemma_ingested_all(s, input, crawl_id, front);
        let before = ingested_all(s, input, crawl_id, front).0;
        let after = ingested(before, input, crawl_id, o).0;
        lemma_next_is_free(before, input.adapter_id, o.local_id);
        assert(!collides(before, input.adapter_id, o));
        let chain = before.chain(input.adapter_id, o.local_id);
        if unchanged(before, input.adapter_id, o) {
            lemma_seen(
                before,
                input.adapter_id,
                o.local_id,
                chain.last().revision,
                crawl_id,
                input.hello_derivation,
                Some(input.fingerprint),
            );
        } else {
            lemma_observation_added(before, after.observations.last());
            assert(after.observations == before.observations.push(after.observations.last()));
        }
    }
}

proof fn lemma_retractions_added(s: StoreView, rows: Seq<RetractionView>)
    requires
        s.coherent(),
        forall|i: int|
            0 <= i < rows.len() ==> {
                let row = #[trigger] rows[i];
                &&& is_crawl(s.crawls, row.crawl_id)
                &&& row.revision <= s.chain(row.adapter_id, row.local_id).len()
            },
    ensures
        (StoreView { retractions: s.retractions + rows, ..s }).coherent(),
{
    let now = StoreView { retractions: s.retractions + rows, ..s };
    lemma_same_adapters(s, now);
    assert forall|i: int| 0 <= i < now.retractions.len() implies {
        let row = #[trigger] now.retractions[i];
        &&& is_crawl(now.crawls, row.crawl_id)
        &&& row.revision <= now.chain(row.adapter_id, row.local_id).len()
    } by {
        let k = i - s.retractions.len();
        let row = if k < 0 {
            s.retractions[i]
        } else {
            rows[k]
        };
        assert(is_crawl(s.crawls, row.crawl_id));
        assert(row.revision <= s.chain(row.adapter_id, row.local_id).len());
    }
}

proof fn lemma_noted_coherent(
    s: StoreView,
    input: InputView,
    crawl_id: int,
    now: Seq<char>,
    notes: Seq<NoteView>,
)
    requires
        s.coherent(),
        is_crawl(s.crawls, crawl_id),
    ensures
        noted(s, input, crawl_id, now, notes).coherent(),
        noted(s, input, crawl_id, now, notes).crawls == s.crawls,
    decreases notes.len(),
{
    if notes.len() > 0 {
        lemma_noted_coherent(s, input, crawl_id, now, notes.drop_last());
        let before = noted(s, input, crawl_id, now, notes.drop_last());
        let after = noted(s, input, crawl_id, now, notes);
        lemma_same_adapters(before, after);
        lemma_other_rows(before, after);
        assert forall|i: int| 0 <= i < after.discrepancies.len() implies is_crawl(
            after.crawls,
            (#[trigger] after.discrepancies[i]).crawl_id,
        ) by {
            if i < before.discrepancies.len() {
                assert(is_crawl(before.crawls, before.discrepancies[i].crawl_id));
            }
        }
    }
}

/// A tally retracts at revisions that the records have come to.
proof fn lemma_tally_in_time(
    s: StoreView,
    input: InputView,
    crawl_id: int,
    now: Seq<char>,
    observed: Seq<Seq<char>>,
    exempt: Seq<Seq<char>>,
    live: Seq<LiveView>,
)
    requires
        forall|i: int|
            0 <= i < live.len() ==> (#[trigger] live[i]).revision <= s.chain(
                input.adapter_id,
                live[i].local_id,
            ).len(),
    ensures
        ({
            let rows = tally(s, input, crawl_id, now, observed, exempt, live).retractions;
            forall|i: int|
                0 <= i < rows.len() ==> {
                    let row = #[trigger] rows[i];
                    &&& row.crawl_id == crawl_id
                    &&& row.revision <= s.chain(row.adapter_id, row.local_id).len()
                }
        }),
    decreases live.len(),
{
    if live.len() > 0 {
        let front = live.drop_last();
        assert forall|i: int| 0 <= i < front.len() implies (#[trigger] front[i]).revision
            <= s.chain(input.adapter_id, front[i].local_id).len() by {
            assert(front[i] == live[i]);
        }
        lemma_tally_in_time(s, input, crawl_id, now, observed, exempt, front);
        let l = live[live.len() - 1];
        let was = tally(s, input, crawl_id, now, observed, exempt, front).retractions;
        let rows = tally(s, input, crawl_id, now, observed, exempt, live).retractions;
        assert(l.revision <= s.chain(input.adapter_id, l.local_id).len());
        assert forall|i: int| 0 <= i < rows.len() implies {
            let row = #[trigger] rows[i];
            &&& row.crawl_id == crawl_id
            &&& row.revision <= s.chain(row.adapter_id, row.local_id).len()
        } by {
            if i < was.len() {
                assert(rows[i] == was[i]);
            } else {
                assert(rows[i] == retraction_of(s, input, crawl_id, now, l));
            }
        }
    }
}

proof fn lemma_concluded_coherent(
    s: StoreView,
    input: InputView,
    crawl_id: int,
    now: Seq<char>,
    observed: Seq<Seq<char>>,
    exempt: Seq<Seq<char>>,
)
    requires
        s.coherent(),
        is_crawl(s.crawls, crawl_id),
    ensures
        ({
            let c = conclusion(s, input, crawl_id, now, observed, exempt);
            let after = concluded(s, input, crawl_id, now, c);
            after.coherent() && after.crawls == s.crawls
        }),
{
    let c = conclusion(s, input, crawl_id, now, observed, exempt);
    let live = live_listing(s, input.adapter_id, input.resource_id);
    law_the_listing_is_the_live_set(s, input.adapter_id, input.resource_id);
    assert forall|i: int| 0 <= i < live.len() implies (#[trigger] live[i]).revision <= s.chain(
        input.adapter_id,
        live[i].local_id,
    ).len() by {}
    lemma_tally_in_time(s, input, crawl_id, now, observed, exempt, live);
    lemma_retractions_added(s, c.retractions);
    lemma_noted_coherent(
        StoreView { retractions: s.retractions + c.retractions, ..s },
        input,
        crawl_id,
        now,
        c.notes,
    );
}

proof fn lemma_committed_coherent(
    s: StoreView,
    w: SweepView,
    violation: Option<ProtocolViolationKind>,
)
    requires
        s.coherent(),
        is_crawl(s.crawls, w.crawl_id),
    ensures
        committed(s, w, violation).0.coherent(),
{
    let gate = gate_at_commit(w.gate, violation);
    let reason = gate.disqualifier();
    let c = concludes(s, w, gate);
    if reason is None {
        lemma_concluded_coherent(s, w.input, w.crawl_id, w.now, w.observed, w.exempt);
    } else {
        assert(s.retractions + c.retractions =~= s.retractions);
    }
    let a = concluded(s, w.input, w.crawl_id, w.now, c);
    let (own, resource) = (w.input.adapter_id, w.input.resource_id);
    law_connecting_keeps_a_profile_coherent(
        a,
        own,
        Seq::empty(),
        w.input.hello_derivation,
        false,
    );
    let b = a.with_derivation(own, w.input.hello_derivation);
    let vantage = if reason is None {
        Some(w.input.provider_id)
    } else {
        None
    };
    law_listing_keeps_a_profile_coherent(
        b,
        own,
        resource,
        Seq::empty(),
        Seq::empty(),
        w.input.fingerprint,
        vantage,
    );
    let d = b.with_definition(own, resource, w.input.fingerprint, vantage);
    law_crawling_keeps_a_profile_coherent(
        d,
        w.input,
        w.now,
        w.crawl_id,
        None,
        gate.drained,
        reason is None,
        reason,
    );
}

/// A coherent profile takes every page, and is coherent afterwards: whatever an
/// adapter sends, no record of it collides with a stored one. What goes on from
/// there is again a sweep of one of the profile's crawls.
pub proof fn law_a_coherent_profile_takes_every_page(
    s: StoreView,
    w: SweepView,
    records: Seq<ObservationView>,
    statuses: Seq<StatusView>,
    violation: Option<ProtocolViolationKind>,
)
    requires
        s.coherent(),
        is_crawl(s.crawls, w.crawl_id),
    ensures
        admits_page(s, w, records, statuses),
        took_page(s, w, records, statuses, violation).0.coherent(),
        took_page(s, w, records, statuses, violation).1 matches StepView::Next(next) ==> is_crawl(
            took_page(s, w, records, statuses, violation).0.crawls,
            next.crawl_id,
        ),
{
    match status_of(statuses, w.input.resource_id) {
        None => {
            let reason = no_status_reason(w.page_number);
            law_crawling_keeps_a_profile_coherent(
                s,
                w.input,
                w.now,
                w.crawl_id,
                None,
                false,
                false,
                Some(reason),
            );
        },
        Some(status) => {
            let own = own_records(records, w.input.adapter_id, w.input.resource_id);
            lemma_own_records(records, w.input.adapter_id, w.input.resource_id);
            lemma_ingested_coherent(s, w.input, w.crawl_id, own);
            lemma_ingested_all(s, w.input, w.crawl_id, own);
            let (after, counts) = ingested_all(s, w.input, w.crawl_id, own);
            let now = advanced(w, records, status, counts);
            if now.page is None {
                lemma_committed_coherent(after, now, violation);
            } else {
                let place = crate::host::paging::resume_point(now.resume);
                let reason = page_limit_reason();
                law_crawling_keeps_a_profile_coherent(
                    after,
                    w.input,
                    w.now,
                    w.crawl_id,
                    place,
                    false,
                    false,
                    None,
                );
                lemma_crawls_stay(after.crawls, after.with_cursor(w.crawl_id, place).crawls);
                law_crawling_keeps_a_profile_coherent(
                    after.with_cursor(w.crawl_id, place),
                    w.input,
                    w.now,
                    w.crawl_id,
                    None,
                    false,
                    false,
                    Some(reason),
                );
            }
        },
    }
}

} // verus!
