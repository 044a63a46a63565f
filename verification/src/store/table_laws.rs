//! What each write leaves in the profile's tables, and what it leaves alone.

use crate::store::error::{StoreErrorView, USER_VERSION};
use crate::store::model::{
    adapter_key, adapter_keys, balance_ids, crawl_ids, newest_resumable, next_id, observation_ids,
    read_ids, resource_key, resource_keys, StoreView,
};
use crate::store::order::{key_before, lemma_at_its_place, lemma_place_of};
use crate::store::refresh::listed_all;
use crate::store::report::InputView;
use crate::store::retraction_laws::lemma_the_row;
use crate::store::rows::{AdapterView, CrawlView, ReadView, ResourceView};
use crate::store::sweep::{begun, opened, start_of};
use crate::store::tables::{dangling, held_revision, repeated};
use crate::text::{lemma_text_order, text_before};
use crate::wire::page::PageRequest;
use crate::wire::record::DescriptorView;
use vstd::prelude::*;

verus! {

/// The tables are in order: adapters by their ids, resources by their adapters and then by
/// their own ids, and no id is there twice.
pub proof fn law_the_tables_are_in_order(s: StoreView, i: int, j: int)
    requires
        s.valid(),
        0 <= i < j,
    ensures
        j < s.adapters.len() ==> text_before(s.adapters[i].adapter_id, s.adapters[j].adapter_id),
        j < s.resources.len() ==> {
            let (a, b) = (s.resources[i], s.resources[j]);
            text_before(a.adapter_id, b.adapter_id) || a.adapter_id == b.adapter_id && text_before(
                a.resource_id,
                b.resource_id,
            )
        },
        j < s.crawls.len() ==> s.crawls[i].crawl_id < s.crawls[j].crawl_id,
        j < s.reads.len() ==> s.reads[i].read_id < s.reads[j].read_id,
        j < s.observations.len() ==> s.observations[i].observation_id
            < s.observations[j].observation_id,
        j < s.balances.len() ==> s.balances[i].balance_id < s.balances[j].balance_id,
{
    if j < s.adapters.len() {
        let keys = adapter_keys(s.adapters);
        assert(key_before(keys[i], keys[j]));
        lemma_text_order(keys[i].second, keys[j].second, keys[i].second);
    }
    if j < s.resources.len() {
        let keys = resource_keys(s.resources);
        assert(key_before(keys[i], keys[j]));
    }
    if j < s.crawls.len() {
        let ids = crawl_ids(s.crawls);
        assert(ids[i] < ids[j]);
    }
    if j < s.reads.len() {
        let ids = read_ids(s.reads);
        assert(ids[i] < ids[j]);
    }
    if j < s.observations.len() {
        let ids = observation_ids(s.observations);
        assert(ids[i] < ids[j]);
    }
    if j < s.balances.len() {
        let ids = balance_ids(s.balances);
        assert(ids[i] < ids[j]);
    }
}

/// What a refused write is told, and the highest revision that a row can hold.
pub proof fn law_what_a_refused_write_is_told(revision: u64)
    ensures
        dangling() == StoreErrorView::Sqlite("FOREIGN KEY constraint failed"@),
        repeated() == StoreErrorView::Sqlite(
            "UNIQUE constraint failed: observation.adapter_id, observation.local_id, observation.revision"@,
        ),
        revision <= i64::MAX ==> held_revision(revision) == revision,
        revision > i64::MAX ==> held_revision(revision) == i64::MAX,
        USER_VERSION == 1,
{
}

/// Whether an adapter has a row.
pub open spec fn is_connected(s: StoreView, adapter_id: Seq<char>) -> bool {
    exists|i: int| 0 <= i < s.adapters.len() && (#[trigger] s.adapters[i]).adapter_id == adapter_id
}

/// Whether a resource has a row.
pub open spec fn is_listed(s: StoreView, adapter_id: Seq<char>, resource_id: Seq<char>) -> bool {
    exists|i: int|
        0 <= i < s.resources.len() && (#[trigger] s.resources[i]).adapter_id == adapter_id
            && s.resources[i].resource_id == resource_id
}

/// An adapter is there exactly if it has a row.
pub proof fn law_who_is_connected(s: StoreView, adapter_id: Seq<char>)
    requires
        s.valid(),
    ensures
        s.has_adapter(adapter_id) <==> is_connected(s, adapter_id),
{
    if is_connected(s, adapter_id) {
        let i = choose|i: int|
            0 <= i < s.adapters.len() && (#[trigger] s.adapters[i]).adapter_id == adapter_id;
        lemma_at_its_place(adapter_keys(s.adapters), adapter_key(adapter_id), i);
    }
}

/// A resource's row is the one under its adapter and its id, and it has none exactly if no
/// row is.
pub proof fn law_which_row_a_resource_has(
    s: StoreView,
    adapter_id: Seq<char>,
    resource_id: Seq<char>,
)
    requires
        s.valid(),
    ensures
        s.resource_row(adapter_id, resource_id) is Some <==> is_listed(s, adapter_id, resource_id),
        s.resource_row(adapter_id, resource_id) matches Some(row) ==> row.adapter_id == adapter_id
            && row.resource_id == resource_id && s.resources.contains(row),
{
    if is_listed(s, adapter_id, resource_id) {
        let i = choose|i: int|
            0 <= i < s.resources.len() && (#[trigger] s.resources[i]).adapter_id == adapter_id
                && s.resources[i].resource_id == resource_id;
        lemma_the_row(s, i);
    }
}

/// Connecting an adapter again changes its command line and nothing else. Connecting a new
/// one adds a row that knows nothing of it yet, and changes no other.
pub proof fn law_connecting_changes_one_row(
    s: StoreView,
    adapter_id: Seq<char>,
    argv: Seq<Seq<char>>,
    i: int,
)
    requires
        s.valid(),
    ensures
        ({
            let t = s.with_adapter(adapter_id, argv);
            &&& 0 <= i < s.adapters.len() && s.adapters[i].adapter_id == adapter_id ==> t == (
            StoreView {
                adapters: s.adapters.update(
                    i,
                    AdapterView {
                        adapter_id,
                        argv,
                        local_id_derivation: s.adapters[i].local_id_derivation,
                        needs_reauth: s.adapters[i].needs_reauth,
                    },
                ),
                ..s
            })
            &&& !is_connected(s, adapter_id) ==> exists|p: int|
                0 <= p <= s.adapters.len() && t == (StoreView {
                    adapters: #[trigger] s.adapters.insert(
                        p,
                        AdapterView {
                            adapter_id,
                            argv,
                            local_id_derivation: None,
                            needs_reauth: false,
                        },
                    ),
                    ..s
                })
        }),
{
    law_who_is_connected(s, adapter_id);
    if 0 <= i < s.adapters.len() && s.adapters[i].adapter_id == adapter_id {
        lemma_at_its_place(adapter_keys(s.adapters), adapter_key(adapter_id), i);
    }
    lemma_place_of(adapter_keys(s.adapters), adapter_key(adapter_id));
    let p = s.adapter_place(adapter_id) as int;
    let row = AdapterView { adapter_id, argv, local_id_derivation: None, needs_reauth: false };
    assert(!is_connected(s, adapter_id) ==> s.with_adapter(adapter_id, argv).adapters
        == s.adapters.insert(p, row));
}

/// A derivation is noted on the adapter's own row, and only there; of an adapter that is
/// not connected nothing is noted.
pub proof fn law_a_derivation_is_noted_on_its_adapter(
    s: StoreView,
    adapter_id: Seq<char>,
    derivation: Seq<char>,
    i: int,
)
    requires
        s.valid(),
    ensures
        ({
            let t = s.with_derivation(adapter_id, derivation);
            &&& 0 <= i < s.adapters.len() && s.adapters[i].adapter_id == adapter_id ==> t == (
            StoreView {
                adapters: s.adapters.update(
                    i,
                    AdapterView { local_id_derivation: Some(derivation), ..s.adapters[i] },
                ),
                ..s
            })
            &&& !is_connected(s, adapter_id) ==> t == s
        }),
{
    law_who_is_connected(s, adapter_id);
    if 0 <= i < s.adapters.len() && s.adapters[i].adapter_id == adapter_id {
        lemma_at_its_place(adapter_keys(s.adapters), adapter_key(adapter_id), i);
    }
}

/// Listing a resource again renames it and keeps what is known of its definition and its
/// vantage. Listing a new one adds a row that knows nothing of them yet.
pub proof fn law_listing_changes_one_row(
    s: StoreView,
    adapter_id: Seq<char>,
    resource_id: Seq<char>,
    kind: Seq<char>,
    label: Seq<char>,
    i: int,
)
    requires
        s.valid(),
    ensures
        ({
            let t = s.with_resource(adapter_id, resource_id, kind, label);
            &&& 0 <= i < s.resources.len() && s.resources[i].adapter_id == adapter_id
                && s.resources[i].resource_id == resource_id ==> t == (StoreView {
                resources: s.resources.update(
                    i,
                    ResourceView {
                        adapter_id,
                        resource_id,
                        kind,
                        label,
                        fingerprint: s.resources[i].fingerprint,
                        last_provider_id: s.resources[i].last_provider_id,
                    },
                ),
                ..s
            })
            &&& !is_listed(s, adapter_id, resource_id) ==> exists|p: int|
                0 <= p <= s.resources.len() && t == (StoreView {
                    resources: #[trigger] s.resources.insert(
                        p,
                        ResourceView {
                            adapter_id,
                            resource_id,
                            kind,
                            label,
                            fingerprint: None,
                            last_provider_id: None,
                        },
                    ),
                    ..s
                })
        }),
{
    law_which_row_a_resource_has(s, adapter_id, resource_id);
    if 0 <= i < s.resources.len() && s.resources[i].adapter_id == adapter_id
        && s.resources[i].resource_id == resource_id {
        lemma_the_row(s, i);
    }
    lemma_place_of(resource_keys(s.resources), resource_key(adapter_id, resource_id));
    let p = s.resource_place(adapter_id, resource_id) as int;
    let row = ResourceView {
        adapter_id,
        resource_id,
        kind,
        label,
        fingerprint: None,
        last_provider_id: None,
    };
    assert(!is_listed(s, adapter_id, resource_id) ==> s.with_resource(
        adapter_id,
        resource_id,
        kind,
        label,
    ).resources == s.resources.insert(p, row));
}

/// A listing is taken resource by resource, in order, under the adapter that gave it.
pub proof fn law_a_listing_is_taken_in_order(
    s: StoreView,
    adapter_id: Seq<char>,
    resources: Seq<DescriptorView>,
    d: DescriptorView,
)
    ensures
        listed_all(s, adapter_id, Seq::empty()) == s,
        listed_all(s, adapter_id, resources.push(d)) == listed_all(
            s,
            adapter_id,
            resources,
        ).with_resource(adapter_id, d.resource_id, d.kind, d.label),
{
    assert(resources.push(d).drop_last() =~= resources);
}

/// A definition is noted on the resource's own row. A vantage is noted with it where one
/// is given; where none is, the one that was there stays.
pub proof fn law_a_definition_is_noted_on_its_resource(
    s: StoreView,
    i: int,
    fingerprint: Seq<char>,
    provider_id: Option<Seq<char>>,
)
    requires
        s.valid(),
        0 <= i < s.resources.len(),
    ensures
        ({
            let row = s.resources[i];
            s.with_definition(row.adapter_id, row.resource_id, fingerprint, provider_id) == (
            StoreView {
                resources: s.resources.update(
                    i,
                    ResourceView {
                        fingerprint: Some(fingerprint),
                        last_provider_id: if provider_id is Some {
                            provider_id
                        } else {
                            row.last_provider_id
                        },
                        ..row
                    },
                ),
                ..s
            })
        }),
{
    lemma_the_row(s, i);
}

/// A crawl is opened under the next id, at its start and without a verdict. From then on
/// no other crawl of its resource can be resumed; nothing else changes.
pub proof fn law_opening_a_crawl(s: StoreView, input: InputView, now: Seq<char>)
    ensures
        ({
            let t = opened(s, input, now);
            let start = start_of(s, input);
            let n = s.crawls.len() as int;
            &&& t == (StoreView { crawls: t.crawls, ..s })
            &&& t.crawls.len() == n + 1
            &&& t.crawls[n] == (CrawlView {
                crawl_id: if n == 0 {
                    1
                } else {
                    s.crawls[n - 1].crawl_id + 1
                },
                adapter_id: input.adapter_id,
                resource_id: input.resource_id,
                started_at: now,
                start_page: start,
                next_page: start,
                local_id_derivation: input.hello_derivation,
                fingerprint: Some(input.fingerprint),
                drained: false,
                complete: false,
                disqualified_reason: None,
            })
            &&& begun(s, input, now).crawl_id == t.crawls[n].crawl_id
            &&& begun(s, input, now).page == start
            &&& begun(s, input, now).now == now
            &&& begun(s, input, now).input == input
            &&& forall|i: int|
                0 <= i < n ==> #[trigger] t.crawls[i] == (if s.crawls[i].adapter_id
                    == input.adapter_id && s.crawls[i].resource_id == input.resource_id {
                    CrawlView { next_page: None, ..s.crawls[i] }
                } else {
                    s.crawls[i]
                })
        }),
{
    let n = s.crawls.len() as int;
    assert(next_id(crawl_ids(s.crawls)) == (if n == 0 {
        1
    } else {
        s.crawls[n - 1].crawl_id + 1
    }));
}

/// A crawl's place to resume from is moved on its own row.
pub proof fn law_moving_a_cursor(s: StoreView, crawl_id: int, page: Option<PageRequest>)
    ensures
        ({
            let t = s.with_cursor(crawl_id, page);
            &&& t == (StoreView { crawls: t.crawls, ..s })
            &&& t.crawls.len() == s.crawls.len()
            &&& forall|i: int|
                0 <= i < s.crawls.len() ==> #[trigger] t.crawls[i] == (if s.crawls[i].crawl_id
                    == crawl_id {
                    CrawlView { next_page: page, ..s.crawls[i] }
                } else {
                    s.crawls[i]
                })
        }),
{
}

/// A verdict is written on the crawl's own row.
pub proof fn law_writing_a_verdict(
    s: StoreView,
    crawl_id: int,
    drained: bool,
    complete: bool,
    reason: Option<Seq<char>>,
)
    ensures
        ({
            let t = s.with_verdict(crawl_id, drained, complete, reason);
            &&& t == (StoreView { crawls: t.crawls, ..s })
            &&& t.crawls.len() == s.crawls.len()
            &&& forall|i: int|
                0 <= i < s.crawls.len() ==> #[trigger] t.crawls[i] == (if s.crawls[i].crawl_id
                    == crawl_id {
                    CrawlView {
                        drained,
                        complete,
                        disqualified_reason: reason,
                        next_page: if drained {
                            None
                        } else {
                            s.crawls[i].next_page
                        },
                        ..s.crawls[i]
                    }
                } else {
                    s.crawls[i]
                })
        }),
{
}

/// A read is opened under the next id.
pub proof fn law_opening_a_read(s: StoreView, adapter_id: Seq<char>, started_at: Seq<char>)
    ensures
        s.with_read(adapter_id, started_at) == (StoreView {
            reads: s.reads.push(
                ReadView {
                    read_id: if s.reads.len() == 0 {
                        1
                    } else {
                        s.reads.last().read_id + 1
                    },
                    adapter_id,
                    started_at,
                },
            ),
            ..s
        }),
{
}

/// Which crawl a resume continues: the last one of the resource that did not drain and
/// has a place to go on from.
pub proof fn law_the_last_open_crawl_is_resumed(
    crawls: Seq<CrawlView>,
    adapter_id: Seq<char>,
    resource_id: Seq<char>,
    k: int,
)
    ensures
        0 <= k < crawls.len() && crawls[k].adapter_id == adapter_id && crawls[k].resource_id
            == resource_id && !crawls[k].drained && crawls[k].next_page is Some && (forall|j: int|
            k < j < crawls.len() ==> !((#[trigger] crawls[j]).adapter_id == adapter_id
                && crawls[j].resource_id == resource_id && !crawls[j].drained
                && crawls[j].next_page is Some)) ==> newest_resumable(
            crawls,
            adapter_id,
            resource_id,
        ) == Some(crawls[k]),
        (forall|j: int|
            0 <= j < crawls.len() ==> !((#[trigger] crawls[j]).adapter_id == adapter_id
                && crawls[j].resource_id == resource_id && !crawls[j].drained
                && crawls[j].next_page is Some)) ==> newest_resumable(
            crawls,
            adapter_id,
            resource_id,
        ) is None,
    decreases crawls.len(),
{
    if crawls.len() > 0 {
        let front = crawls.drop_last();
        law_the_last_open_crawl_is_resumed(front, adapter_id, resource_id, k);
        assert(crawls[crawls.len() - 1] == crawls.last());
        assert forall|j: int| 0 <= j < front.len() implies #[trigger] front[j] == crawls[j] by {}
    }
}

/// Where a sweep begins: at the start, unless a resume was asked for, there is an open
/// crawl of the resource, and that one ran under this derivation and this definition. Then
/// it begins where that one stopped.
pub proof fn law_where_a_sweep_begins(s: StoreView, input: InputView, k: int)
    ensures
        !input.options.resume ==> start_of(s, input) is None,
        input.options.resume && 0 <= k < s.crawls.len() && s.crawls[k].adapter_id
            == input.adapter_id && s.crawls[k].resource_id == input.resource_id
            && !s.crawls[k].drained && s.crawls[k].next_page is Some && (forall|j: int|
            k < j < s.crawls.len() ==> !((#[trigger] s.crawls[j]).adapter_id == input.adapter_id
                && s.crawls[j].resource_id == input.resource_id && !s.crawls[j].drained
                && s.crawls[j].next_page is Some)) ==> start_of(s, input) == (
        if s.crawls[k].local_id_derivation == input.hello_derivation && s.crawls[k].fingerprint
            == Some(input.fingerprint) {
            s.crawls[k].next_page
        } else {
            None
        }),
        (forall|j: int|
            0 <= j < s.crawls.len() ==> !((#[trigger] s.crawls[j]).adapter_id == input.adapter_id
                && s.crawls[j].resource_id == input.resource_id && !s.crawls[j].drained
                && s.crawls[j].next_page is Some)) ==> start_of(s, input) is None,
{
    law_the_last_open_crawl_is_resumed(s.crawls, input.adapter_id, input.resource_id, k);
}

} // verus!
