//! Judges rows that were read back from disk.

use crate::store::model::{
    adapter_key, adapter_keys, ascending, balance_ids, crawl_ids, observation_ids, read_ids,
    resource_key, resource_keys,
};
use crate::store::order::{key_before, lemma_key_order, ordered, pair_before, Key};
use crate::store::rows::{AdapterRow, ResourceRow};
use crate::store::tables::Tables;
use crate::text::views;
use vstd::prelude::*;

verus! {

/// One more key behind the last keeps an order.
proof fn lemma_ordered_by_neighbours(keys: Seq<Key>, i: int)
    requires
        0 < i < keys.len(),
        ordered(keys.take(i)),
        key_before(keys[i - 1], keys[i]),
    ensures
        ordered(keys.take(i + 1)),
{
    let now = keys.take(i + 1);
    assert forall|j: int, k: int| 0 <= j < k < now.len() implies key_before(
        #[trigger] now[j],
        #[trigger] now[k],
    ) by {
        let was = keys.take(i);
        if k < i {
            assert(now[j] == was[j] && now[k] == was[k]);
        } else if j < i - 1 {
            assert(now[j] == was[j]);
            assert(key_before(was[j], was[i - 1]));
            lemma_key_order(keys[j], keys[i - 1], keys[i]);
        }
    }
}

fn adapters_ordered(rows: &Vec<AdapterRow>) -> (r: bool)
    ensures
        r == ordered(adapter_keys(views(rows@))),
{
    let ghost keys = adapter_keys(views(rows@));
    let mut i: usize = 1;
    while i < rows.len()
        invariant
            1 <= i,
            i <= rows@.len() || rows@.len() == 0,
            keys == adapter_keys(views(rows@)),
            i <= rows@.len() ==> ordered(keys.take(i as int)),
        decreases rows@.len() - i,
    {
        proof {
            reveal_strlit("");
            assert(""@ =~= Seq::<char>::empty());
            assert(keys[i - 1] == adapter_key(rows@[i - 1].adapter_id@));
            assert(keys[i as int] == adapter_key(rows@[i as int].adapter_id@));
        }
        if !pair_before(
            (rows[i - 1].adapter_id.as_str(), ""),
            (rows[i].adapter_id.as_str(), ""),
        ) {
            return false;
        }
        proof {
            lemma_ordered_by_neighbours(keys, i as int);
        }
        i = i + 1;
    }
    proof {
        if rows@.len() > 0 {
            assert(keys.take(i as int) =~= keys);
        }
    }
    true
}

fn resources_ordered(rows: &Vec<ResourceRow>) -> (r: bool)
    ensures
        r == ordered(resource_keys(views(rows@))),
{
    let ghost keys = resource_keys(views(rows@));
    let mut i: usize = 1;
    while i < rows.len()
        invariant
            1 <= i,
            i <= rows@.len() || rows@.len() == 0,
            keys == resource_keys(views(rows@)),
            i <= rows@.len() ==> ordered(keys.take(i as int)),
        decreases rows@.len() - i,
    {
        proof {
            let (a, b) = (rows@[i - 1], rows@[i as int]);
            assert(keys[i - 1] == resource_key(a.adapter_id@, a.resource_id@));
            assert(keys[i as int] == resource_key(b.adapter_id@, b.resource_id@));
        }
        if !pair_before(
            (rows[i - 1].adapter_id.as_str(), rows[i - 1].resource_id.as_str()),
            (rows[i].adapter_id.as_str(), rows[i].resource_id.as_str()),
        ) {
            return false;
        }
        proof {
            lemma_ordered_by_neighbours(keys, i as int);
        }
        i = i + 1;
    }
    proof {
        if rows@.len() > 0 {
            assert(keys.take(i as int) =~= keys);
        }
    }
    true
}

/// One more id behind the last keeps ids ascending.
proof fn lemma_ascending_by_neighbours(ids: Seq<int>, i: int)
    requires
        0 < i < ids.len(),
        ascending(ids.take(i)),
        ids[i - 1] < ids[i],
    ensures
        ascending(ids.take(i + 1)),
{
    let (was, now) = (ids.take(i), ids.take(i + 1));
    assert forall|j: int, k: int| 0 <= j < k < now.len() implies #[trigger] now[j]
        < #[trigger] now[k] by {
        if k < i {
            assert(now[j] == was[j] && now[k] == was[k]);
        } else if j < i - 1 {
            assert(was[j] < was[i - 1]);
        }
    }
}

/// Ids that are not ascending next to each other are not ascending.
proof fn lemma_not_ascending(ids: Seq<int>, i: int)
    requires
        0 < i < ids.len(),
        ids[i - 1] >= ids[i],
    ensures
        !ascending(ids),
{
}

fn crawls_ascend(t: &Tables) -> (r: bool)
    ensures
        r == ascending(crawl_ids(t@.crawls)),
{
    let ghost ids = crawl_ids(t@.crawls);
    let mut i: usize = 1;
    while i < t.crawls.len()
        invariant
            1 <= i,
            i <= t.crawls@.len() || t.crawls@.len() == 0,
            ids == crawl_ids(t@.crawls),
            i <= t.crawls@.len() ==> ascending(ids.take(i as int)),
        decreases t.crawls@.len() - i,
    {
        proof {
            assert(ids[i - 1] == t.crawls@[i - 1].crawl_id);
            assert(ids[i as int] == t.crawls@[i as int].crawl_id);
        }
        if t.crawls[i - 1].crawl_id >= t.crawls[i].crawl_id {
            proof {
                lemma_not_ascending(ids, i as int);
            }
            return false;
        }
        proof {
            lemma_ascending_by_neighbours(ids, i as int);
        }
        i = i + 1;
    }
    proof {
        if t.crawls@.len() > 0 {
            assert(ids.take(i as int) =~= ids);
        }
    }
    true
}

fn reads_ascend(t: &Tables) -> (r: bool)
    ensures
        r == ascending(read_ids(t@.reads)),
{
    let ghost ids = read_ids(t@.reads);
    let mut i: usize = 1;
    while i < t.reads.len()
        invariant
            1 <= i,
            i <= t.reads@.len() || t.reads@.len() == 0,
            ids == read_ids(t@.reads),
            i <= t.reads@.len() ==> ascending(ids.take(i as int)),
        decreases t.reads@.len() - i,
    {
        proof {
            assert(ids[i - 1] == t.reads@[i - 1].read_id);
            assert(ids[i as int] == t.reads@[i as int].read_id);
        }
        if t.reads[i - 1].read_id >= t.reads[i].read_id {
            proof {
                lemma_not_ascending(ids, i as int);
            }
            return false;
        }
        proof {
            lemma_ascending_by_neighbours(ids, i as int);
        }
        i = i + 1;
    }
    proof {
        if t.reads@.len() > 0 {
            assert(ids.take(i as int) =~= ids);
        }
    }
    true
}

fn observations_ascend(t: &Tables) -> (r: bool)
    ensures
        r == ascending(observation_ids(t@.observations)),
{
    let ghost ids = observation_ids(t@.observations);
    let mut i: usize = 1;
    while i < t.observations.len()
        invariant
            1 <= i,
            i <= t.observations@.len() || t.observations@.len() == 0,
            ids == observation_ids(t@.observations),
            i <= t.observations@.len() ==> ascending(ids.take(i as int)),
        decreases t.observations@.len() - i,
    {
        proof {
            assert(ids[i - 1] == t.observations@[i - 1].observation_id);
            assert(ids[i as int] == t.observations@[i as int].observation_id);
        }
        if t.observations[i - 1].observation_id >= t.observations[i].observation_id {
            proof {
                lemma_not_ascending(ids, i as int);
            }
            return false;
        }
        proof {
            lemma_ascending_by_neighbours(ids, i as int);
        }
        i = i + 1;
    }
    proof {
        if t.observations@.len() > 0 {
            assert(ids.take(i as int) =~= ids);
        }
    }
    true
}

fn balances_ascend(t: &Tables) -> (r: bool)
    ensures
        r == ascending(balance_ids(t@.balances)),
{
    let ghost ids = balance_ids(t@.balances);
    let mut i: usize = 1;
    while i < t.balances.len()
        invariant
            1 <= i,
            i <= t.balances@.len() || t.balances@.len() == 0,
            ids == balance_ids(t@.balances),
            i <= t.balances@.len() ==> ascending(ids.take(i as int)),
        decreases t.balances@.len() - i,
    {
        proof {
            assert(ids[i - 1] == t.balances@[i - 1].balance_id);
            assert(ids[i as int] == t.balances@[i as int].balance_id);
        }
        if t.balances[i - 1].balance_id >= t.balances[i].balance_id {
            proof {
                lemma_not_ascending(ids, i as int);
            }
            return false;
        }
        proof {
            lemma_ascending_by_neighbours(ids, i as int);
        }
        i = i + 1;
    }
    proof {
        if t.balances@.len() > 0 {
            assert(ids.take(i as int) =~= ids);
        }
    }
    true
}

/// Whether rows are in the order of their keys, and no key is there twice.
pub fn are_in_order(t: &Tables) -> (r: bool)
    ensures
        r == t@.valid(),
{
    adapters_ordered(&t.adapters) && resources_ordered(&t.resources) && crawls_ascend(t)
        && reads_ascend(t) && observations_ascend(t) && balances_ascend(t)
}

} // verus!
