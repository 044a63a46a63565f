//! Which records are live.
//!
//! A record is live if its chain ends in an active observation and its highest
//! revision exceeds every revision at which it was retracted. Coming back needs
//! no rule of its own: a later sweep appends the next revision.

use crate::host::fold::{chain_of, lemma_chain_grows, live_head, ChainKey, Fold};
use crate::store::model::{arrivals_of, StoreView};
use crate::store::order::{
    key_before, lemma_insert_keeps_order, lemma_one_listing, lemma_place_is, lemma_place_of,
    ordered, pair_before, place_of, Key,
};
use crate::store::tables::{
    find_mark, high_water, lemma_rows_are_arrivals, mark_of, observations_for_adapter,
    retraction_high_water, rows_of, Store,
};
use crate::text::{same, views};
use crate::wire::record::{Observation, ObservationView};
use vstd::prelude::*;

verus! {

/// A live record: the highest revision it has come to, and what its chain ends
/// with.
pub struct LiveView {
    pub local_id: Seq<char>,
    pub revision: nat,
    pub observation: ObservationView,
}

/// Whether a record is live in a resource, given the highest revision at which
/// it was retracted.
pub open spec fn live_at(
    arrivals: Seq<ObservationView>,
    mark: Option<nat>,
    key: ChainKey,
    resource_id: Seq<char>,
) -> Option<LiveView> {
    let revision = chain_of(arrivals, key).len();
    match live_head(arrivals, key) {
        Some(head) => if head.observation.resource_id == resource_id && !is_buried_at(
            mark,
            revision,
        ) {
            Some(
                LiveView { local_id: key.local_id, revision, observation: head.observation },
            )
        } else {
            None
        },
        None => None,
    }
}

/// Whether a retraction up to the mark buries a record that has come to this
/// revision.
pub open spec fn is_buried_at(mark: Option<nat>, revision: nat) -> bool {
    mark matches Some(mark) && mark >= revision
}

/// Whether a retraction currently buries a record. The revision that counts is
/// the highest of its chain, not that of its end: one says what the host has
/// learned, the other how clocks sorted it.
pub fn is_buried(marks: &Vec<(String, u64)>, local_id: &str, revision: u64) -> (r: bool)
    ensures
        r == is_buried_at(mark_of(marks@, local_id@), revision as nat),
{
    match find_mark(marks, local_id) {
        Some(i) => marks[i].1 >= revision,
        None => false,
    }
}

/// What a list of live records says.
pub open spec fn live_views(r: Seq<(String, u64, Observation)>) -> Seq<LiveView> {
    Seq::new(
        r.len(),
        |i: int|
            LiveView { local_id: r[i].0@, revision: r[i].1 as nat, observation: r[i].2@ },
    )
}

/// The keys of live records.
pub open spec fn live_keys(adapter_id: Seq<char>, live: Seq<LiveView>) -> Seq<Key> {
    Seq::new(live.len(), |i: int| Key { first: adapter_id, second: live[i].local_id })
}

/// Whether these are the live records of a resource: each of them once, in the
/// order of their ids, and none besides.
pub open spec fn lists_live(
    live: Seq<LiveView>,
    arrivals: Seq<ObservationView>,
    marks: Seq<(String, u64)>,
    adapter_id: Seq<char>,
    resource_id: Seq<char>,
) -> bool {
    &&& ordered(live_keys(adapter_id, live))
    &&& forall|i: int|
        0 <= i < live.len() ==> live_at(
            arrivals,
            mark_of(marks, (#[trigger] live[i]).local_id),
            ChainKey { adapter_id, local_id: live[i].local_id },
            resource_id,
        ) == Some(live[i])
    &&& forall|local_id: Seq<char>|
        (#[trigger] live_at(
            arrivals,
            mark_of(marks, local_id),
            ChainKey { adapter_id, local_id },
            resource_id,
        )) is Some ==> live_keys(adapter_id, live).contains(
            Key { first: adapter_id, second: local_id },
        )
}

fn insertion_place(
    live: &Vec<(String, u64, Observation)>,
    adapter_id: &str,
    local_id: &str,
) -> (r: usize)
    ensures
        r <= live@.len(),
        r == place_of(
            live_keys(adapter_id@, live_views(live@)),
            Key { first: adapter_id@, second: local_id@ },
        ),
{
    let ghost keys = live_keys(adapter_id@, live_views(live@));
    let ghost key = Key { first: adapter_id@, second: local_id@ };
    let mut i: usize = 0;
    while i < live.len() && pair_before((adapter_id, live[i].0.as_str()), (adapter_id, local_id))
        invariant
            i <= live@.len(),
            keys == live_keys(adapter_id@, live_views(live@)),
            key == (Key { first: adapter_id@, second: local_id@ }),
            forall|k: int| 0 <= k < i ==> key_before(#[trigger] keys[k], key),
        decreases live@.len() - i,
    {
        proof {
            assert(keys[i as int] == (Key { first: adapter_id@, second: live@[i as int].0@ }));
        }
        i = i + 1;
    }
    proof {
        if i < live@.len() {
            assert(keys[i as int] == (Key { first: adapter_id@, second: live@[i as int].0@ }));
        }
        lemma_place_is(keys, key, i as int);
    }
    i
}

/// The live records of a resource, in the order of their ids. What the user is
/// shown and what retractions are derived from is this one list.
pub fn live_set(
    fold: &Fold,
    marks: &Vec<(String, u64)>,
    adapter_id: &str,
    resource_id: &str,
) -> (r: Vec<(String, u64, Observation)>)
    ensures
        lists_live(live_views(r@), fold@, marks@, adapter_id@, resource_id@),
{
    let entries = fold.live_set();
    let mut r: Vec<(String, u64, Observation)> = Vec::new();
    let ghost mut from: Seq<int> = Seq::empty();
    let mut c: usize = 0;
    while c < entries.len()
        invariant
            c <= entries@.len(),
            forall|i: int|
                0 <= i < entries@.len() ==> live_head(fold@, (#[trigger] entries@[i]).key())
                    == Some(entries@[i].head@),
            forall|i: int, j: int|
                0 <= i < j < entries@.len() ==> (#[trigger] entries@[i]).key() != (
                #[trigger] entries@[j]).key(),
            ordered(live_keys(adapter_id@, live_views(r@))),
            forall|i: int|
                0 <= i < r@.len() ==> live_at(
                    fold@,
                    mark_of(marks@, (#[trigger] live_views(r@)[i]).local_id),
                    ChainKey { adapter_id: adapter_id@, local_id: live_views(r@)[i].local_id },
                    resource_id@,
                ) == Some(live_views(r@)[i]),
            from.len() == r@.len(),
            forall|i: int|
                0 <= i < r@.len() ==> 0 <= #[trigger] from[i] < c && entries@[from[i]].key() == (
                ChainKey { adapter_id: adapter_id@, local_id: r@[i].0@ }),
            forall|d: int|
                0 <= d < c && (#[trigger] entries@[d]).key().adapter_id == adapter_id@ && live_at(
                    fold@,
                    mark_of(marks@, entries@[d].key().local_id),
                    entries@[d].key(),
                    resource_id@,
                ) is Some ==> live_keys(adapter_id@, live_views(r@)).contains(
                    Key { first: adapter_id@, second: entries@[d].key().local_id },
                ),
        decreases entries@.len() - c,
    {
        let entry = &entries[c];
        let ghost key = entry.key();
        let ghost was = r@;
        let ghost before = live_keys(adapter_id@, live_views(r@));
        proof {
            assert(entries@[c as int].key() == key);
            assert(chain_of(fold@, key).len() > 0);
        }
        if same(entry.adapter_id, adapter_id) && same(
            entry.head.observation.resource_id.as_str(),
            resource_id,
        ) {
            if let Some(revision) = fold.highest_revision(adapter_id, entry.local_id) {
                if !is_buried(marks, entry.local_id, revision) {
                    let at = insertion_place(&r, adapter_id, entry.local_id);
                    let ghost new = Key { first: adapter_id@, second: key.local_id };
                    proof {
                        assert(key == (ChainKey {
                            adapter_id: adapter_id@,
                            local_id: entry.local_id@,
                        }));
                        if before.contains(new) {
                            let i = choose|i: int| 0 <= i < before.len() && before[i] == new;
                            assert(was[i].0@ == key.local_id);
                            assert(entries@[from[i]].key() == key);
                        }
                        lemma_insert_keeps_order(before, new);
                        lemma_place_of(before, new);
                    }
                    let record = (
                        entry.local_id.to_owned(),
                        revision,
                        entry.head.observation.clone(),
                    );
                    r.insert(at, record);
                    proof {
                        from = from.insert(at as int, c as int);
                        let now = live_keys(adapter_id@, live_views(r@));
                        assert(now =~= before.insert(at as int, new));
                        assert forall|i: int| 0 <= i < r@.len() implies live_at(
                            fold@,
                            mark_of(marks@, (#[trigger] live_views(r@)[i]).local_id),
                            ChainKey {
                                adapter_id: adapter_id@,
                                local_id: live_views(r@)[i].local_id,
                            },
                            resource_id@,
                        ) == Some(live_views(r@)[i]) by {
                            if i < at {
                                assert(live_views(r@)[i] == live_views(was)[i]);
                            } else if i > at {
                                assert(live_views(r@)[i] == live_views(was)[i - 1]);
                            }
                        }
                        assert forall|i: int| 0 <= i < r@.len() implies 0 <= #[trigger] from[i] < c
                            + 1 && entries@[from[i]].key() == (ChainKey {
                            adapter_id: adapter_id@,
                            local_id: r@[i].0@,
                        }) by {}
                        assert forall|d: int|
                            0 <= d < c + 1 && (#[trigger] entries@[d]).key().adapter_id
                                == adapter_id@ && live_at(
                                fold@,
                                mark_of(marks@, entries@[d].key().local_id),
                                entries@[d].key(),
                                resource_id@,
                            ) is Some implies now.contains(
                            Key { first: adapter_id@, second: entries@[d].key().local_id },
                        ) by {
                            let k = Key {
                                first: adapter_id@,
                                second: entries@[d].key().local_id,
                            };
                            if d == c {
                                assert(now[at as int] == k);
                            } else {
                                assert(before.contains(k));
                                let i = choose|i: int| 0 <= i < before.len() && before[i] == k;
                                assert(now[if i < at {
                                    i
                                } else {
                                    i + 1
                                }] == k);
                            }
                        }
                    }
                }
            }
        }
        c = c + 1;
    }
    proof {
        assert forall|local_id: Seq<char>|
            (#[trigger] live_at(
                fold@,
                mark_of(marks@, local_id),
                ChainKey { adapter_id: adapter_id@, local_id },
                resource_id@,
            )) is Some implies live_keys(adapter_id@, live_views(r@)).contains(
            Key { first: adapter_id@, second: local_id },
        ) by {
            let key = ChainKey { adapter_id: adapter_id@, local_id };
            assert(live_head(fold@, key) is Some);
            let d = choose|d: int| 0 <= d < entries@.len() && (#[trigger] entries@[d]).key() == key;
            assert(entries@[d].key() == key);
        }
    }
    r
}

/// The keys of the records that these are the arrivals of, in order, each once.
pub open spec fn sorted_keys(arrivals: Seq<ObservationView>) -> Seq<Key>
    decreases arrivals.len(),
{
    if arrivals.len() == 0 {
        Seq::empty()
    } else {
        let before = sorted_keys(arrivals.drop_last());
        let o = arrivals.last();
        let key = Key { first: o.provenance.adapter_id, second: o.local_id };
        if before.contains(key) {
            before
        } else {
            before.insert(place_of(before, key) as int, key)
        }
    }
}

/// What a store holds live of a record in a resource.
pub open spec fn live_entry(
    s: StoreView,
    adapter_id: Seq<char>,
    resource_id: Seq<char>,
    local_id: Seq<char>,
) -> Option<LiveView> {
    live_at(
        arrivals_of(s.observations, adapter_id),
        high_water(s.retractions, adapter_id, local_id),
        ChainKey { adapter_id, local_id },
        resource_id,
    )
}

/// The live records of an adapter under these keys, in their order.
pub open spec fn live_among(
    s: StoreView,
    adapter_id: Seq<char>,
    resource_id: Seq<char>,
    keys: Seq<Key>,
) -> Seq<LiveView>
    decreases keys.len(),
{
    if keys.len() == 0 {
        Seq::empty()
    } else {
        let before = live_among(s, adapter_id, resource_id, keys.drop_last());
        let key = keys.last();
        match live_entry(s, adapter_id, resource_id, key.second) {
            Some(entry) if key.first == adapter_id => before.push(entry),
            _ => before,
        }
    }
}

/// The live records of a resource, in the order of their ids.
pub open spec fn live_listing(s: StoreView, adapter_id: Seq<char>, resource_id: Seq<char>) -> Seq<
    LiveView,
> {
    live_among(s, adapter_id, resource_id, sorted_keys(arrivals_of(s.observations, adapter_id)))
}

proof fn lemma_sorted_keys(arrivals: Seq<ObservationView>)
    ensures
        ordered(sorted_keys(arrivals)),
        forall|key: Key|
            #[trigger] sorted_keys(arrivals).contains(key) <==> chain_of(
                arrivals,
                ChainKey { adapter_id: key.first, local_id: key.second },
            ).len() > 0,
    decreases arrivals.len(),
{
    if arrivals.len() > 0 {
        let front = arrivals.drop_last();
        let o = arrivals.last();
        let new = Key { first: o.provenance.adapter_id, second: o.local_id };
        let before = sorted_keys(front);
        let now = sorted_keys(arrivals);
        lemma_sorted_keys(front);
        lemma_place_of(before, new);
        if !before.contains(new) {
            lemma_insert_keeps_order(before, new);
        }
        assert(front.push(o) =~= arrivals);
        let p = place_of(before, new) as int;
        assert forall|key: Key| #[trigger] now.contains(key) <==> chain_of(
            arrivals,
            ChainKey { adapter_id: key.first, local_id: key.second },
        ).len() > 0 by {
            let chain = ChainKey { adapter_id: key.first, local_id: key.second };
            lemma_chain_grows(front, o, chain);
            assert(before.contains(key) <==> chain_of(front, chain).len() > 0);
            if before.contains(new) {
                assert(now == before);
            } else {
                if before.contains(key) {
                    let i = choose|i: int| 0 <= i < before.len() && before[i] == key;
                    assert(now[if i < p {
                        i
                    } else {
                        i + 1
                    }] == key);
                }
                if key == new {
                    assert(now[p] == key);
                }
                if now.contains(key) && key != new {
                    let i = choose|i: int| 0 <= i < now.len() && now[i] == key;
                    assert(before[if i < p {
                        i
                    } else {
                        i - 1
                    }] == key);
                }
            }
        }
    }
}

proof fn lemma_live_among(
    s: StoreView,
    adapter_id: Seq<char>,
    resource_id: Seq<char>,
    keys: Seq<Key>,
)
    requires
        ordered(keys),
    ensures
        ({
            let live = live_among(s, adapter_id, resource_id, keys);
            &&& ordered(live_keys(adapter_id, live))
            &&& forall|i: int|
                0 <= i < live.len() ==> live_entry(
                    s,
                    adapter_id,
                    resource_id,
                    (#[trigger] live[i]).local_id,
                ) == Some(live[i])
            &&& forall|key: Key|
                #[trigger] live_keys(adapter_id, live).contains(key) <==> keys.contains(key)
                    && key.first == adapter_id && live_entry(
                    s,
                    adapter_id,
                    resource_id,
                    key.second,
                ) is Some
        }),
    decreases keys.len(),
{
    let live = live_among(s, adapter_id, resource_id, keys);
    let now = live_keys(adapter_id, live);
    if keys.len() > 0 {
        let front = keys.drop_last();
        let last = keys.last();
        assert(forall|i: int| 0 <= i < front.len() ==> front[i] == keys[i]);
        assert(keys[keys.len() - 1] == last);
        lemma_live_among(s, adapter_id, resource_id, front);
        let before = live_among(s, adapter_id, resource_id, front);
        let was = live_keys(adapter_id, before);
        let entry = live_entry(s, adapter_id, resource_id, last.second);
        let listed = entry is Some && last.first == adapter_id;
        if listed {
            assert(now =~= was.push(last));
            assert forall|i: int, j: int| 0 <= i < j < now.len() implies key_before(
                #[trigger] now[i],
                #[trigger] now[j],
            ) by {
                if j < was.len() {
                    assert(now[i] == was[i] && now[j] == was[j]);
                } else {
                    assert(now[i] == was[i]);
                    assert(was.contains(was[i]));
                    let k = choose|k: int| 0 <= k < front.len() && front[k] == was[i];
                    assert(key_before(keys[k], keys[keys.len() - 1]));
                }
            }
        }
        assert forall|key: Key| #[trigger] now.contains(key) <==> keys.contains(key) && key.first
            == adapter_id && live_entry(s, adapter_id, resource_id, key.second) is Some by {
            assert(was.contains(key) <==> front.contains(key) && key.first == adapter_id
                && live_entry(s, adapter_id, resource_id, key.second) is Some);
            if keys.contains(key) {
                let k = choose|k: int| 0 <= k < keys.len() && keys[k] == key;
                if k < front.len() {
                    assert(front[k] == key);
                }
            }
            if front.contains(key) {
                let k = choose|k: int| 0 <= k < front.len() && front[k] == key;
                assert(keys[k] == key);
            }
            if listed {
                if now.contains(key) {
                    let k = choose|k: int| 0 <= k < now.len() && now[k] == key;
                    if k < was.len() {
                        assert(was[k] == key);
                    }
                }
                if was.contains(key) {
                    let k = choose|k: int| 0 <= k < was.len() && was[k] == key;
                    assert(now[k] == key);
                }
                assert(now[was.len() as int] == last);
            }
        }
    } else {
        assert(now =~= Seq::<Key>::empty());
    }
}

/// The listing has every live record of the resource once, in the order of their
/// ids, and nothing else.
pub proof fn law_the_listing_is_the_live_set(
    s: StoreView,
    adapter_id: Seq<char>,
    resource_id: Seq<char>,
)
    ensures
        ({
            let live = live_listing(s, adapter_id, resource_id);
            &&& ordered(live_keys(adapter_id, live))
            &&& forall|i: int|
                0 <= i < live.len() ==> live_entry(
                    s,
                    adapter_id,
                    resource_id,
                    (#[trigger] live[i]).local_id,
                ) == Some(live[i])
            &&& forall|local_id: Seq<char>|
                (#[trigger] live_entry(s, adapter_id, resource_id, local_id)) is Some
                    <==> live_keys(adapter_id, live).contains(
                    Key { first: adapter_id, second: local_id },
                )
        }),
{
    let arrivals = arrivals_of(s.observations, adapter_id);
    let keys = sorted_keys(arrivals);
    lemma_sorted_keys(arrivals);
    lemma_live_among(s, adapter_id, resource_id, keys);
    let live = live_listing(s, adapter_id, resource_id);
    assert forall|local_id: Seq<char>|
        (#[trigger] live_entry(s, adapter_id, resource_id, local_id)) is Some <==> live_keys(
            adapter_id,
            live,
        ).contains(Key { first: adapter_id, second: local_id }) by {
        let key = Key { first: adapter_id, second: local_id };
        assert(keys.contains(key) <==> chain_of(
            arrivals,
            ChainKey { adapter_id, local_id },
        ).len() > 0);
        assert(live_keys(adapter_id, live).contains(key) <==> keys.contains(key) && live_entry(
            s,
            adapter_id,
            resource_id,
            local_id,
        ) is Some);
    }
}

/// What lists the live records is the listing.
pub proof fn lemma_lists_live(
    live: Seq<LiveView>,
    s: StoreView,
    marks: Seq<(String, u64)>,
    adapter_id: Seq<char>,
    resource_id: Seq<char>,
)
    requires
        lists_live(live, arrivals_of(s.observations, adapter_id), marks, adapter_id, resource_id),
        forall|local_id: Seq<char>|
            #[trigger] mark_of(marks, local_id) == high_water(s.retractions, adapter_id, local_id),
    ensures
        live == live_listing(s, adapter_id, resource_id),
{
    law_the_listing_is_the_live_set(s, adapter_id, resource_id);
    let other = live_listing(s, adapter_id, resource_id);
    let (a, b) = (live_keys(adapter_id, live), live_keys(adapter_id, other));
    let arrivals = arrivals_of(s.observations, adapter_id);
    assert forall|key: Key| a.contains(key) <==> b.contains(key) by {
        if key.first == adapter_id {
            let id = key.second;
            assert(mark_of(marks, id) == high_water(s.retractions, adapter_id, id));
            assert(live_entry(s, adapter_id, resource_id, id) == live_at(
                arrivals,
                mark_of(marks, id),
                ChainKey { adapter_id, local_id: id },
                resource_id,
            ));
            if a.contains(key) {
                let i = choose|i: int| 0 <= i < a.len() && a[i] == key;
                assert(live[i].local_id == id);
            }
        } else {
            if a.contains(key) {
                let i = choose|i: int| 0 <= i < a.len() && a[i] == key;
            }
            if b.contains(key) {
                let i = choose|i: int| 0 <= i < b.len() && b[i] == key;
            }
        }
    }
    lemma_one_listing(a, b);
    assert(live.len() == a.len() && other.len() == b.len());
    assert forall|i: int| 0 <= i < live.len() implies live[i] == other[i] by {
        assert(a[i] == b[i]);
        assert(live[i].local_id == other[i].local_id);
        let id = live[i].local_id;
        assert(mark_of(marks, id) == high_water(s.retractions, adapter_id, id));
    }
    assert(live =~= other);
}

/// Replays the stored records of an adapter.
pub fn replay(store: &Store, adapter_id: &str) -> (r: Fold)
    requires
        store@.observations.len() < u64::MAX,
    ensures
        r@ == arrivals_of(store@.observations, adapter_id@),
{
    let rows = observations_for_adapter(store, adapter_id);
    let ghost all = views(rows@);
    let ghost arrivals = arrivals_of(store@.observations, adapter_id@);
    proof {
        lemma_rows_are_arrivals(store@.observations, adapter_id@);
        lemma_rows_len(store@.observations, adapter_id@);
    }
    let mut fold = Fold::new();
    let mut i: usize = 0;
    proof {
        assert(fold@ =~= arrivals.take(0));
    }
    while i < rows.len()
        invariant
            i <= rows@.len(),
            rows@.len() < u64::MAX,
            all == views(rows@),
            arrivals.len() == rows@.len(),
            forall|k: int| 0 <= k < all.len() ==> arrivals[k] == (#[trigger] all[k]).observation,
            fold@ == arrivals.take(i as int),
        decreases rows@.len() - i,
    {
        proof {
            assert(all[i as int] == rows@[i as int]@);
            assert(arrivals.take(i + 1) =~= arrivals.take(i as int).push(arrivals[i as int]));
        }
        fold.ingest(rows[i].observation.clone());
        i = i + 1;
    }
    proof {
        assert(arrivals.take(i as int) =~= arrivals);
    }
    fold
}

proof fn lemma_rows_len(rows: Seq<crate::store::rows::StoredView>, adapter_id: Seq<char>)
    ensures
        rows_of(rows, adapter_id, None).len() <= rows.len(),
    decreases rows.len(),
{
    if rows.len() > 0 {
        lemma_rows_len(rows.drop_last(), adapter_id);
    }
}

/// The live records of a resource.
pub fn live_records(store: &Store, adapter_id: &str, resource_id: &str) -> (r: Vec<
    (String, u64, Observation),
>)
    requires
        store@.observations.len() < u64::MAX,
    ensures
        live_views(r@) == live_listing(store@, adapter_id@, resource_id@),
{
    let fold = replay(store, adapter_id);
    let marks = retraction_high_water(store, adapter_id);
    let r = live_set(&fold, &marks, adapter_id, resource_id);
    proof {
        lemma_lists_live(live_views(r@), store@, marks@, adapter_id@, resource_id@);
    }
    r
}

} // verus!
