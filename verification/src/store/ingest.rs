//! How a page's records enter the store.

use crate::host::fold::{
    chain_of, law_revisions_number_the_arrivals, lemma_chain_len, ChainKey, Fold,
};
use crate::store::error::StoreError;
use crate::store::hash::{content_digest, content_hash};
use crate::store::live::is_buried;
use crate::store::model::{arrivals_of, ascending, is_crawl, next_id, observation_ids, StoreView};
use crate::store::report::{InputView, SweepInput};
use crate::store::rows::StoredView;
use crate::store::tables::{
    append_observation, high_water, lemma_buried_by_the_mark, lemma_same_arrivals, mark_of,
    repeated, stamp_seen, Append, Store,
};
use crate::text::{same, views};
use crate::wire::record::{Observation, ObservationView};
use vstd::prelude::*;

verus! {

/// What became of a record that a page carried.
pub enum Ingest {
    New,
    Revised,
    Unchanged,
}

/// Whether the provider says of a record what it said last time. A record that
/// is retracted at present is never unchanged: that it is there again is news,
/// though nothing else about it is.
pub open spec fn unchanged(s: StoreView, adapter_id: Seq<char>, o: ObservationView) -> bool {
    let chain = s.chain(adapter_id, o.local_id);
    &&& chain.len() > 0
    &&& !s.buried(adapter_id, o.local_id, chain.len())
    &&& content_digest(chain.last().observation) == content_digest(o)
}

/// The store after one record: a record that is unchanged is only marked as seen
/// again, in the row that its chain ends with; any other is appended under the
/// next revision.
pub open spec fn ingested(s: StoreView, input: InputView, crawl_id: int, o: ObservationView) -> (
    StoreView,
    Ingest,
) {
    let chain = s.chain(input.adapter_id, o.local_id);
    if unchanged(s, input.adapter_id, o) {
        (
            s.with_seen(
                input.adapter_id,
                o.local_id,
                chain.last().revision,
                crawl_id,
                input.hello_derivation,
                Some(input.fingerprint),
            ),
            Ingest::Unchanged,
        )
    } else {
        (
            s.with_observation(
                input.adapter_id,
                chain.len() + 1,
                crawl_id,
                input.hello_derivation,
                Some(input.fingerprint),
                content_digest(o),
                o,
            ),
            if chain.len() == 0 {
                Ingest::New
            } else {
                Ingest::Revised
            },
        )
    }
}

/// Whether a record cannot be stored: it is not unchanged, and the revision that
/// comes next in its chain is stored already. In a coherent profile no record
/// collides.
pub open spec fn collides(s: StoreView, adapter_id: Seq<char>, o: ObservationView) -> bool {
    &&& !unchanged(s, adapter_id, o)
    &&& s.has_revision(adapter_id, o.local_id, s.chain(adapter_id, o.local_id).len() + 1)
}

/// Whether all of these records can be stored, one by one.
pub open spec fn admits_all(
    s: StoreView,
    input: InputView,
    crawl_id: int,
    records: Seq<ObservationView>,
) -> bool
    decreases records.len(),
{
    records.len() == 0 || {
        let front = records.drop_last();
        &&& admits_all(s, input, crawl_id, front)
        &&& !collides(
            ingested_all(s, input, crawl_id, front).0,
            input.adapter_id,
            records.last(),
        )
    }
}

/// How many records of each sort a page brought.
pub struct Counts {
    pub new: nat,
    pub revised: nat,
    pub unchanged: nat,
}

/// The store after these records, one by one, and how many were of each sort.
pub open spec fn ingested_all(
    s: StoreView,
    input: InputView,
    crawl_id: int,
    records: Seq<ObservationView>,
) -> (StoreView, Counts)
    decreases records.len(),
{
    if records.len() == 0 {
        (s, Counts { new: 0, revised: 0, unchanged: 0 })
    } else {
        let (before, counts) = ingested_all(s, input, crawl_id, records.drop_last());
        let (after, what) = ingested(before, input, crawl_id, records.last());
        (
            after,
            match what {
                Ingest::New => Counts { new: counts.new + 1, ..counts },
                Ingest::Revised => Counts { revised: counts.revised + 1, ..counts },
                Ingest::Unchanged => Counts { unchanged: counts.unchanged + 1, ..counts },
            },
        )
    }
}

/// How many records of each sort a page brought.
#[derive(Debug)]
pub struct PageCounts {
    pub new: usize,
    pub revised: usize,
    pub unchanged: usize,
}

impl View for PageCounts {
    type V = Counts;

    open spec fn view(&self) -> Counts {
        Counts {
            new: self.new as nat,
            revised: self.revised as nat,
            unchanged: self.unchanged as nat,
        }
    }
}

/// One more row adds its record to its adapter's arrivals.
pub proof fn lemma_arrivals_grow(rows: Seq<StoredView>, row: StoredView, adapter_id: Seq<char>)
    ensures
        arrivals_of(rows.push(row), adapter_id) == if row.adapter_id == adapter_id {
            arrivals_of(rows, adapter_id).push(row.observation)
        } else {
            arrivals_of(rows, adapter_id)
        },
{
    assert(rows.push(row).drop_last() =~= rows);
}

/// There are no more arrivals than rows.
pub proof fn lemma_arrivals_len(rows: Seq<StoredView>, adapter_id: Seq<char>)
    ensures
        arrivals_of(rows, adapter_id).len() <= rows.len(),
    decreases rows.len(),
{
    if rows.len() > 0 {
        lemma_arrivals_len(rows.drop_last(), adapter_id);
    }
}

/// What ingesting one record leaves as it was, and what it adds.
pub proof fn lemma_ingested(s: StoreView, input: InputView, crawl_id: int, o: ObservationView)
    ensures
        ({
            let after = ingested(s, input, crawl_id, o).0;
            let own = input.adapter_id;
            &&& after.retractions == s.retractions
            &&& after.crawls == s.crawls
            &&& after.adapters == s.adapters
            &&& after.resources == s.resources
            &&& after.reads == s.reads
            &&& after.balances == s.balances
            &&& after.discrepancies == s.discrepancies
            &&& if unchanged(s, own, o) {
                &&& after.observations.len() == s.observations.len()
                &&& observation_ids(after.observations) == observation_ids(s.observations)
                &&& forall|i: int|
                    0 <= i < s.observations.len() ==> (#[trigger] after.observations[i]).observation
                        == s.observations[i].observation
                &&& forall|adapter_id: Seq<char>|
                    #[trigger] arrivals_of(after.observations, adapter_id) == arrivals_of(
                        s.observations,
                        adapter_id,
                    )
            } else {
                &&& after.observations.len() == s.observations.len() + 1
                &&& next_id(observation_ids(after.observations)) == next_id(
                    observation_ids(s.observations),
                ) + 1
                &&& arrivals_of(after.observations, own) == arrivals_of(s.observations, own).push(
                    o,
                )
            }
        }),
{
    let after = ingested(s, input, crawl_id, o).0;
    let own = input.adapter_id;
    if unchanged(s, own, o) {
        assert(observation_ids(after.observations) =~= observation_ids(s.observations));
        assert forall|i: int| 0 <= i < s.observations.len() implies (
        #[trigger] after.observations[i]).observation == s.observations[i].observation by {}
        assert forall|adapter_id: Seq<char>|
            #[trigger] arrivals_of(after.observations, adapter_id) == arrivals_of(
                s.observations,
                adapter_id,
            ) by {
            lemma_same_arrivals(after.observations, s.observations, adapter_id);
        }
    } else {
        lemma_arrivals_grow(s.observations, after.observations.last(), own);
        assert(after.observations == s.observations.push(after.observations.last()));
    }
}

fn ingest_one(
    store: &mut Store,
    input: &SweepInput,
    crawl_id: i64,
    fold: &mut Fold,
    marks: &Vec<(String, u64)>,
    observation: &Observation,
    counts: &mut PageCounts,
) -> (r: Result<(), StoreError>)
    requires
        old(fold)@ == arrivals_of(old(store)@.observations, input@.adapter_id),
        forall|local_id: Seq<char>|
            #[trigger] mark_of(marks@, local_id) == high_water(
                old(store)@.retractions,
                input@.adapter_id,
                local_id,
            ),
        is_crawl(old(store)@.crawls, crawl_id as int),
        next_id(observation_ids(old(store)@.observations)) <= i64::MAX,
        old(store)@.observations.len() < i64::MAX,
        observation@.provenance.adapter_id == input@.adapter_id,
        old(counts).new < usize::MAX,
        old(counts).revised < usize::MAX,
        old(counts).unchanged < usize::MAX,
    ensures
        match r {
            Ok(_) => {
                let (after, what) = ingested(
                    old(store)@,
                    input@,
                    crawl_id as int,
                    observation@,
                );
                &&& !collides(old(store)@, input@.adapter_id, observation@)
                &&& final(store)@ == after
                &&& final(fold)@ == arrivals_of(after.observations, input@.adapter_id)
                &&& final(counts)@ == (match what {
                    Ingest::New => Counts { new: old(counts)@.new + 1, ..old(counts)@ },
                    Ingest::Revised => Counts { revised: old(counts)@.revised + 1, ..old(counts)@ },
                    Ingest::Unchanged => Counts {
                        unchanged: old(counts)@.unchanged + 1,
                        ..old(counts)@
                    },
                })
            },
            Err(e) => {
                &&& collides(old(store)@, input@.adapter_id, observation@)
                &&& final(store)@ == old(store)@
                &&& e@ == repeated()
            },
        },
{
    let ghost s = store@;
    let ghost o = observation@;
    let ghost own = input@.adapter_id;
    let ghost key = ChainKey { adapter_id: own, local_id: o.local_id };
    proof {
        lemma_ingested(s, input@, crawl_id as int, o);
        lemma_arrivals_len(s.observations, own);
        lemma_chain_len(fold@, key);
    }
    let hash = content_hash(observation);
    let adapter_id = input.adapter_id.as_str();
    let local_id = observation.local_id.as_str();
    let mut seen: Option<u64> = None;
    {
        let entries = fold.chain(adapter_id, local_id);
        let ghost chain = chain_of(fold@, key);
        if entries.len() > 0 {
            let head = &entries[entries.len() - 1];
            proof {
                assert(chain.last() == head@);
            }
            let head_hash = content_hash(&head.observation);
            if same(head_hash.as_str(), hash.as_str()) {
                proof {
                    law_revisions_number_the_arrivals(fold@, key);
                    assert(chain[chain.len() - 1].revision <= chain.len());
                }
                seen = Some(head.revision);
            }
        }
    }
    let retracted = match fold.highest_revision(adapter_id, local_id) {
        Some(revision) => {
            proof {
                lemma_buried_by_the_mark(s, own, o.local_id, revision as nat);
                assert(mark_of(marks@, o.local_id) == high_water(s.retractions, own, o.local_id));
            }
            is_buried(marks, local_id, revision)
        },
        None => false,
    };
    match seen {
        Some(revision) if !retracted => {
            proof {
                assert(unchanged(s, own, o));
            }
            if let Err(e) = stamp_seen(
                store,
                adapter_id,
                local_id,
                revision,
                crawl_id,
                input.hello_derivation.as_str(),
                Some(input.fingerprint.as_str()),
            ) {
                return Err(e);
            }
            counts.unchanged = counts.unchanged + 1;
        },
        _ => {
            proof {
                assert(!unchanged(s, own, o));
            }
            let revision = fold.ingest(observation.clone());
            let append = Append {
                adapter_id,
                revision,
                crawl_id,
                derivation: input.hello_derivation.as_str(),
                fingerprint: Some(input.fingerprint.as_str()),
                content_hash: hash.as_str(),
                observation,
            };
            if let Err(e) = append_observation(store, &append) {
                return Err(e);
            }
            if revision == 1 {
                counts.new = counts.new + 1;
            } else {
                counts.revised = counts.revised + 1;
            }
        },
    }
    Ok(())
}

/// Takes a page's records, one by one; all of them, or none if one of them cannot be
/// stored.
pub fn ingest_page(
    store: &mut Store,
    input: &SweepInput,
    crawl_id: i64,
    fold: &mut Fold,
    marks: &Vec<(String, u64)>,
    observations: &Vec<Observation>,
) -> (r: Result<PageCounts, StoreError>)
    requires
        old(fold)@ == arrivals_of(old(store)@.observations, input@.adapter_id),
        forall|local_id: Seq<char>|
            #[trigger] mark_of(marks@, local_id) == high_water(
                old(store)@.retractions,
                input@.adapter_id,
                local_id,
            ),
        is_crawl(old(store)@.crawls, crawl_id as int),
        next_id(observation_ids(old(store)@.observations)) + observations@.len() - 1 <= i64::MAX,
        old(store)@.observations.len() + observations@.len() <= i64::MAX,
        forall|i: int|
            0 <= i < observations@.len() ==> (#[trigger] observations@[i])@.provenance.adapter_id
                == input@.adapter_id,
    ensures
        ({
            let records = views(observations@);
            let admitted = admits_all(old(store)@, input@, crawl_id as int, records);
            match r {
                Ok(counts) => {
                    &&& admitted
                    &&& (final(store)@, counts@) == ingested_all(
                        old(store)@,
                        input@,
                        crawl_id as int,
                        records,
                    )
                    &&& final(fold)@ == arrivals_of(final(store)@.observations, input@.adapter_id)
                    &&& counts@.new + counts@.revised + counts@.unchanged == records.len()
                },
                Err(e) => !admitted && final(store)@ == old(store)@ && e@ == repeated(),
            }
        }),
{
    let ghost s = store@;
    let ghost all = views(observations@);
    proof {
        use_type_invariant(&*store);
    }
    let kept = store.copy_observations();
    let mut counts = PageCounts { new: 0, revised: 0, unchanged: 0 };
    let mut i: usize = 0;
    while i < observations.len()
        invariant
            i <= observations@.len(),
            all == views(observations@),
            (store@, counts@) == ingested_all(s, input@, crawl_id as int, all.take(i as int)),
            admits_all(s, input@, crawl_id as int, all.take(i as int)),
            s == old(store)@,
            store@ == (StoreView { observations: store@.observations, ..s }),
            ascending(observation_ids(s.observations)),
            views(kept@) == s.observations,
            fold@ == arrivals_of(store@.observations, input@.adapter_id),
            forall|local_id: Seq<char>|
                #[trigger] mark_of(marks@, local_id) == high_water(
                    s.retractions,
                    input@.adapter_id,
                    local_id,
                ),
            is_crawl(s.crawls, crawl_id as int),
            s.observations.len() + observations@.len() <= i64::MAX,
            store@.observations.len() <= s.observations.len() + i,
            next_id(observation_ids(s.observations)) + observations@.len() - 1 <= i64::MAX,
            next_id(observation_ids(store@.observations)) <= next_id(
                observation_ids(s.observations),
            ) + i,
            counts.new + counts.revised + counts.unchanged == i,
            forall|i: int|
                0 <= i < observations@.len() ==> (
                #[trigger] observations@[i])@.provenance.adapter_id == input@.adapter_id,
        decreases observations@.len() - i,
    {
        let ghost before = store@;
        proof {
            assert(all.take(i + 1).drop_last() =~= all.take(i as int));
            assert(all.take(i + 1).last() == observations@[i as int]@);
            lemma_ingested(before, input@, crawl_id as int, observations@[i as int]@);
        }
        if let Err(e) = ingest_one(
            store,
            input,
            crawl_id,
            fold,
            marks,
            &observations[i],
            &mut counts,
        ) {
            proof {
                assert(!admits_all(s, input@, crawl_id as int, all.take(i + 1)));
                lemma_admits_none(s, input@, crawl_id as int, all, i + 1);
            }
            store.restore_observations(kept);
            return Err(e);
        }
        proof {
            assert(admits_all(s, input@, crawl_id as int, all.take(i + 1)));
            assert(store@ == ingested_all(s, input@, crawl_id as int, all.take(i + 1)).0);
            assert(store@ == (StoreView { observations: store@.observations, ..before }));
        }
        i = i + 1;
    }
    proof {
        assert(all.take(i as int) =~= all);
    }
    Ok(counts)
}

/// Where some records cannot be stored, neither can more of them.
proof fn lemma_admits_none(
    s: StoreView,
    input: InputView,
    crawl_id: int,
    records: Seq<ObservationView>,
    n: int,
)
    requires
        0 <= n <= records.len(),
        !admits_all(s, input, crawl_id, records.take(n)),
    ensures
        !admits_all(s, input, crawl_id, records),
    decreases records.len() - n,
{
    if n < records.len() {
        assert(records.take(n + 1).drop_last() =~= records.take(n));
        lemma_admits_none(s, input, crawl_id, records, n + 1);
    } else {
        assert(records.take(n) =~= records);
    }
}

/// Records only ever add to the stored ones; no other table changes.
pub proof fn lemma_ingested_all(
    s: StoreView,
    input: InputView,
    crawl_id: int,
    records: Seq<ObservationView>,
)
    ensures
        ({
            let after = ingested_all(s, input, crawl_id, records).0;
            &&& after == (StoreView { observations: after.observations, ..s })
            &&& s.observations.len() <= after.observations.len() <= s.observations.len()
                + records.len()
            &&& forall|i: int|
                0 <= i < s.observations.len() ==> (#[trigger] after.observations[i]).observation
                    == s.observations[i].observation && after.observations[i].revision
                    == s.observations[i].revision
        }),
    decreases records.len(),
{
    if records.len() > 0 {
        lemma_ingested_all(s, input, crawl_id, records.drop_last());
        let before = ingested_all(s, input, crawl_id, records.drop_last()).0;
        let after = ingested_all(s, input, crawl_id, records).0;
        lemma_ingested(before, input, crawl_id, records.last());
        assert(after == (StoreView { observations: after.observations, ..s }));
    }
}

} // verus!
