//! Revision assignment and the live-set fold.
//!
//! A fold takes observations in the order in which the host received them.
//! Each gets a revision: its place among the observations of its own key.
//! A key's chain, though, is kept in the order of `(received_at, surface,
//! arrival)`, so the two orders can disagree; both are right, they answer
//! different questions.

use crate::text::{before, lemma_text_order, same, text_before, views};
use crate::wire::record::{Observation, ObservationState, ObservationView};
use vstd::prelude::*;

verus! {

/// What identifies a chain: the adapter, and the adapter's id of the record.
pub struct ChainKey {
    pub adapter_id: Seq<char>,
    pub local_id: Seq<char>,
}

/// The key of an observation.
pub open spec fn key_of(o: ObservationView) -> ChainKey {
    ChainKey { adapter_id: o.provenance.adapter_id, local_id: o.local_id }
}

/// One observation with the revision it was given on arrival.
#[derive(Debug)]
pub struct RevisionedObservation {
    pub revision: u64,
    pub observation: Observation,
}

/// What a revisioned observation says.
pub struct RevisionedView {
    pub revision: nat,
    pub observation: ObservationView,
}

impl View for RevisionedObservation {
    type V = RevisionedView;

    open spec fn view(&self) -> RevisionedView {
        RevisionedView { revision: self.revision as nat, observation: self.observation@ }
    }
}

/// Whether `a` sorts after `b` by `(received_at, surface)`, each bytewise.
pub open spec fn sorts_after(a: ObservationView, b: ObservationView) -> bool {
    ||| text_before(b.provenance.received_at, a.provenance.received_at)
    ||| a.provenance.received_at == b.provenance.received_at && text_before(b.surface, a.surface)
}

/// Where a new arrival goes in a chain: in front of the first entry that sorts
/// after it.
pub open spec fn insertion_point(chain: Seq<RevisionedView>, new: ObservationView) -> nat
    decreases chain.len(),
{
    if chain.len() == 0 || sorts_after(chain[0].observation, new) {
        0
    } else {
        1 + insertion_point(chain.skip(1), new)
    }
}

/// The chain of a key after these arrivals: its observations in order, each
/// with the revision that says which arrival of the key it was.
pub open spec fn chain_of(arrivals: Seq<ObservationView>, key: ChainKey) -> Seq<RevisionedView>
    decreases arrivals.len(),
{
    if arrivals.len() == 0 {
        Seq::empty()
    } else {
        let chain = chain_of(arrivals.drop_last(), key);
        if key_of(arrivals.last()) == key {
            extended(chain, arrivals.last())
        } else {
            chain
        }
    }
}

/// A chain after one more arrival of its key.
pub open spec fn extended(chain: Seq<RevisionedView>, new: ObservationView) -> Seq<RevisionedView> {
    chain.insert(
        insertion_point(chain, new) as int,
        RevisionedView { revision: chain.len() + 1, observation: new },
    )
}

/// The observation that a key's chain ends with, if it is active.
pub open spec fn live_head(arrivals: Seq<ObservationView>, key: ChainKey) -> Option<RevisionedView> {
    let chain = chain_of(arrivals, key);
    if chain.len() > 0 && chain.last().observation.state == ObservationState::Active {
        Some(chain.last())
    } else {
        None
    }
}

/// The insertion point splits a chain.
pub proof fn lemma_insertion_point(chain: Seq<RevisionedView>, new: ObservationView)
    ensures
        insertion_point(chain, new) <= chain.len(),
        forall|k: int|
            0 <= k < insertion_point(chain, new) ==> !sorts_after(
                (#[trigger] chain[k]).observation,
                new,
            ),
        insertion_point(chain, new) < chain.len() ==> sorts_after(
            chain[insertion_point(chain, new) as int].observation,
            new,
        ),
    decreases chain.len(),
{
    if chain.len() > 0 && !sorts_after(chain[0].observation, new) {
        let rest = chain.skip(1);
        lemma_insertion_point(rest, new);
        assert forall|k: int| 0 <= k < insertion_point(chain, new) implies !sorts_after(
            (#[trigger] chain[k]).observation,
            new,
        ) by {
            if k > 0 {
                assert(chain[k] == rest[k - 1]);
            }
        }
        if insertion_point(chain, new) < chain.len() {
            assert(chain[insertion_point(chain, new) as int] == rest[insertion_point(rest, new)
                as int]);
        }
    }
}

/// An index with nothing that sorts after in front of it, and something that
/// does behind it, is the insertion point.
proof fn lemma_insertion_point_is(chain: Seq<RevisionedView>, new: ObservationView, at: int)
    requires
        0 <= at <= chain.len(),
        forall|k: int| 0 <= k < at ==> !sorts_after((#[trigger] chain[k]).observation, new),
        at < chain.len() ==> sorts_after(chain[at].observation, new),
    ensures
        insertion_point(chain, new) == at,
    decreases at,
{
    if at > 0 {
        let rest = chain.skip(1);
        assert(!sorts_after(chain[0].observation, new));
        assert forall|k: int| 0 <= k < at - 1 implies !sorts_after(
            (#[trigger] rest[k]).observation,
            new,
        ) by {
            assert(rest[k] == chain[k + 1]);
        }
        lemma_insertion_point_is(rest, new, at - 1);
    }
}

struct Chain {
    adapter_id: String,
    local_id: String,
    entries: Vec<RevisionedObservation>,
}

impl Chain {
    spec fn key(self) -> ChainKey {
        ChainKey { adapter_id: self.adapter_id@, local_id: self.local_id@ }
    }
}

/// Accumulates observations into per-key chains.
///
/// The key is the adapter together with the `local_id`: an id is unique only
/// within one adapter, so two adapters that use the same one do not meet.
pub struct Fold {
    chains: Vec<Chain>,
    arrivals: Ghost<Seq<ObservationView>>,
}

impl View for Fold {
    type V = Seq<ObservationView>;

    /// The observations ingested so far, in arrival order.
    closed spec fn view(&self) -> Seq<ObservationView> {
        self.arrivals@
    }
}

impl Fold {
    #[verifier::type_invariant]
    spec fn coherent(self) -> bool {
        chains_coherent(self.chains@, self.arrivals@)
    }

    /// A fold of nothing.
    pub fn new() -> (r: Fold)
        ensures
            r@ == Seq::<ObservationView>::empty(),
    {
        Fold { chains: Vec::new(), arrivals: Ghost(Seq::empty()) }
    }

    /// The index of a key's chain.
    fn find(&self, adapter_id: &str, local_id: &str) -> (r: Option<usize>)
        ensures
            match r {
                Some(c) => c < self.chains@.len() && self.chains@[c as int].key() == (ChainKey {
                    adapter_id: adapter_id@,
                    local_id: local_id@,
                }),
                None => forall|c: int|
                    0 <= c < self.chains@.len() ==> (#[trigger] self.chains@[c]).key() != (
                    ChainKey { adapter_id: adapter_id@, local_id: local_id@ }),
            },
    {
        let ghost key = ChainKey { adapter_id: adapter_id@, local_id: local_id@ };
        let mut c: usize = 0;
        while c < self.chains.len()
            invariant
                c <= self.chains@.len(),
                key == (ChainKey { adapter_id: adapter_id@, local_id: local_id@ }),
                forall|d: int| 0 <= d < c ==> (#[trigger] self.chains@[d]).key() != key,
            decreases self.chains@.len() - c,
        {
            if same(self.chains[c].adapter_id.as_str(), adapter_id) && same(
                self.chains[c].local_id.as_str(),
                local_id,
            ) {
                return Some(c);
            }
            c = c + 1;
        }
        None
    }

    /// Takes one observation, in the order in which the host received it, and
    /// returns its revision: one more than the key's observations so far.
    pub fn ingest(&mut self, observation: Observation) -> (r: u64)
        requires
            old(self)@.len() < u64::MAX,
        ensures
            final(self)@ == old(self)@.push(observation@),
            r == chain_of(old(self)@, key_of(observation@)).len() + 1,
    {
        let found = self.find(
            observation.provenance.adapter_id.as_str(),
            observation.local_id.as_str(),
        );
        let mut fold = Fold::new();
        core::mem::swap(self, &mut fold);
        proof {
            use_type_invariant(&fold);
        }
        let Fold { mut chains, arrivals } = fold;
        let ghost before = arrivals@;
        let ghost new = observation@;
        let ghost key = key_of(new);
        let ghost after = before.push(new);
        let ghost kept = chains@;
        proof {
            lemma_chain_len(before, key);
            assert(after.drop_last() =~= before);
        }
        let revision: u64;
        match found {
            Some(c) => {
                let mut chain = chains.swap_remove(c);
                let ghost without = chains@;
                revision = chain.entries.len() as u64 + 1;
                insert_entry(&mut chain.entries, RevisionedObservation { revision, observation });
                chains.push(chain);
                proof {
                    assert(chains@.drop_last() =~= without);
                    lemma_chain_replaced(kept, without, chains@, c as int, before, new);
                }
            },
            None => {
                revision = 1;
                let adapter_id = observation.provenance.adapter_id.clone();
                let local_id = observation.local_id.clone();
                let mut entries: Vec<RevisionedObservation> = Vec::new();
                entries.push(RevisionedObservation { revision, observation });
                chains.push(Chain { adapter_id, local_id, entries });
                proof {
                    assert(chains@.drop_last() =~= kept);
                    lemma_chain_added(kept, chains@, before, new);
                }
            },
        }
        *self = Fold { chains, arrivals: Ghost(after) };
        revision
    }

    /// The full chain of a key, in order; empty if nothing came for it. Nothing
    /// is ever dropped from a chain, so a tombstone does not end one.
    pub fn chain(&self, adapter_id: &str, local_id: &str) -> (r: &[RevisionedObservation])
        ensures
            views(r@) == chain_of(self@, ChainKey { adapter_id: adapter_id@, local_id: local_id@ }),
    {
        proof {
            use_type_invariant(self);
        }
        match self.find(adapter_id, local_id) {
            Some(c) => self.chains[c].entries.as_slice(),
            None => {
                proof {
                    let key = ChainKey { adapter_id: adapter_id@, local_id: local_id@ };
                    assert(chain_of(self.arrivals@, key).len() == 0);
                    assert(views(Seq::<RevisionedObservation>::empty()) =~= chain_of(
                        self.arrivals@,
                        key,
                    ));
                }
                &[]
            },
        }
    }
}

/// One entry of the live set: a key, and the observation its chain ends with.
pub struct LiveEntry<'a> {
    pub adapter_id: &'a str,
    pub local_id: &'a str,
    pub head: &'a RevisionedObservation,
}

impl<'a> LiveEntry<'a> {
    /// The key of the entry.
    pub open spec fn key(self) -> ChainKey {
        ChainKey { adapter_id: self.adapter_id@, local_id: self.local_id@ }
    }
}

impl Fold {
    /// The highest revision of a key: the newest thing the host has learned
    /// about it, which is not always what its chain ends with.
    pub fn highest_revision(&self, adapter_id: &str, local_id: &str) -> (r: Option<u64>)
        ensures
            ({
                let n = chain_of(
                    self@,
                    ChainKey { adapter_id: adapter_id@, local_id: local_id@ },
                ).len();
                match r {
                    Some(revision) => n > 0 && revision == n,
                    None => n == 0,
                }
            }),
    {
        let entries = self.chain(adapter_id, local_id);
        let ghost key = ChainKey { adapter_id: adapter_id@, local_id: local_id@ };
        let ghost chain = chain_of(self@, key);
        proof {
            law_revisions_number_the_arrivals(self@, key);
        }
        let mut highest: u64 = 0;
        let mut i: usize = 0;
        while i < entries.len()
            invariant
                i <= entries@.len(),
                chain == views(entries@),
                forall|k: int|
                    0 <= k < chain.len() ==> 1 <= (#[trigger] chain[k]).revision <= chain.len(),
                forall|k: int| 0 <= k < i ==> (#[trigger] chain[k]).revision <= highest,
                highest <= chain.len(),
                chain.len() > 0 ==> holds_revision(chain, chain.len()),
            decreases entries@.len() - i,
        {
            proof {
                assert(chain[i as int] == entries@[i as int]@);
            }
            if entries[i].revision > highest {
                highest = entries[i].revision;
            }
            i = i + 1;
        }
        if entries.len() == 0 {
            None
        } else {
            proof {
                assert(holds_revision(chain, chain.len()));
                let k = choose|k: int|
                    0 <= k < chain.len() && (#[trigger] chain[k]).revision == chain.len();
                assert(chain[k].revision <= highest);
            }
            Some(highest)
        }
    }

    /// Every key that an observation came for, each once.
    pub fn keys(&self) -> (r: Vec<(&str, &str)>)
        ensures
            forall|key: ChainKey|
                (#[trigger] chain_of(self@, key)).len() > 0 <==> exists|i: int|
                    0 <= i < r@.len() && key == (ChainKey {
                        adapter_id: (#[trigger] r@[i]).0@,
                        local_id: r@[i].1@,
                    }),
            forall|i: int, j: int|
                0 <= i < j < r@.len() ==> (#[trigger] r@[i]).0@ != (#[trigger] r@[j]).0@
                    || r@[i].1@ != r@[j].1@,
    {
        proof {
            use_type_invariant(self);
        }
        let mut r: Vec<(&str, &str)> = Vec::new();
        let mut c: usize = 0;
        while c < self.chains.len()
            invariant
                c <= self.chains@.len(),
                r@.len() == c,
                forall|i: int|
                    0 <= i < c ==> (#[trigger] r@[i]).0@ == self.chains@[i].adapter_id@ && r@[i].1@
                        == self.chains@[i].local_id@,
            decreases self.chains@.len() - c,
        {
            r.push((self.chains[c].adapter_id.as_str(), self.chains[c].local_id.as_str()));
            c = c + 1;
        }
        proof {
            assert forall|key: ChainKey| (#[trigger] chain_of(self@, key)).len() > 0 <==> exists|
                i: int,
            |
                0 <= i < r@.len() && key == (ChainKey {
                    adapter_id: (#[trigger] r@[i]).0@,
                    local_id: r@[i].1@,
                }) by {
                if chain_of(self@, key).len() > 0 {
                    let i = choose|i: int|
                        0 <= i < self.chains@.len() && (#[trigger] self.chains@[i]).key() == key;
                    assert(r@[i].0@ == self.chains@[i].adapter_id@);
                }
                if exists|i: int|
                    0 <= i < r@.len() && key == (ChainKey {
                        adapter_id: (#[trigger] r@[i]).0@,
                        local_id: r@[i].1@,
                    }) {
                    let i = choose|i: int|
                        0 <= i < r@.len() && key == (ChainKey {
                            adapter_id: (#[trigger] r@[i]).0@,
                            local_id: r@[i].1@,
                        });
                    assert(self.chains@[i].key() == key);
                    assert(views(self.chains@[i].entries@).len() > 0);
                }
            }
            assert forall|i: int, j: int| 0 <= i < j < r@.len() implies (#[trigger] r@[i]).0@ != (
            #[trigger] r@[j]).0@ || r@[i].1@ != r@[j].1@ by {
                assert(self.chains@[i].key() != self.chains@[j].key());
            }
        }
        r
    }

    /// The live set: for every key, what its chain ends with, where that is
    /// active. A tombstoned end keeps a key out, and a later active one brings
    /// it back.
    pub fn live_set(&self) -> (r: Vec<LiveEntry<'_>>)
        ensures
            forall|i: int|
                0 <= i < r@.len() ==> live_head(self@, (#[trigger] r@[i]).key()) == Some(
                    r@[i].head@,
                ),
            forall|key: ChainKey|
                (#[trigger] live_head(self@, key)) is Some ==> exists|i: int|
                    0 <= i < r@.len() && (#[trigger] r@[i]).key() == key,
            forall|i: int, j: int|
                0 <= i < j < r@.len() ==> (#[trigger] r@[i]).key() != (#[trigger] r@[j]).key(),
    {
        proof {
            use_type_invariant(self);
        }
        let mut r: Vec<LiveEntry<'_>> = Vec::new();
        let mut c: usize = 0;
        let ghost mut from: Seq<int> = Seq::empty();
        while c < self.chains.len()
            invariant
                chains_coherent(self.chains@, self.arrivals@),
                c <= self.chains@.len(),
                from.len() == r@.len(),
                forall|i: int|
                    0 <= i < r@.len() ==> 0 <= #[trigger] from[i] < c && r@[i].key()
                        == self.chains@[from[i]].key(),
                forall|i: int, j: int|
                    0 <= i < j < r@.len() ==> #[trigger] from[i] < #[trigger] from[j],
                forall|i: int|
                    0 <= i < r@.len() ==> live_head(self@, (#[trigger] r@[i]).key()) == Some(
                        r@[i].head@,
                    ),
                forall|d: int|
                    0 <= d < c && live_head(self@, (#[trigger] self.chains@[d]).key()) is Some
                        ==> from.contains(d),
            decreases self.chains@.len() - c,
        {
            let chain = &self.chains[c];
            proof {
                let v = views(chain.entries@);
                assert(v == chain_of(self@, chain.key()));
                assert(v.last() == chain.entries@.last()@);
            }
            let head = &chain.entries[chain.entries.len() - 1];
            if head.observation.state == ObservationState::Active {
                let ghost was = from;
                r.push(
                    LiveEntry {
                        adapter_id: chain.adapter_id.as_str(),
                        local_id: chain.local_id.as_str(),
                        head,
                    },
                );
                proof {
                    from = from.push(c as int);
                    assert(from.last() == c as int);
                    assert forall|d: int|
                        0 <= d <= c && live_head(
                            self@,
                            (#[trigger] self.chains@[d]).key(),
                        ) is Some implies from.contains(d) by {
                        if d < c {
                            assert(was.contains(d));
                            let i = choose|i: int| 0 <= i < was.len() && was[i] == d;
                            assert(from[i] == d);
                        } else {
                            assert(from[from.len() - 1] == d);
                        }
                    }
                }
            }
            c = c + 1;
        }
        proof {
            assert forall|key: ChainKey| (#[trigger] live_head(self@, key)) is Some implies exists|
                i: int,
            |
                0 <= i < r@.len() && (#[trigger] r@[i]).key() == key by {
                assert(chain_of(self@, key).len() > 0);
                let d = choose|d: int|
                    0 <= d < self.chains@.len() && (#[trigger] self.chains@[d]).key() == key;
                assert(from.contains(d));
                let i = choose|i: int| 0 <= i < from.len() && from[i] == d;
                assert(r@[i].key() == key);
            }
            assert forall|i: int, j: int| 0 <= i < j < r@.len() implies (#[trigger] r@[i]).key()
                != (#[trigger] r@[j]).key() by {
                assert(from[i] < from[j]);
                assert(self.chains@[from[i]].key() != self.chains@[from[j]].key());
            }
        }
        r
    }
}

/// Whether a chain has an entry with the revision `n`.
pub open spec fn holds_revision(chain: Seq<RevisionedView>, n: nat) -> bool {
    exists|k: int| 0 <= k < chain.len() && (#[trigger] chain[k]).revision == n
}

/// The revisions in a chain are the numbers from one to its length, each once.
pub proof fn law_revisions_number_the_arrivals(arrivals: Seq<ObservationView>, key: ChainKey)
    ensures
        ({
            let chain = chain_of(arrivals, key);
            &&& forall|k: int|
                0 <= k < chain.len() ==> 1 <= (#[trigger] chain[k]).revision <= chain.len()
            &&& forall|j: int, k: int|
                0 <= j < k < chain.len() ==> (#[trigger] chain[j]).revision != (
                #[trigger] chain[k]).revision
            &&& forall|n: nat| 1 <= n <= chain.len() ==> #[trigger] holds_revision(chain, n)
        }),
    decreases arrivals.len(),
{
    if arrivals.len() > 0 {
        let old_arrivals = arrivals.drop_last();
        law_revisions_number_the_arrivals(old_arrivals, key);
        let was = chain_of(old_arrivals, key);
        let chain = chain_of(arrivals, key);
        if key_of(arrivals.last()) == key {
            let p = insertion_point(was, arrivals.last()) as int;
            lemma_insertion_point(was, arrivals.last());
            assert(chain.len() == was.len() + 1);
            assert forall|k: int| 0 <= k < chain.len() implies (#[trigger] chain[k]) == (if k < p {
                was[k]
            } else if k == p {
                RevisionedView { revision: was.len() + 1, observation: arrivals.last() }
            } else {
                was[k - 1]
            }) by {}
            assert forall|n: nat| 1 <= n <= chain.len() implies #[trigger] holds_revision(
                chain,
                n,
            ) by {
                if n == chain.len() {
                    assert(chain[p].revision == n);
                } else {
                    assert(holds_revision(was, n));
                    let j = choose|j: int| 0 <= j < was.len() && (#[trigger] was[j]).revision == n;
                    let k = if j < p {
                        j
                    } else {
                        j + 1
                    };
                    assert(chain[k].revision == n);
                }
            }
        }
    }
}

/// A chain is in the order of `(received_at, surface)`, and among equals in the
/// order of arrival.
pub proof fn law_chain_is_ordered(arrivals: Seq<ObservationView>, key: ChainKey)
    ensures
        ({
            let chain = chain_of(arrivals, key);
            forall|j: int, k: int|
                0 <= j < k < chain.len() ==> {
                    ||| sorts_after((#[trigger] chain[k]).observation, chain[j].observation)
                    ||| !sorts_after((#[trigger] chain[j]).observation, chain[k].observation)
                        && chain[j].revision < chain[k].revision
                }
        }),
    decreases arrivals.len(),
{
    if arrivals.len() > 0 {
        let was = chain_of(arrivals.drop_last(), key);
        let chain = chain_of(arrivals, key);
        let new = arrivals.last();
        law_chain_is_ordered(arrivals.drop_last(), key);
        law_revisions_number_the_arrivals(arrivals.drop_last(), key);
        if key_of(new) == key {
            let p = insertion_point(was, new) as int;
            lemma_insertion_point(was, new);
            assert forall|j: int, k: int| 0 <= j < k < chain.len() implies {
                ||| sorts_after((#[trigger] chain[k]).observation, chain[j].observation)
                ||| !sorts_after((#[trigger] chain[j]).observation, chain[k].observation)
                    && chain[j].revision < chain[k].revision
            } by {
                if j < p && k < p {
                    assert(chain[j] == was[j] && chain[k] == was[k]);
                } else if j < p && k == p {
                    assert(chain[j] == was[j]);
                } else if j < p {
                    assert(chain[j] == was[j] && chain[k] == was[k - 1]);
                } else if j == p {
                    // Everything behind the insertion point sorts after the new arrival.
                    assert(chain[k] == was[k - 1]);
                    let (first, far) = (was[p].observation, was[k - 1].observation);
                    if p < k - 1 {
                        lemma_sorts_after_order(first, far, new);
                    }
                } else {
                    assert(chain[j] == was[j - 1] && chain[k] == was[k - 1]);
                }
            }
        }
    }
}

/// If the earlier of two entries sorts after a third, so does the later one.
proof fn lemma_sorts_after_order(first: ObservationView, far: ObservationView, new: ObservationView)
    requires
        sorts_after(first, new),
        sorts_after(far, first) || !sorts_after(first, far),
    ensures
        sorts_after(far, new),
{
    let (a, b, c) = (
        first.provenance.received_at,
        far.provenance.received_at,
        new.provenance.received_at,
    );
    lemma_text_order(a, b, c);
    lemma_text_order(b, a, c);
    lemma_text_order(c, a, b);
    lemma_text_order(c, b, a);
    lemma_text_order(first.surface, far.surface, new.surface);
    lemma_text_order(far.surface, first.surface, new.surface);
    lemma_text_order(new.surface, first.surface, far.surface);
    lemma_text_order(new.surface, far.surface, first.surface);
}

/// Nothing is ever dropped: an arrival keeps every entry of every chain.
pub proof fn law_chains_only_grow(
    arrivals: Seq<ObservationView>,
    new: ObservationView,
    key: ChainKey,
    entry: RevisionedView,
)
    requires
        chain_of(arrivals, key).contains(entry),
    ensures
        chain_of(arrivals.push(new), key).contains(entry),
{
    lemma_other_chains(arrivals, new, key);
    if key_of(new) == key {
        let was = chain_of(arrivals, key);
        let k = choose|k: int| 0 <= k < was.len() && was[k] == entry;
        let p = insertion_point(was, new) as int;
        lemma_insertion_point(was, new);
        let at = if k < p {
            k
        } else {
            k + 1
        };
        assert(extended(was, new)[at] == entry);
    }
}

/// An arrival touches its own key alone: what another adapter says under the
/// same `local_id` neither overwrites nor removes anything.
pub proof fn law_keys_do_not_meet(
    arrivals: Seq<ObservationView>,
    new: ObservationView,
    key: ChainKey,
)
    requires
        key_of(new) != key,
    ensures
        chain_of(arrivals.push(new), key) == chain_of(arrivals, key),
        live_head(arrivals.push(new), key) == live_head(arrivals, key),
{
    lemma_other_chains(arrivals, new, key);
}

/// A tombstone is not the end: whatever a chain held, a new arrival that
/// nothing sorts after decides alone whether the key is live.
pub proof fn law_the_latest_arrival_decides(arrivals: Seq<ObservationView>, new: ObservationView)
    requires
        forall|k: int|
            0 <= k < chain_of(arrivals, key_of(new)).len() ==> !sorts_after(
                (#[trigger] chain_of(arrivals, key_of(new))[k]).observation,
                new,
            ),
    ensures
        live_head(arrivals.push(new), key_of(new)) == if new.state == ObservationState::Active {
            Some(
                RevisionedView {
                    revision: chain_of(arrivals, key_of(new)).len() + 1,
                    observation: new,
                },
            )
        } else {
            None
        },
{
    let was = chain_of(arrivals, key_of(new));
    lemma_other_chains(arrivals, new, key_of(new));
    lemma_insertion_point_is(was, new, was.len() as int);
}

/// Puts a new arrival in its place.
fn insert_entry(entries: &mut Vec<RevisionedObservation>, entry: RevisionedObservation)
    requires
        entry.revision == old(entries)@.len() + 1,
    ensures
        views(final(entries)@) == extended(views(old(entries)@), entry.observation@),
{
    let ghost chain = views(entries@);
    let ghost new = entry.observation@;
    let ghost v = entry@;
    let ghost was = entries@;
    let mut at: usize = 0;
    while at < entries.len() && !entry_sorts_after(&entries[at].observation, &entry.observation)
        invariant
            at <= entries@.len(),
            chain == views(entries@),
            new == entry.observation@,
            forall|k: int| 0 <= k < at ==> !sorts_after((#[trigger] chain[k]).observation, new),
        decreases entries@.len() - at,
    {
        proof {
            assert(chain[at as int].observation == entries@[at as int].observation@);
        }
        at = at + 1;
    }
    proof {
        if at < entries@.len() {
            assert(chain[at as int].observation == entries@[at as int].observation@);
        }
        lemma_insertion_point_is(chain, new, at as int);
    }
    entries.insert(at, entry);
    proof {
        assert(views(entries@) =~= chain.insert(at as int, v));
    }
}

/// Whether the first observation sorts after the second.
fn entry_sorts_after(a: &Observation, b: &Observation) -> (r: bool)
    ensures
        r == sorts_after(a@, b@),
{
    let (p, q) = (a.provenance.received_at.as_str(), b.provenance.received_at.as_str());
    before(q, p) || (same(p, q) && before(b.surface.as_str(), a.surface.as_str()))
}

/// What holds of the chains of a fold.
spec fn chains_coherent(chains: Seq<Chain>, arrivals: Seq<ObservationView>) -> bool {
    &&& forall|c: int|
        0 <= c < chains.len() ==> {
            let chain = #[trigger] chains[c];
            &&& views(chain.entries@) == chain_of(arrivals, chain.key())
            &&& chain.entries@.len() > 0
        }
    &&& forall|c: int, d: int|
        0 <= c < d < chains.len() ==> (#[trigger] chains[c]).key() != (#[trigger] chains[d]).key()
    &&& forall|key: ChainKey|
        (#[trigger] chain_of(arrivals, key)).len() > 0 ==> exists|c: int|
            0 <= c < chains.len() && (#[trigger] chains[c]).key() == key
}

/// A new arrival leaves the other keys' chains as they were.
proof fn lemma_other_chains(arrivals: Seq<ObservationView>, new: ObservationView, key: ChainKey)
    ensures
        key_of(new) != key ==> chain_of(arrivals.push(new), key) == chain_of(arrivals, key),
        key_of(new) == key ==> chain_of(arrivals.push(new), key) == extended(
            chain_of(arrivals, key),
            new,
        ),
{
    assert(arrivals.push(new).drop_last() =~= arrivals);
}

/// One chain was taken out, extended, and put back at the end.
proof fn lemma_chain_replaced(
    kept: Seq<Chain>,
    without: Seq<Chain>,
    now: Seq<Chain>,
    c: int,
    arrivals: Seq<ObservationView>,
    new: ObservationView,
)
    requires
        chains_coherent(kept, arrivals),
        0 <= c < kept.len(),
        kept[c].key() == key_of(new),
        without == kept.update(c, kept.last()).drop_last(),
        now.len() == kept.len(),
        now.drop_last() == without,
        now.last().key() == kept[c].key(),
        views(now.last().entries@) == extended(views(kept[c].entries@), new),
    ensures
        chains_coherent(now, arrivals.push(new)),
{
    let after = arrivals.push(new);
    let last = now.len() - 1;
    lemma_other_chains(arrivals, new, key_of(new));
    assert forall|i: int| 0 <= i < last implies (#[trigger] now[i]) == (if i == c {
        kept[last]
    } else {
        kept[i]
    }) by {
        assert(now[i] == without[i]);
    }
    assert forall|i: int| 0 <= i < now.len() implies ({
        let chain = #[trigger] now[i];
        &&& views(chain.entries@) == chain_of(after, chain.key())
        &&& chain.entries@.len() > 0
    }) by {
        lemma_other_chains(arrivals, new, now[i].key());
        if i < last {
            let j = if i == c {
                last
            } else {
                i
            };
            assert(now[i] == kept[j]);
            assert(kept[j].key() != kept[c].key());
        } else {
            lemma_insertion_point(views(kept[c].entries@), new);
            assert(views(now.last().entries@).len() > 0);
        }
    }
    assert forall|i: int, d: int| 0 <= i < d < now.len() implies (#[trigger] now[i]).key() != (
    #[trigger] now[d]).key() by {
        let j = if i == c {
            last
        } else {
            i
        };
        let k = if d == last {
            c
        } else if d == c {
            last
        } else {
            d
        };
        assert(now[i] == kept[j]);
        assert(now[d].key() == kept[k].key());
        assert(j != k);
        assert(kept[j].key() != kept[k].key());
    }
    assert forall|key: ChainKey| (#[trigger] chain_of(after, key)).len() > 0 implies exists|i: int|
        0 <= i < now.len() && (#[trigger] now[i]).key() == key by {
        lemma_other_chains(arrivals, new, key);
        if key == key_of(new) {
            assert(now[last].key() == key);
        } else {
            assert(chain_of(arrivals, key).len() > 0);
            let j = choose|j: int| 0 <= j < kept.len() && (#[trigger] kept[j]).key() == key;
            let i = if j == last {
                c
            } else {
                j
            };
            assert(now[i].key() == key);
        }
    }
}

/// A chain for a new key was added.
proof fn lemma_chain_added(
    kept: Seq<Chain>,
    now: Seq<Chain>,
    arrivals: Seq<ObservationView>,
    new: ObservationView,
)
    requires
        chains_coherent(kept, arrivals),
        forall|c: int| 0 <= c < kept.len() ==> (#[trigger] kept[c]).key() != key_of(new),
        now.len() == kept.len() + 1,
        now.drop_last() == kept,
        now.last().key() == key_of(new),
        now.last().entries@.len() == 1,
        now.last().entries@[0]@ == (RevisionedView { revision: 1, observation: new }),
    ensures
        chains_coherent(now, arrivals.push(new)),
{
    let after = arrivals.push(new);
    let last = now.len() - 1;
    assert(chain_of(arrivals, key_of(new)).len() == 0);
    lemma_other_chains(arrivals, new, key_of(new));
    assert forall|i: int| 0 <= i < last implies (#[trigger] now[i]) == kept[i] by {
        assert(now[i] == now.drop_last()[i]);
    }
    assert forall|i: int| 0 <= i < now.len() implies ({
        let chain = #[trigger] now[i];
        &&& views(chain.entries@) == chain_of(after, chain.key())
        &&& chain.entries@.len() > 0
    }) by {
        lemma_other_chains(arrivals, new, now[i].key());
        if i == last {
            assert(views(now.last().entries@) =~= extended(chain_of(arrivals, key_of(new)), new));
        } else {
            assert(now[i] == kept[i]);
        }
    }
    assert forall|key: ChainKey| (#[trigger] chain_of(after, key)).len() > 0 implies exists|i: int|
        0 <= i < now.len() && (#[trigger] now[i]).key() == key by {
        lemma_other_chains(arrivals, new, key);
        if key == key_of(new) {
            assert(now[last].key() == key);
        } else {
            let j = choose|j: int| 0 <= j < kept.len() && (#[trigger] kept[j]).key() == key;
            assert(now[j].key() == key);
        }
    }
}

/// A chain has no more entries than there were arrivals.
pub proof fn lemma_chain_len(arrivals: Seq<ObservationView>, key: ChainKey)
    ensures
        chain_of(arrivals, key).len() <= arrivals.len(),
    decreases arrivals.len(),
{
    if arrivals.len() > 0 {
        lemma_chain_len(arrivals.drop_last(), key);
        lemma_insertion_point(chain_of(arrivals.drop_last(), key), arrivals.last());
    }
}

/// An arrival adds one entry to its own chain, and none to another.
pub proof fn lemma_chain_grows(arrivals: Seq<ObservationView>, new: ObservationView, key: ChainKey)
    ensures
        chain_of(arrivals.push(new), key).len() == chain_of(arrivals, key).len() + (if key_of(new)
            == key {
            1int
        } else {
            0int
        }),
{
    lemma_other_chains(arrivals, new, key);
    lemma_insertion_point(chain_of(arrivals, key), new);
}

/// An arrival that nothing in its chain sorts after is what the chain ends with.
pub proof fn lemma_latest_is_last(arrivals: Seq<ObservationView>, new: ObservationView)
    requires
        forall|k: int|
            0 <= k < chain_of(arrivals, key_of(new)).len() ==> !sorts_after(
                (#[trigger] chain_of(arrivals, key_of(new))[k]).observation,
                new,
            ),
    ensures
        chain_of(arrivals.push(new), key_of(new)).last().observation == new,
{
    let was = chain_of(arrivals, key_of(new));
    lemma_other_chains(arrivals, new, key_of(new));
    lemma_insertion_point_is(was, new, was.len() as int);
}

/// What a chain holds after an arrival it held before, or it is the arrival.
pub proof fn lemma_entry_is_old_or_new(arrivals: Seq<ObservationView>, new: ObservationView)
    ensures
        ({
            let was = chain_of(arrivals, key_of(new));
            let now = chain_of(arrivals.push(new), key_of(new));
            forall|k: int|
                0 <= k < now.len() ==> was.contains(#[trigger] now[k]) || now[k] == (
                RevisionedView { revision: was.len() + 1, observation: new })
        }),
{
    let was = chain_of(arrivals, key_of(new));
    let now = chain_of(arrivals.push(new), key_of(new));
    lemma_other_chains(arrivals, new, key_of(new));
    lemma_insertion_point(was, new);
    let p = insertion_point(was, new) as int;
    assert forall|k: int| 0 <= k < now.len() implies was.contains(#[trigger] now[k]) || now[k] == (
    RevisionedView { revision: was.len() + 1, observation: new }) by {
        if k < p {
            assert(now[k] == was[k]);
        } else if k > p {
            assert(now[k] == was[k - 1]);
        }
    }
}

} // verus!
