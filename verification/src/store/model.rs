//! What the store holds, and what each change makes of it.

use crate::host::fold::{chain_of, key_of, ChainKey};
use crate::store::order::{ordered, place_of, Key};
use crate::store::rows::{
    AdapterView, BalanceRowView, CrawlView, DiscrepancyView, ReadView, ResourceView,
    RetractionView, StoredBalanceView, StoredView,
};
use crate::wire::page::PageRequest;
use crate::wire::record::{BalanceView, ObservationView};
use vstd::prelude::*;

verus! {

/// The tables of a profile.
pub struct StoreView {
    pub adapters: Seq<AdapterView>,
    pub resources: Seq<ResourceView>,
    pub crawls: Seq<CrawlView>,
    pub observations: Seq<StoredView>,
    pub retractions: Seq<RetractionView>,
    pub reads: Seq<ReadView>,
    pub balances: Seq<StoredBalanceView>,
    pub discrepancies: Seq<DiscrepancyView>,
}

/// The key of an adapter's row: its id alone.
pub open spec fn adapter_key(adapter_id: Seq<char>) -> Key {
    Key { first: adapter_id, second: Seq::empty() }
}

/// The key of a resource's row.
pub open spec fn resource_key(adapter_id: Seq<char>, resource_id: Seq<char>) -> Key {
    Key { first: adapter_id, second: resource_id }
}

/// The keys of the adapters.
pub open spec fn adapter_keys(rows: Seq<AdapterView>) -> Seq<Key> {
    Seq::new(rows.len(), |i: int| adapter_key(rows[i].adapter_id))
}

/// The keys of the resources.
pub open spec fn resource_keys(rows: Seq<ResourceView>) -> Seq<Key> {
    Seq::new(rows.len(), |i: int| resource_key(rows[i].adapter_id, rows[i].resource_id))
}

/// The records that are filed under one adapter, in the order in which the host
/// received them.
pub open spec fn arrivals_of(rows: Seq<StoredView>, adapter_id: Seq<char>) -> Seq<ObservationView>
    decreases rows.len(),
{
    if rows.len() == 0 {
        Seq::empty()
    } else {
        let before = arrivals_of(rows.drop_last(), adapter_id);
        if rows.last().adapter_id == adapter_id {
            before.push(rows.last().observation)
        } else {
            before
        }
    }
}

/// How many revisions a record had once a row was stored.
pub open spec fn revisions_at(rows: Seq<StoredView>, i: int) -> nat {
    let own = rows[i].adapter_id;
    chain_of(arrivals_of(rows.take(i + 1), own), key_of(rows[i].observation)).len()
}

/// Whether ids grow from row to row.
pub open spec fn ascending(ids: Seq<int>) -> bool {
    forall|i: int, j: int| 0 <= i < j < ids.len() ==> #[trigger] ids[i] < #[trigger] ids[j]
}

/// The id of the next row: one more than the last, and one where there is none.
pub open spec fn next_id(ids: Seq<int>) -> int {
    if ids.len() == 0 {
        1
    } else {
        ids.last() + 1
    }
}

/// The ids of the crawls.
pub open spec fn crawl_ids(rows: Seq<CrawlView>) -> Seq<int> {
    Seq::new(rows.len(), |i: int| rows[i].crawl_id)
}

/// The ids of the stored records.
pub open spec fn observation_ids(rows: Seq<StoredView>) -> Seq<int> {
    Seq::new(rows.len(), |i: int| rows[i].observation_id)
}

/// The ids of the reads.
pub open spec fn read_ids(rows: Seq<ReadView>) -> Seq<int> {
    Seq::new(rows.len(), |i: int| rows[i].read_id)
}

/// The ids of the stored balance lines.
pub open spec fn balance_ids(rows: Seq<StoredBalanceView>) -> Seq<int> {
    Seq::new(rows.len(), |i: int| rows[i].balance_id)
}

/// Whether a crawl with this id was ever opened.
pub open spec fn is_crawl(crawls: Seq<CrawlView>, crawl_id: int) -> bool {
    exists|i: int| 0 <= i < crawls.len() && (#[trigger] crawls[i]).crawl_id == crawl_id
}

/// Whether a read with this id was ever opened.
pub open spec fn is_read(reads: Seq<ReadView>, read_id: int) -> bool {
    exists|i: int| 0 <= i < reads.len() && (#[trigger] reads[i]).read_id == read_id
}

/// The row that a record's revision is stored in.
pub open spec fn is_row_of(
    row: StoredView,
    adapter_id: Seq<char>,
    local_id: Seq<char>,
    revision: nat,
) -> bool {
    &&& row.adapter_id == adapter_id
    &&& row.observation.local_id == local_id
    &&& row.revision == revision
}

impl StoreView {
    /// A profile that nothing was ever written to.
    pub open spec fn empty() -> StoreView {
        StoreView {
            adapters: Seq::empty(),
            resources: Seq::empty(),
            crawls: Seq::empty(),
            observations: Seq::empty(),
            retractions: Seq::empty(),
            reads: Seq::empty(),
            balances: Seq::empty(),
            discrepancies: Seq::empty(),
        }
    }

    /// What holds of every profile: no key is there twice, and rows come in the
    /// order of their keys, or of their ids where they have no other key.
    pub open spec fn valid(self) -> bool {
        &&& ordered(adapter_keys(self.adapters))
        &&& ordered(resource_keys(self.resources))
        &&& ascending(crawl_ids(self.crawls))
        &&& ascending(read_ids(self.reads))
        &&& ascending(observation_ids(self.observations))
        &&& ascending(balance_ids(self.balances))
    }

    /// Whether every record is filed under the adapter that it came from.
    pub open spec fn filed_at_home(self) -> bool {
        forall|i: int|
            0 <= i < self.observations.len() ==> (#[trigger] self.observations[i]).adapter_id
                == self.observations[i].observation.provenance.adapter_id
    }

    /// Whether the stored revisions of every record number its arrivals.
    pub open spec fn numbered(self) -> bool {
        forall|i: int|
            0 <= i < self.observations.len() ==> (#[trigger] self.observations[i]).revision
                == revisions_at(self.observations, i)
    }

    /// Whether no record is retracted at a revision that it has not come to.
    pub open spec fn retracted_in_time(self) -> bool {
        forall|i: int|
            0 <= i < self.retractions.len() ==> {
                let row = #[trigger] self.retractions[i];
                row.revision <= self.chain(row.adapter_id, row.local_id).len()
            }
    }

    /// Whether every balance line is from a read that is there.
    pub open spec fn lines_were_read(self) -> bool {
        forall|i: int|
            0 <= i < self.balances.len() ==> is_read(
                self.reads,
                (#[trigger] self.balances[i]).read_id,
            )
    }

    /// Whether whatever a row refers to is there.
    pub open spec fn refers_to_rows(self) -> bool {
        &&& forall|i: int|
            0 <= i < self.resources.len() ==> self.has_adapter(
                (#[trigger] self.resources[i]).adapter_id,
            )
        &&& forall|i: int|
            0 <= i < self.observations.len() ==> {
                let row = #[trigger] self.observations[i];
                is_crawl(self.crawls, row.crawl_id) && is_crawl(self.crawls, row.last_seen_crawl)
            }
        &&& forall|i: int|
            0 <= i < self.retractions.len() ==> is_crawl(
                self.crawls,
                (#[trigger] self.retractions[i]).crawl_id,
            )
        &&& self.lines_were_read()
        &&& forall|i: int|
            0 <= i < self.discrepancies.len() ==> is_crawl(
                self.crawls,
                (#[trigger] self.discrepancies[i]).crawl_id,
            )
    }

    /// What holds besides of every profile that only connecting, reading and sweeping
    /// have written to: its rows fit together. A profile that was changed by other
    /// means is read all the same.
    pub open spec fn coherent(self) -> bool {
        &&& self.valid()
        &&& self.filed_at_home()
        &&& self.numbered()
        &&& self.retracted_in_time()
        &&& self.refers_to_rows()
    }

    /// Whether a revision of a record is stored.
    pub open spec fn has_revision(
        self,
        adapter_id: Seq<char>,
        local_id: Seq<char>,
        revision: nat,
    ) -> bool {
        exists|i: int|
            0 <= i < self.observations.len() && is_row_of(
                #[trigger] self.observations[i],
                adapter_id,
                local_id,
                revision,
            )
    }

    /// Where an adapter's row is, or would be.
    pub open spec fn adapter_place(self, adapter_id: Seq<char>) -> nat {
        place_of(adapter_keys(self.adapters), adapter_key(adapter_id))
    }

    /// Whether an adapter is connected.
    pub open spec fn has_adapter(self, adapter_id: Seq<char>) -> bool {
        let p = self.adapter_place(adapter_id) as int;
        p < self.adapters.len() && self.adapters[p].adapter_id == adapter_id
    }

    /// An adapter was connected, or connected again under another command line.
    pub open spec fn with_adapter(self, adapter_id: Seq<char>, argv: Seq<Seq<char>>) -> StoreView {
        let p = self.adapter_place(adapter_id) as int;
        if self.has_adapter(adapter_id) {
            StoreView {
                adapters: self.adapters.update(p, AdapterView { argv, ..self.adapters[p] }),
                ..self
            }
        } else {
            StoreView {
                adapters: self.adapters.insert(
                    p,
                    AdapterView { adapter_id, argv, local_id_derivation: None, needs_reauth: false },
                ),
                ..self
            }
        }
    }

    /// An adapter's derivation was noted. An adapter that is not connected has
    /// no place for it.
    pub open spec fn with_derivation(self, adapter_id: Seq<char>, derivation: Seq<char>) -> StoreView {
        let p = self.adapter_place(adapter_id) as int;
        if self.has_adapter(adapter_id) {
            StoreView {
                adapters: self.adapters.update(
                    p,
                    AdapterView { local_id_derivation: Some(derivation), ..self.adapters[p] },
                ),
                ..self
            }
        } else {
            self
        }
    }

    /// It was noted whether the user has to renew a credential.
    pub open spec fn with_reauth(self, adapter_id: Seq<char>, needs: bool) -> StoreView {
        let p = self.adapter_place(adapter_id) as int;
        if self.has_adapter(adapter_id) {
            StoreView {
                adapters: self.adapters.update(
                    p,
                    AdapterView { needs_reauth: needs, ..self.adapters[p] },
                ),
                ..self
            }
        } else {
            self
        }
    }

    /// Where a resource's row is, or would be.
    pub open spec fn resource_place(self, adapter_id: Seq<char>, resource_id: Seq<char>) -> nat {
        place_of(resource_keys(self.resources), resource_key(adapter_id, resource_id))
    }

    /// Whether a resource was ever listed.
    pub open spec fn has_resource(self, adapter_id: Seq<char>, resource_id: Seq<char>) -> bool {
        let p = self.resource_place(adapter_id, resource_id) as int;
        p < self.resources.len() && self.resources[p].adapter_id == adapter_id
            && self.resources[p].resource_id == resource_id
    }

    /// A resource's row.
    pub open spec fn resource_row(self, adapter_id: Seq<char>, resource_id: Seq<char>) -> Option<
        ResourceView,
    > {
        if self.has_resource(adapter_id, resource_id) {
            Some(self.resources[self.resource_place(adapter_id, resource_id) as int])
        } else {
            None
        }
    }

    /// A resource was listed.
    pub open spec fn with_resource(
        self,
        adapter_id: Seq<char>,
        resource_id: Seq<char>,
        kind: Seq<char>,
        label: Seq<char>,
    ) -> StoreView {
        let p = self.resource_place(adapter_id, resource_id) as int;
        if self.has_resource(adapter_id, resource_id) {
            StoreView {
                resources: self.resources.update(
                    p,
                    ResourceView { kind, label, ..self.resources[p] },
                ),
                ..self
            }
        } else {
            StoreView {
                resources: self.resources.insert(
                    p,
                    ResourceView {
                        adapter_id,
                        resource_id,
                        kind,
                        label,
                        fingerprint: None,
                        last_provider_id: None,
                    },
                ),
                ..self
            }
        }
    }

    /// A resource's definition was noted, and its vantage where one is given.
    pub open spec fn with_definition(
        self,
        adapter_id: Seq<char>,
        resource_id: Seq<char>,
        fingerprint: Seq<char>,
        provider_id: Option<Seq<char>>,
    ) -> StoreView {
        let p = self.resource_place(adapter_id, resource_id) as int;
        if self.has_resource(adapter_id, resource_id) {
            StoreView {
                resources: self.resources.update(
                    p,
                    ResourceView {
                        fingerprint: Some(fingerprint),
                        last_provider_id: match provider_id {
                            Some(id) => Some(id),
                            None => self.resources[p].last_provider_id,
                        },
                        ..self.resources[p]
                    },
                ),
                ..self
            }
        } else {
            self
        }
    }

    /// A crawl was opened. No earlier crawl of the resource keeps a place to
    /// resume from.
    pub open spec fn with_crawl(
        self,
        adapter_id: Seq<char>,
        resource_id: Seq<char>,
        started_at: Seq<char>,
        start_page: Option<PageRequest>,
        derivation: Seq<char>,
        fingerprint: Option<Seq<char>>,
    ) -> StoreView {
        StoreView {
            crawls: Seq::new(
                self.crawls.len(),
                |i: int| retired(self.crawls[i], adapter_id, resource_id),
            ).push(
                CrawlView {
                    crawl_id: next_id(crawl_ids(self.crawls)),
                    adapter_id,
                    resource_id,
                    started_at,
                    start_page,
                    next_page: start_page,
                    local_id_derivation: derivation,
                    fingerprint,
                    drained: false,
                    complete: false,
                    disqualified_reason: None,
                },
            ),
            ..self
        }
    }

    /// A crawl's place to resume from was moved.
    pub open spec fn with_cursor(self, crawl_id: int, next_page: Option<PageRequest>) -> StoreView {
        StoreView {
            crawls: Seq::new(
                self.crawls.len(),
                |i: int|
                    {
                        let row = self.crawls[i];
                        if row.crawl_id == crawl_id {
                            CrawlView { next_page, ..row }
                        } else {
                            row
                        }
                    },
            ),
            ..self
        }
    }

    /// A crawl came to its verdict. A drained one keeps no place to resume from.
    pub open spec fn with_verdict(
        self,
        crawl_id: int,
        drained: bool,
        complete: bool,
        reason: Option<Seq<char>>,
    ) -> StoreView {
        StoreView {
            crawls: Seq::new(
                self.crawls.len(),
                |i: int|
                    {
                        let row = self.crawls[i];
                        if row.crawl_id == crawl_id {
                            CrawlView {
                                drained,
                                complete,
                                disqualified_reason: reason,
                                next_page: if drained {
                                    None
                                } else {
                                    row.next_page
                                },
                                ..row
                            }
                        } else {
                            row
                        }
                    },
            ),
            ..self
        }
    }

    /// A record was appended.
    pub open spec fn with_observation(
        self,
        adapter_id: Seq<char>,
        revision: nat,
        crawl_id: int,
        derivation: Seq<char>,
        fingerprint: Option<Seq<char>>,
        content_hash: Seq<char>,
        observation: ObservationView,
    ) -> StoreView {
        StoreView {
            observations: self.observations.push(
                StoredView {
                    observation_id: next_id(observation_ids(self.observations)),
                    adapter_id,
                    revision,
                    crawl_id,
                    last_seen_crawl: crawl_id,
                    derivation,
                    fingerprint,
                    content_hash,
                    observation,
                },
            ),
            ..self
        }
    }

    /// A stored record was seen again: which crawl saw it, and under what
    /// software rules.
    pub open spec fn with_seen(
        self,
        adapter_id: Seq<char>,
        local_id: Seq<char>,
        revision: nat,
        crawl_id: int,
        derivation: Seq<char>,
        fingerprint: Option<Seq<char>>,
    ) -> StoreView {
        StoreView {
            observations: Seq::new(
                self.observations.len(),
                |i: int|
                    {
                        let row = self.observations[i];
                        if is_row_of(row, adapter_id, local_id, revision) {
                            StoredView { last_seen_crawl: crawl_id, derivation, fingerprint, ..row }
                        } else {
                            row
                        }
                    },
            ),
            ..self
        }
    }

    /// A record was retracted.
    pub open spec fn with_retraction(self, row: RetractionView) -> StoreView {
        StoreView { retractions: self.retractions.push(row), ..self }
    }

    /// A discrepancy was noted.
    pub open spec fn with_discrepancy(self, row: DiscrepancyView) -> StoreView {
        StoreView { discrepancies: self.discrepancies.push(row), ..self }
    }

    /// A read was opened.
    pub open spec fn with_read(self, adapter_id: Seq<char>, started_at: Seq<char>) -> StoreView {
        StoreView {
            reads: self.reads.push(
                ReadView { read_id: next_id(read_ids(self.reads)), adapter_id, started_at },
            ),
            ..self
        }
    }

    /// A balance line was appended.
    pub open spec fn with_balance(
        self,
        read_id: int,
        adapter_id: Seq<char>,
        outcome: Seq<char>,
        balance: BalanceView,
    ) -> StoreView {
        StoreView {
            balances: self.balances.push(
                StoredBalanceView {
                    balance_id: next_id(balance_ids(self.balances)),
                    read_id,
                    adapter_id,
                    outcome,
                    balance,
                },
            ),
            ..self
        }
    }

    /// A record's chain.
    pub open spec fn chain(self, adapter_id: Seq<char>, local_id: Seq<char>) -> Seq<
        crate::host::fold::RevisionedView,
    > {
        chain_of(arrivals_of(self.observations, adapter_id), ChainKey { adapter_id, local_id })
    }

    /// Whether a retraction buries a record that has come to this revision.
    pub open spec fn buried(self, adapter_id: Seq<char>, local_id: Seq<char>, revision: nat) -> bool {
        exists|i: int|
            0 <= i < self.retractions.len() && (#[trigger] self.retractions[i]).adapter_id
                == adapter_id && self.retractions[i].local_id == local_id
                && self.retractions[i].revision >= revision
    }

    /// The newest crawl of a resource that did not drain and still has a place to
    /// resume from.
    pub open spec fn resumable(self, adapter_id: Seq<char>, resource_id: Seq<char>) -> Option<
        CrawlView,
    > {
        newest_resumable(self.crawls, adapter_id, resource_id)
    }

    /// The newest read of an adapter.
    pub open spec fn latest_read(self, adapter_id: Seq<char>) -> Option<int> {
        newest_read(self.reads, adapter_id)
    }

    /// The balance lines of a resource as they are shown, oldest first.
    pub open spec fn balance_lines(self, adapter_id: Seq<char>, resource_id: Seq<char>) -> Seq<
        BalanceRowView,
    > {
        lines_of(self.balances, adapter_id, resource_id, self.latest_read(adapter_id))
    }
}

/// A crawl after a newer one of its resource was opened.
pub open spec fn retired(
    crawl: CrawlView,
    adapter_id: Seq<char>,
    resource_id: Seq<char>,
) -> CrawlView {
    if crawl.adapter_id == adapter_id && crawl.resource_id == resource_id {
        CrawlView { next_page: None, ..crawl }
    } else {
        crawl
    }
}

/// Whether a resume could continue a crawl.
pub open spec fn can_resume(
    crawl: CrawlView,
    adapter_id: Seq<char>,
    resource_id: Seq<char>,
) -> bool {
    &&& crawl.adapter_id == adapter_id
    &&& crawl.resource_id == resource_id
    &&& !crawl.drained
    &&& crawl.next_page is Some
}

/// The last of these crawls that a resume could continue.
pub open spec fn newest_resumable(
    crawls: Seq<CrawlView>,
    adapter_id: Seq<char>,
    resource_id: Seq<char>,
) -> Option<CrawlView>
    decreases crawls.len(),
{
    if crawls.len() == 0 {
        None
    } else if can_resume(crawls.last(), adapter_id, resource_id) {
        Some(crawls.last())
    } else {
        newest_resumable(crawls.drop_last(), adapter_id, resource_id)
    }
}

/// The id of an adapter's last read.
pub open spec fn newest_read(reads: Seq<ReadView>, adapter_id: Seq<char>) -> Option<int>
    decreases reads.len(),
{
    if reads.len() == 0 {
        None
    } else if reads.last().adapter_id == adapter_id {
        Some(reads.last().read_id)
    } else {
        newest_read(reads.drop_last(), adapter_id)
    }
}

/// A stored balance line as it is shown.
pub open spec fn shown(row: StoredBalanceView, latest: Option<int>) -> BalanceRowView {
    BalanceRowView {
        balance_id: row.balance_id,
        adapter_id: row.adapter_id,
        resource_id: row.balance.resource_id,
        category: row.balance.category,
        canonical_hint: row.balance.canonical_hint,
        amount: row.balance.amount,
        provider_id: row.balance.provenance.provider_id,
        received_at: row.balance.provenance.received_at,
        staleness: row.balance.provenance.staleness,
        outcome: row.outcome,
        from_latest_read: latest == Some(row.read_id),
    }
}

/// The lines of a resource among these, as they are shown.
pub open spec fn lines_of(
    rows: Seq<StoredBalanceView>,
    adapter_id: Seq<char>,
    resource_id: Seq<char>,
    latest: Option<int>,
) -> Seq<BalanceRowView>
    decreases rows.len(),
{
    if rows.len() == 0 {
        Seq::empty()
    } else {
        let before = lines_of(rows.drop_last(), adapter_id, resource_id, latest);
        let row = rows.last();
        if row.adapter_id == adapter_id && row.balance.resource_id == resource_id {
            before.push(shown(row, latest))
        } else {
            before
        }
    }
}

} // verus!
