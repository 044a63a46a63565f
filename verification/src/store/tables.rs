//! The store itself: its tables in memory, and every change and every question
//! that the rest asks of them.

use crate::store::error::{StoreError, StoreErrorView};
use crate::store::load::are_in_order;
use crate::store::model::{
    adapter_key, adapter_keys, arrivals_of, ascending, balance_ids, can_resume, crawl_ids, is_crawl,
    is_read, is_row_of, lines_of, newest_read, newest_resumable, next_id, observation_ids, read_ids,
    resource_key, resource_keys, retired, shown, StoreView,
};
use crate::store::order::{
    lemma_at_its_place, lemma_insert_keeps_order, lemma_place_is, lemma_place_of, pair_before,
};
use crate::store::rows::{
    copy_texts, AdapterRow, BalanceRow, CrawlRow, DiscrepancyRow, ReadRow, ResourceRow,
    RetractionRow, StoredBalance, StoredObservation,
};
use crate::text::{copy_opt, lemma_views_push, opt_view, same, views};
use crate::wire::page::{copy_page, PageRequest};
use crate::wire::record::{copy_opt_amount, Balance, Observation};
use vstd::prelude::*;

verus! {

/// The rows of every table.
pub struct Tables {
    pub adapters: Vec<AdapterRow>,
    pub resources: Vec<ResourceRow>,
    pub crawls: Vec<CrawlRow>,
    pub observations: Vec<StoredObservation>,
    pub retractions: Vec<RetractionRow>,
    pub reads: Vec<ReadRow>,
    pub balances: Vec<StoredBalance>,
    pub discrepancies: Vec<DiscrepancyRow>,
}

impl View for Tables {
    type V = StoreView;

    open spec fn view(&self) -> StoreView {
        StoreView {
            adapters: views(self.adapters@),
            resources: views(self.resources@),
            crawls: views(self.crawls@),
            observations: views(self.observations@),
            retractions: views(self.retractions@),
            reads: views(self.reads@),
            balances: views(self.balances@),
            discrepancies: views(self.discrepancies@),
        }
    }
}

impl Tables {
    /// Tables without a row.
    pub fn new() -> (r: Tables)
        ensures
            r@ == StoreView::empty(),
    {
        let r = Tables {
            adapters: Vec::new(),
            resources: Vec::new(),
            crawls: Vec::new(),
            observations: Vec::new(),
            retractions: Vec::new(),
            reads: Vec::new(),
            balances: Vec::new(),
            discrepancies: Vec::new(),
        };
        proof {
            let e = StoreView::empty();
            assert(r@.adapters =~= e.adapters);
            assert(r@.resources =~= e.resources);
            assert(r@.crawls =~= e.crawls);
            assert(r@.observations =~= e.observations);
            assert(r@.retractions =~= e.retractions);
            assert(r@.reads =~= e.reads);
            assert(r@.balances =~= e.balances);
            assert(r@.discrepancies =~= e.discrepancies);
        }
        r
    }
}

/// The contents of a profile. What [`StoreView::valid`] says holds of every one.
pub struct Store {
    tables: Tables,
}

impl View for Store {
    type V = StoreView;

    closed spec fn view(&self) -> StoreView {
        self.tables@
    }
}

impl Store {
    /// What holds of every store.
    #[verifier::type_invariant]
    pub open spec fn sound(self) -> bool {
        self@.valid()
    }

    /// A profile that nothing was ever written to.
    pub fn new() -> (r: Store)
        ensures
            r@ == StoreView::empty(),
            r@.coherent(),
    {
        Store { tables: Tables::new() }
    }

    /// Takes rows that were read back in the order of their keys. Whether they fit
    /// together is not asked.
    pub fn load(tables: Tables) -> (r: Result<Store, StoreError>)
        ensures
            match r {
                Ok(store) => tables@.valid() && store@ == tables@,
                Err(e) => !tables@.valid() && e@ == StoreErrorView::CorruptRow(
                    "the rows are not in the order of their keys"@,
                ),
            },
    {
        if are_in_order(&tables) {
            Ok(Store { tables })
        } else {
            Err(StoreError::CorruptRow("the rows are not in the order of their keys".to_owned()))
        }
    }

    /// The rows, to be written out.
    pub fn tables(&self) -> (r: &Tables)
        ensures
            r@ == self@,
    {
        &self.tables
    }

    /// A copy of the stored records, to go back to.
    pub(crate) fn copy_observations(&self) -> (r: Vec<StoredObservation>)
        ensures
            views(r@) == self@.observations,
    {
        let rows = &self.tables.observations;
        let mut r: Vec<StoredObservation> = Vec::new();
        let mut i: usize = 0;
        while i < rows.len()
            invariant
                i <= rows@.len(),
                r@.len() == i,
                forall|k: int| 0 <= k < i ==> (#[trigger] r@[k])@ == rows@[k]@,
            decreases rows@.len() - i,
        {
            r.push(rows[i].clone());
            i = i + 1;
        }
        proof {
            assert(views(r@) =~= views(rows@));
        }
        r
    }

    /// Goes back to these stored records.
    pub(crate) fn restore_observations(&mut self, rows: Vec<StoredObservation>)
        requires
            ascending(observation_ids(views(rows@))),
        ensures
            final(self)@ == (StoreView { observations: views(rows@), ..old(self)@ }),
    {
        let mut t = self.take();
        t.observations = rows;
        *self = Store { tables: t };
    }

    fn take(&mut self) -> (r: Tables)
        ensures
            r@ == old(self)@,
            r@.valid(),
            final(self)@ == StoreView::empty(),
    {
        proof {
            use_type_invariant(&*self);
        }
        let mut fresh = Store::new();
        core::mem::swap(self, &mut fresh);
        fresh.tables
    }
}

pub(crate) fn find_adapter(t: &Tables, adapter_id: &str) -> (r: (usize, bool))
    ensures
        r.0 <= t.adapters@.len(),
        r.0 == t@.adapter_place(adapter_id@),
        r.1 == t@.has_adapter(adapter_id@),
{
    let ghost keys = adapter_keys(t@.adapters);
    let ghost key = adapter_key(adapter_id@);
    let mut i: usize = 0;
    while i < t.adapters.len() && pair_before((t.adapters[i].adapter_id.as_str(), ""), (adapter_id, ""))
        invariant
            i <= t.adapters@.len(),
            keys == adapter_keys(t@.adapters),
            key == adapter_key(adapter_id@),
            forall|k: int| 0 <= k < i ==> crate::store::order::key_before(#[trigger] keys[k], key),
        decreases t.adapters@.len() - i,
    {
        proof {
            reveal_strlit("");
            assert(""@ =~= Seq::<char>::empty());
            assert(keys[i as int] == adapter_key(t.adapters@[i as int].adapter_id@));
        }
        i = i + 1;
    }
    proof {
        reveal_strlit("");
        assert(""@ =~= Seq::<char>::empty());
        if i < t.adapters@.len() {
            assert(keys[i as int] == adapter_key(t.adapters@[i as int].adapter_id@));
        }
        lemma_place_is(keys, key, i as int);
    }
    (i, i < t.adapters.len() && same(t.adapters[i].adapter_id.as_str(), adapter_id))
}

/// Changing the rest of an adapter's row moves nothing.
proof fn lemma_adapter_updated(s: StoreView, p: int, row: crate::store::rows::AdapterView)
    requires
        s.valid(),
        0 <= p < s.adapters.len(),
        row.adapter_id == s.adapters[p].adapter_id,
    ensures
        (StoreView { adapters: s.adapters.update(p, row), ..s }).valid(),
{
    let now = StoreView { adapters: s.adapters.update(p, row), ..s };
    assert(adapter_keys(now.adapters) =~= adapter_keys(s.adapters));
}

proof fn lemma_adapter_inserted(s: StoreView, adapter_id: Seq<char>, argv: Seq<Seq<char>>)
    requires
        s.valid(),
    ensures
        s.with_adapter(adapter_id, argv).valid(),
{
    let now = s.with_adapter(adapter_id, argv);
    let p = s.adapter_place(adapter_id) as int;
    let keys = adapter_keys(s.adapters);
    let key = adapter_key(adapter_id);
    lemma_place_of(keys, key);
    if s.has_adapter(adapter_id) {
        lemma_adapter_updated(
            s,
            p,
            crate::store::rows::AdapterView { argv, ..s.adapters[p] },
        );
    } else {
        if keys.contains(key) {
            let at = choose|at: int| 0 <= at < keys.len() && keys[at] == key;
            lemma_at_its_place(keys, key, at);
        }
        lemma_insert_keeps_order(keys, key);
        assert(adapter_keys(now.adapters) =~= keys.insert(p, key));
    }
}

/// Connects an adapter, or notes its new command line.
pub fn upsert_adapter(store: &mut Store, adapter_id: &str, argv: &Vec<String>)
    ensures
        final(store)@ == old(store)@.with_adapter(adapter_id@, views(argv@)),
{
    let mut t = store.take();
    let ghost was = t@;
    let (p, found) = find_adapter(&t, adapter_id);
    if found {
        let row = &mut t.adapters[p];
        row.argv = copy_texts(argv);
    } else {
        t.adapters.insert(
            p,
            AdapterRow {
                adapter_id: adapter_id.to_owned(),
                argv: copy_texts(argv),
                local_id_derivation: None,
                needs_reauth: false,
            },
        );
    }
    proof {
        lemma_adapter_inserted(was, adapter_id@, views(argv@));
        assert(t@.adapters =~= was.with_adapter(adapter_id@, views(argv@)).adapters);
    }
    *store = Store { tables: t };
}

/// Notes the derivation that an adapter's last sweep ran under.
pub fn set_adapter_derivation(store: &mut Store, adapter_id: &str, derivation: &str)
    ensures
        final(store)@ == old(store)@.with_derivation(adapter_id@, derivation@),
{
    let mut t = store.take();
    let ghost was = t@;
    let (p, found) = find_adapter(&t, adapter_id);
    if found {
        let row = &mut t.adapters[p];
        row.local_id_derivation = Some(derivation.to_owned());
        proof {
            let now = was.with_derivation(adapter_id@, derivation@);
            lemma_adapter_updated(was, p as int, now.adapters[p as int]);
            assert(t@.adapters =~= now.adapters);
        }
    }
    *store = Store { tables: t };
}

/// Notes whether the user has to renew a credential.
pub fn set_needs_reauth(store: &mut Store, adapter_id: &str, needs: bool)
    ensures
        final(store)@ == old(store)@.with_reauth(adapter_id@, needs),
{
    let mut t = store.take();
    let ghost was = t@;
    let (p, found) = find_adapter(&t, adapter_id);
    if found {
        let row = &mut t.adapters[p];
        row.needs_reauth = needs;
        proof {
            let now = was.with_reauth(adapter_id@, needs);
            lemma_adapter_updated(was, p as int, now.adapters[p as int]);
            assert(t@.adapters =~= now.adapters);
        }
    }
    *store = Store { tables: t };
}

/// Every connected adapter, in the order of their ids.
pub fn adapters(store: &Store) -> (r: Vec<AdapterRow>)
    ensures
        views(r@) == store@.adapters,
{
    let rows = &store.tables.adapters;
    let mut r: Vec<AdapterRow> = Vec::new();
    let mut i: usize = 0;
    while i < rows.len()
        invariant
            i <= rows@.len(),
            r@.len() == i,
            forall|k: int| 0 <= k < i ==> (#[trigger] r@[k])@ == rows@[k]@,
        decreases rows@.len() - i,
    {
        r.push(rows[i].clone());
        i = i + 1;
    }
    proof {
        assert(views(r@) =~= views(rows@));
    }
    r
}

fn find_resource(t: &Tables, adapter_id: &str, resource_id: &str) -> (r: (usize, bool))
    ensures
        r.0 <= t.resources@.len(),
        r.0 == t@.resource_place(adapter_id@, resource_id@),
        r.1 == t@.has_resource(adapter_id@, resource_id@),
{
    let ghost keys = resource_keys(t@.resources);
    let ghost key = resource_key(adapter_id@, resource_id@);
    let mut i: usize = 0;
    while i < t.resources.len() && pair_before(
        (t.resources[i].adapter_id.as_str(), t.resources[i].resource_id.as_str()),
        (adapter_id, resource_id),
    )
        invariant
            i <= t.resources@.len(),
            keys == resource_keys(t@.resources),
            key == resource_key(adapter_id@, resource_id@),
            forall|k: int| 0 <= k < i ==> crate::store::order::key_before(#[trigger] keys[k], key),
        decreases t.resources@.len() - i,
    {
        proof {
            let row = t.resources@[i as int];
            assert(keys[i as int] == resource_key(row.adapter_id@, row.resource_id@));
        }
        i = i + 1;
    }
    proof {
        if i < t.resources@.len() {
            let row = t.resources@[i as int];
            assert(keys[i as int] == resource_key(row.adapter_id@, row.resource_id@));
        }
        lemma_place_is(keys, key, i as int);
    }
    (
        i,
        i < t.resources.len() && same(t.resources[i].adapter_id.as_str(), adapter_id) && same(
            t.resources[i].resource_id.as_str(),
            resource_id,
        ),
    )
}

/// Changing the rest of a resource's row moves nothing.
proof fn lemma_resource_updated(s: StoreView, p: int, row: crate::store::rows::ResourceView)
    requires
        s.valid(),
        0 <= p < s.resources.len(),
        row.adapter_id == s.resources[p].adapter_id,
        row.resource_id == s.resources[p].resource_id,
    ensures
        (StoreView { resources: s.resources.update(p, row), ..s }).valid(),
{
    let now = StoreView { resources: s.resources.update(p, row), ..s };
    assert(resource_keys(now.resources) =~= resource_keys(s.resources));
}

proof fn lemma_resource_inserted(
    s: StoreView,
    adapter_id: Seq<char>,
    resource_id: Seq<char>,
    kind: Seq<char>,
    label: Seq<char>,
)
    requires
        s.valid(),
    ensures
        s.with_resource(adapter_id, resource_id, kind, label).valid(),
{
    let now = s.with_resource(adapter_id, resource_id, kind, label);
    let p = s.resource_place(adapter_id, resource_id) as int;
    let keys = resource_keys(s.resources);
    let key = resource_key(adapter_id, resource_id);
    lemma_place_of(keys, key);
    if s.has_resource(adapter_id, resource_id) {
        lemma_resource_updated(s, p, now.resources[p]);
    } else {
        if keys.contains(key) {
            let at = choose|at: int| 0 <= at < keys.len() && keys[at] == key;
            lemma_at_its_place(keys, key, at);
        }
        lemma_insert_keeps_order(keys, key);
        assert(resource_keys(now.resources) =~= keys.insert(p, key));
    }
}

/// Notes a resource that an adapter listed. A resource belongs to a connected
/// adapter.
pub fn upsert_resource(
    store: &mut Store,
    adapter_id: &str,
    resource_id: &str,
    kind: &str,
    label: &str,
) -> (r: Result<(), StoreError>)
    ensures
        match r {
            Ok(_) => old(store)@.has_adapter(adapter_id@) && final(store)@ == old(
                store,
            )@.with_resource(adapter_id@, resource_id@, kind@, label@),
            Err(e) => !old(store)@.has_adapter(adapter_id@) && final(store)@ == old(store)@ && e@
                == dangling(),
        },
{
    let mut t = store.take();
    let ghost was = t@;
    let (_, known) = find_adapter(&t, adapter_id);
    if !known {
        *store = Store { tables: t };
        return Err(refused_as_dangling());
    }
    let (p, found) = find_resource(&t, adapter_id, resource_id);
    if found {
        let row = &mut t.resources[p];
        row.kind = kind.to_owned();
        row.label = label.to_owned();
    } else {
        t.resources.insert(
            p,
            ResourceRow {
                adapter_id: adapter_id.to_owned(),
                resource_id: resource_id.to_owned(),
                kind: kind.to_owned(),
                label: label.to_owned(),
                fingerprint: None,
                last_provider_id: None,
            },
        );
    }
    proof {
        lemma_resource_inserted(was, adapter_id@, resource_id@, kind@, label@);
        assert(t@.resources =~= was.with_resource(
            adapter_id@,
            resource_id@,
            kind@,
            label@,
        ).resources);
    }
    *store = Store { tables: t };
    Ok(())
}

/// A resource's row.
pub fn resource(store: &Store, adapter_id: &str, resource_id: &str) -> (r: Option<ResourceRow>)
    ensures
        match r {
            Some(row) => store@.resource_row(adapter_id@, resource_id@) == Some(row@),
            None => store@.resource_row(adapter_id@, resource_id@) is None,
        },
{
    let (p, found) = find_resource(&store.tables, adapter_id, resource_id);
    if found {
        Some(store.tables.resources[p].clone())
    } else {
        None
    }
}

/// The resources of one adapter, or of all.
pub open spec fn resources_of(
    rows: Seq<crate::store::rows::ResourceView>,
    adapter_id: Option<Seq<char>>,
) -> Seq<crate::store::rows::ResourceView>
    decreases rows.len(),
{
    if rows.len() == 0 {
        Seq::empty()
    } else {
        let before = resources_of(rows.drop_last(), adapter_id);
        if adapter_id is None || adapter_id == Some(rows.last().adapter_id) {
            before.push(rows.last())
        } else {
            before
        }
    }
}

/// The resources of one adapter, or of all, in the order of their ids.
pub fn resources(store: &Store, adapter_id: Option<&str>) -> (r: Vec<ResourceRow>)
    ensures
        views(r@) == resources_of(
            store@.resources,
            match adapter_id {
                Some(id) => Some(id@),
                None => None,
            },
        ),
{
    let rows = &store.tables.resources;
    let ghost wanted = match adapter_id {
        Some(id) => Some(id@),
        None => None,
    };
    let mut r: Vec<ResourceRow> = Vec::new();
    let mut i: usize = 0;
    while i < rows.len()
        invariant
            i <= rows@.len(),
            wanted == (match adapter_id {
                Some(id) => Some(id@),
                None => None,
            }),
            views(r@) == resources_of(views(rows@).take(i as int), wanted),
        decreases rows@.len() - i,
    {
        proof {
            assert(views(rows@).take(i + 1).drop_last() =~= views(rows@).take(i as int));
        }
        let listed = match adapter_id {
            Some(id) => same(rows[i].adapter_id.as_str(), id),
            None => true,
        };
        if listed {
            let ghost before = r@;
            let row = rows[i].clone();
            proof {
                lemma_views_push(before, row);
            }
            r.push(row);
        }
        i = i + 1;
    }
    proof {
        assert(views(rows@).take(i as int) =~= views(rows@));
    }
    r
}

/// Notes the definition that a resource's last sweep ran under, and the vantage
/// that it adopted, if it adopted one.
pub fn set_resource_definition(
    store: &mut Store,
    adapter_id: &str,
    resource_id: &str,
    fingerprint: &str,
    provider_id: Option<&str>,
)
    ensures
        final(store)@ == old(store)@.with_definition(
            adapter_id@,
            resource_id@,
            fingerprint@,
            match provider_id {
                Some(id) => Some(id@),
                None => None,
            },
        ),
{
    let mut t = store.take();
    let ghost was = t@;
    let ghost vantage = match provider_id {
        Some(id) => Some(id@),
        None => None,
    };
    let (p, found) = find_resource(&t, adapter_id, resource_id);
    if found {
        let row = &mut t.resources[p];
        row.fingerprint = Some(fingerprint.to_owned());
        if let Some(id) = provider_id {
            row.last_provider_id = Some(id.to_owned());
        }
        proof {
            let now = was.with_definition(adapter_id@, resource_id@, fingerprint@, vantage);
            lemma_resource_updated(was, p as int, now.resources[p as int]);
            assert(t@.resources =~= now.resources);
        }
    }
    *store = Store { tables: t };
}

/// The next id grows behind the others.
pub proof fn lemma_next_ascends(ids: Seq<int>)
    requires
        ascending(ids),
    ensures
        ascending(ids.push(next_id(ids))),
{
    let now = ids.push(next_id(ids));
    assert forall|i: int, j: int| 0 <= i < j < now.len() implies #[trigger] now[i]
        < #[trigger] now[j] by {
        if j == ids.len() && i < ids.len() - 1 {
            assert(ids[i] < ids[ids.len() - 1]);
        }
    }
}

/// A crawl stays one while its row keeps its id.
pub proof fn lemma_crawls_stay(
    a: Seq<crate::store::rows::CrawlView>,
    b: Seq<crate::store::rows::CrawlView>,
)
    requires
        a.len() <= b.len(),
        forall|i: int| 0 <= i < a.len() ==> (#[trigger] b[i]).crawl_id == a[i].crawl_id,
    ensures
        forall|id: int| #[trigger] is_crawl(a, id) ==> is_crawl(b, id),
{
    assert forall|id: int| #[trigger] is_crawl(a, id) implies is_crawl(b, id) by {
        let i = choose|i: int| 0 <= i < a.len() && (#[trigger] a[i]).crawl_id == id;
        assert(b[i].crawl_id == id);
    }
}

/// Opens a crawl of a resource, and retires the place to resume from of every
/// earlier one: what is opened here is the next attempt that such a place was
/// kept for.
pub fn open_crawl(
    store: &mut Store,
    adapter_id: &str,
    resource_id: &str,
    started_at: &str,
    start_page: &Option<PageRequest>,
    derivation: &str,
    fingerprint: Option<&str>,
) -> (r: i64)
    requires
        next_id(crawl_ids(old(store)@.crawls)) <= i64::MAX,
    ensures
        r == next_id(crawl_ids(old(store)@.crawls)),
        final(store)@ == old(store)@.with_crawl(
            adapter_id@,
            resource_id@,
            started_at@,
            *start_page,
            derivation@,
            match fingerprint {
                Some(f) => Some(f@),
                None => None,
            },
        ),
{
    let mut t = store.take();
    let ghost was = t@;
    let mut i: usize = 0;
    while i < t.crawls.len()
        invariant
            i <= t.crawls@.len(),
            t.crawls@.len() == was.crawls.len(),
            t@ == (StoreView { crawls: views(t.crawls@), ..was }),
            forall|k: int|
                0 <= k < i ==> (#[trigger] t.crawls@[k])@ == retired(
                    was.crawls[k],
                    adapter_id@,
                    resource_id@,
                ),
            forall|k: int| i <= k < t.crawls@.len() ==> (#[trigger] t.crawls@[k])@ == was.crawls[k],
        decreases t.crawls@.len() - i,
    {
        if same(t.crawls[i].adapter_id.as_str(), adapter_id) && same(
            t.crawls[i].resource_id.as_str(),
            resource_id,
        ) {
            let row = &mut t.crawls[i];
            row.next_page = None;
        }
        i = i + 1;
    }
    proof {
        assert(crawl_ids(t@.crawls) =~= crawl_ids(was.crawls));
    }
    let crawl_id: i64 = if t.crawls.len() == 0 {
        1
    } else {
        t.crawls[t.crawls.len() - 1].crawl_id + 1
    };
    t.crawls.push(
        CrawlRow {
            crawl_id,
            adapter_id: adapter_id.to_owned(),
            resource_id: resource_id.to_owned(),
            started_at: started_at.to_owned(),
            start_page: copy_page(start_page),
            next_page: copy_page(start_page),
            local_id_derivation: derivation.to_owned(),
            fingerprint: match fingerprint {
                Some(f) => Some(f.to_owned()),
                None => None,
            },
            drained: false,
            complete: false,
            disqualified_reason: None,
        },
    );
    proof {
        let now = was.with_crawl(
            adapter_id@,
            resource_id@,
            started_at@,
            *start_page,
            derivation@,
            match fingerprint {
                Some(f) => Some(f@),
                None => None,
            },
        );
        assert(t@.crawls =~= now.crawls);
        lemma_next_ascends(crawl_ids(was.crawls));
        assert(crawl_ids(now.crawls) =~= crawl_ids(was.crawls).push(crawl_id as int));
    }
    *store = Store { tables: t };
    crawl_id
}

/// Moves a crawl's place to resume from.
pub fn set_crawl_cursor(store: &mut Store, crawl_id: i64, next_page: Option<PageRequest>)
    ensures
        final(store)@ == old(store)@.with_cursor(crawl_id as int, next_page),
{
    let mut t = store.take();
    let ghost was = t@;
    let ghost now = was.with_cursor(crawl_id as int, next_page);
    let mut i: usize = 0;
    while i < t.crawls.len()
        invariant
            i <= t.crawls@.len(),
            t.crawls@.len() == was.crawls.len(),
            now == was.with_cursor(crawl_id as int, next_page),
            t@ == (StoreView { crawls: views(t.crawls@), ..was }),
            forall|k: int| 0 <= k < i ==> (#[trigger] t.crawls@[k])@ == now.crawls[k],
            forall|k: int| i <= k < t.crawls@.len() ==> (#[trigger] t.crawls@[k])@ == was.crawls[k],
        decreases t.crawls@.len() - i,
    {
        if t.crawls[i].crawl_id == crawl_id {
            let row = &mut t.crawls[i];
            row.next_page = copy_page(&next_page);
        }
        i = i + 1;
    }
    proof {
        assert(t@.crawls =~= now.crawls);
        assert(crawl_ids(now.crawls) =~= crawl_ids(was.crawls));
    }
    *store = Store { tables: t };
}

/// Writes down how a crawl ended, and why nothing may be concluded from it, if
/// so.
pub fn finish_crawl(
    store: &mut Store,
    crawl_id: i64,
    drained: bool,
    complete: bool,
    disqualified_reason: &Option<String>,
)
    ensures
        final(store)@ == old(store)@.with_verdict(
            crawl_id as int,
            drained,
            complete,
            opt_view(*disqualified_reason),
        ),
{
    let mut t = store.take();
    let ghost was = t@;
    let ghost reason = opt_view(*disqualified_reason);
    let ghost now = was.with_verdict(crawl_id as int, drained, complete, reason);
    let mut i: usize = 0;
    while i < t.crawls.len()
        invariant
            i <= t.crawls@.len(),
            t.crawls@.len() == was.crawls.len(),
            reason == opt_view(*disqualified_reason),
            now == was.with_verdict(crawl_id as int, drained, complete, reason),
            t@ == (StoreView { crawls: views(t.crawls@), ..was }),
            forall|k: int| 0 <= k < i ==> (#[trigger] t.crawls@[k])@ == now.crawls[k],
            forall|k: int| i <= k < t.crawls@.len() ==> (#[trigger] t.crawls@[k])@ == was.crawls[k],
        decreases t.crawls@.len() - i,
    {
        if t.crawls[i].crawl_id == crawl_id {
            let row = &mut t.crawls[i];
            row.drained = drained;
            row.complete = complete;
            row.disqualified_reason = copy_opt(disqualified_reason);
            if drained {
                row.next_page = None;
            }
        }
        i = i + 1;
    }
    proof {
        assert(t@.crawls =~= now.crawls);
        assert(crawl_ids(now.crawls) =~= crawl_ids(was.crawls));
    }
    *store = Store { tables: t };
}

/// The crawl that a resume would continue.
pub fn resumable_crawl(store: &Store, adapter_id: &str, resource_id: &str) -> (r: Option<CrawlRow>)
    ensures
        match r {
            Some(row) => store@.resumable(adapter_id@, resource_id@) == Some(row@),
            None => store@.resumable(adapter_id@, resource_id@) is None,
        },
{
    let rows = &store.tables.crawls;
    let mut i: usize = rows.len();
    proof {
        assert(views(rows@).take(i as int) =~= views(rows@));
    }
    while i > 0
        invariant
            i <= rows@.len(),
            views(rows@) == store@.crawls,
            newest_resumable(views(rows@), adapter_id@, resource_id@) == newest_resumable(
                views(rows@).take(i as int),
                adapter_id@,
                resource_id@,
            ),
        decreases i,
    {
        let ghost front = views(rows@).take(i as int);
        i = i - 1;
        let row = &rows[i];
        proof {
            assert(front.last() == row@);
            assert(front.drop_last() =~= views(rows@).take(i as int));
        }
        let resumable = !row.drained && row.next_page.is_some() && same(
            row.adapter_id.as_str(),
            adapter_id,
        ) && same(row.resource_id.as_str(), resource_id);
        if resumable {
            proof {
                assert(can_resume(row@, adapter_id@, resource_id@));
            }
            return Some(row.clone());
        }
    }
    None
}

/// How many rows a listing of at most `limit` shows; a negative limit is none.
pub open spec fn listed(len: nat, limit: i64) -> nat {
    if limit < 0 || len <= limit {
        len
    } else {
        limit as nat
    }
}

/// The newest rows, newest first.
pub open spec fn newest_first<T>(rows: Seq<T>, limit: i64) -> Seq<T> {
    Seq::new(listed(rows.len(), limit), |i: int| rows[rows.len() - 1 - i])
}

/// The newest crawls, newest first.
pub fn crawls(store: &Store, limit: i64) -> (r: Vec<CrawlRow>)
    ensures
        views(r@) == newest_first(store@.crawls, limit),
{
    let rows = &store.tables.crawls;
    let mut r: Vec<CrawlRow> = Vec::new();
    let mut i: usize = rows.len();
    while i > 0 && (limit < 0 || (r.len() as u64) < limit as u64)
        invariant
            i <= rows@.len(),
            r@.len() + i == rows@.len(),
            limit >= 0 ==> r@.len() <= limit,
            forall|k: int|
                0 <= k < r@.len() ==> (#[trigger] r@[k])@ == rows@[rows@.len() - 1 - k]@,
        decreases i,
    {
        i = i - 1;
        r.push(rows[i].clone());
    }
    proof {
        assert(views(r@) =~= newest_first(views(rows@), limit));
    }
    r
}

/// The newest discrepancies, newest first.
pub fn discrepancies(store: &Store, limit: i64) -> (r: Vec<DiscrepancyRow>)
    ensures
        views(r@) == newest_first(store@.discrepancies, limit),
{
    let rows = &store.tables.discrepancies;
    let mut r: Vec<DiscrepancyRow> = Vec::new();
    let mut i: usize = rows.len();
    while i > 0 && (limit < 0 || (r.len() as u64) < limit as u64)
        invariant
            i <= rows@.len(),
            r@.len() + i == rows@.len(),
            limit >= 0 ==> r@.len() <= limit,
            forall|k: int|
                0 <= k < r@.len() ==> (#[trigger] r@[k])@ == rows@[rows@.len() - 1 - k]@,
        decreases i,
    {
        i = i - 1;
        r.push(rows[i].clone());
    }
    proof {
        assert(views(r@) =~= newest_first(views(rows@), limit));
    }
    r
}

/// The rows that satisfy a chain's key, in stored order.
pub open spec fn rows_of(
    rows: Seq<crate::store::rows::StoredView>,
    adapter_id: Seq<char>,
    local_id: Option<Seq<char>>,
) -> Seq<crate::store::rows::StoredView>
    decreases rows.len(),
{
    if rows.len() == 0 {
        Seq::empty()
    } else {
        let before = rows_of(rows.drop_last(), adapter_id, local_id);
        let row = rows.last();
        if row.adapter_id == adapter_id && (local_id is None || local_id == Some(
            row.observation.local_id,
        )) {
            before.push(rows.last())
        } else {
            before
        }
    }
}

fn stored_rows(store: &Store, adapter_id: &str, local_id: Option<&str>) -> (r: Vec<
    StoredObservation,
>)
    ensures
        views(r@) == rows_of(
            store@.observations,
            adapter_id@,
            match local_id {
                Some(id) => Some(id@),
                None => None,
            },
        ),
{
    let rows = &store.tables.observations;
    let ghost wanted = match local_id {
        Some(id) => Some(id@),
        None => None,
    };
    let mut r: Vec<StoredObservation> = Vec::new();
    let mut i: usize = 0;
    while i < rows.len()
        invariant
            i <= rows@.len(),
            wanted == (match local_id {
                Some(id) => Some(id@),
                None => None,
            }),
            views(r@) == rows_of(views(rows@).take(i as int), adapter_id@, wanted),
        decreases rows@.len() - i,
    {
        proof {
            assert(views(rows@).take(i + 1).drop_last() =~= views(rows@).take(i as int));
        }
        let row = &rows[i];
        let matches = same(row.adapter_id.as_str(), adapter_id) && match local_id {
            Some(id) => same(row.observation.local_id.as_str(), id),
            None => true,
        };
        if matches {
            let ghost before = r@;
            let row = rows[i].clone();
            proof {
                lemma_views_push(before, row);
            }
            r.push(row);
        }
        i = i + 1;
    }
    proof {
        assert(views(rows@).take(i as int) =~= views(rows@));
    }
    r
}

/// Every stored record of one adapter, in stored order: the order in which the
/// host received them. Revisions run per adapter and `local_id`, whatever
/// resource a record was reported under.
pub fn observations_for_adapter(store: &Store, adapter_id: &str) -> (r: Vec<StoredObservation>)
    ensures
        views(r@) == rows_of(store@.observations, adapter_id@, None),
{
    stored_rows(store, adapter_id, None)
}

/// One record's rows, in stored order.
pub fn chain(store: &Store, adapter_id: &str, local_id: &str) -> (r: Vec<StoredObservation>)
    ensures
        views(r@) == rows_of(store@.observations, adapter_id@, Some(local_id@)),
{
    stored_rows(store, adapter_id, Some(local_id))
}

/// Rows with the same records, filed alike, have the same arrivals.
pub proof fn lemma_same_arrivals(
    a: Seq<crate::store::rows::StoredView>,
    b: Seq<crate::store::rows::StoredView>,
    adapter_id: Seq<char>,
)
    requires
        a.len() == b.len(),
        forall|i: int|
            0 <= i < a.len() ==> (#[trigger] a[i]).observation == b[i].observation
                && a[i].adapter_id == b[i].adapter_id,
    ensures
        arrivals_of(a, adapter_id) == arrivals_of(b, adapter_id),
    decreases a.len(),
{
    if a.len() > 0 {
        assert(a.last().observation == b.last().observation);
        assert forall|i: int| 0 <= i < a.drop_last().len() implies (
        #[trigger] a.drop_last()[i]).observation == b.drop_last()[i].observation
            && a.drop_last()[i].adapter_id == b.drop_last()[i].adapter_id by {
            assert(a.drop_last()[i] == a[i]);
        }
        lemma_same_arrivals(a.drop_last(), b.drop_last(), adapter_id);
    }
}

/// The records of one adapter's rows are its arrivals.
pub proof fn lemma_rows_are_arrivals(
    rows: Seq<crate::store::rows::StoredView>,
    adapter_id: Seq<char>,
)
    ensures
        arrivals_of(rows, adapter_id).len() == rows_of(rows, adapter_id, None).len(),
        forall|i: int|
            0 <= i < rows_of(rows, adapter_id, None).len() ==> arrivals_of(rows, adapter_id)[i] == (
            #[trigger] rows_of(rows, adapter_id, None)[i]).observation,
    decreases rows.len(),
{
    if rows.len() > 0 {
        lemma_rows_are_arrivals(rows.drop_last(), adapter_id);
        let (a, b) = (
            arrivals_of(rows.drop_last(), adapter_id),
            rows_of(rows.drop_last(), adapter_id, None),
        );
        assert forall|i: int| 0 <= i < rows_of(rows, adapter_id, None).len() implies arrivals_of(
            rows,
            adapter_id,
        )[i] == (#[trigger] rows_of(rows, adapter_id, None)[i]).observation by {
            if i < b.len() {
                assert(a[i] == b[i].observation);
            }
        }
    }
}

/// What is to be stored of a record.
pub struct Append<'a> {
    pub adapter_id: &'a str,
    pub revision: u64,
    pub crawl_id: i64,
    pub derivation: &'a str,
    pub fingerprint: Option<&'a str>,
    pub content_hash: &'a str,
    pub observation: &'a Observation,
}

/// The highest revision that a row can hold.
pub const MAX_REVISION: u64 = 0x7fff_ffff_ffff_ffff;

/// The revision that a row holds; one that is beyond what it can hold is held as
/// the highest.
pub open spec fn held_revision(revision: u64) -> nat {
    if revision > MAX_REVISION {
        MAX_REVISION as nat
    } else {
        revision as nat
    }
}

fn hold_revision(revision: u64) -> (r: u64)
    ensures
        r == held_revision(revision),
{
    if revision > MAX_REVISION {
        MAX_REVISION
    } else {
        revision
    }
}

/// What is said of a row that refers to one that is not there.
pub open spec fn dangling() -> StoreErrorView {
    StoreErrorView::Sqlite("FOREIGN KEY constraint failed"@)
}

fn refused_as_dangling() -> (r: StoreError)
    ensures
        r@ == dangling(),
{
    StoreError::Sqlite("FOREIGN KEY constraint failed".to_owned())
}

/// What is said of a revision that is stored already.
pub open spec fn repeated() -> StoreErrorView {
    StoreErrorView::Sqlite(
        "UNIQUE constraint failed: observation.adapter_id, observation.local_id, observation.revision"@,
    )
}

fn refused_as_repeated() -> (r: StoreError)
    ensures
        r@ == repeated(),
{
    StoreError::Sqlite(
        "UNIQUE constraint failed: observation.adapter_id, observation.local_id, observation.revision".to_owned(),
    )
}

/// Whether a number is a crawl's id.
fn names_crawl(crawls: &Vec<CrawlRow>, crawl_id: i64) -> (r: bool)
    ensures
        r == is_crawl(views(crawls@), crawl_id as int),
{
    let mut i: usize = 0;
    while i < crawls.len()
        invariant
            i <= crawls@.len(),
            forall|k: int| 0 <= k < i ==> (#[trigger] views(crawls@)[k]).crawl_id != crawl_id,
        decreases crawls@.len() - i,
    {
        proof {
            assert(views(crawls@)[i as int] == crawls@[i as int]@);
        }
        if crawls[i].crawl_id == crawl_id {
            return true;
        }
        i = i + 1;
    }
    false
}

fn is_stored(t: &Tables, adapter_id: &str, local_id: &str, revision: u64) -> (r: bool)
    ensures
        r == t@.has_revision(adapter_id@, local_id@, revision as nat),
{
    let rows = &t.observations;
    let mut i: usize = 0;
    while i < rows.len()
        invariant
            i <= rows@.len(),
            views(rows@) == t@.observations,
            forall|k: int|
                0 <= k < i ==> !is_row_of(
                    #[trigger] t@.observations[k],
                    adapter_id@,
                    local_id@,
                    revision as nat,
                ),
        decreases rows@.len() - i,
    {
        let row = &rows[i];
        proof {
            assert(t@.observations[i as int] == row@);
        }
        if row.revision == revision && same(row.observation.local_id.as_str(), local_id) && same(
            row.adapter_id.as_str(),
            adapter_id,
        ) {
            proof {
                assert(is_row_of(
                    t@.observations[i as int],
                    adapter_id@,
                    local_id@,
                    revision as nat,
                ));
            }
            return true;
        }
        i = i + 1;
    }
    false
}

/// Appends a record. A revision that is stored already is refused, and so is a
/// crawl that is not there.
pub fn append_observation(store: &mut Store, append: &Append<'_>) -> (r: Result<(), StoreError>)
    requires
        next_id(observation_ids(old(store)@.observations)) <= i64::MAX,
    ensures
        ({
            let taken = old(store)@.has_revision(
                append.adapter_id@,
                append.observation@.local_id,
                held_revision(append.revision),
            );
            let known = is_crawl(old(store)@.crawls, append.crawl_id as int);
            match r {
                Ok(_) => !taken && known && final(store)@ == old(store)@.with_observation(
                    append.adapter_id@,
                    held_revision(append.revision),
                    append.crawl_id as int,
                    append.derivation@,
                    match append.fingerprint {
                        Some(f) => Some(f@),
                        None => None,
                    },
                    append.content_hash@,
                    append.observation@,
                ),
                Err(e) => final(store)@ == old(store)@ && if taken {
                    e@ == repeated()
                } else {
                    !known && e@ == dangling()
                },
            }
        }),
{
    let mut t = store.take();
    let ghost was = t@;
    let ghost rows = t.observations@;
    let revision = hold_revision(append.revision);
    let local_id = append.observation.local_id.as_str();
    let taken = is_stored(&t, append.adapter_id, local_id, revision);
    let known = names_crawl(&t.crawls, append.crawl_id);
    if taken || !known {
        *store = Store { tables: t };
        return Err(
            if taken {
                refused_as_repeated()
            } else {
                refused_as_dangling()
            },
        );
    }
    let row = StoredObservation {
        observation_id: if t.observations.len() == 0 {
            1
        } else {
            t.observations[t.observations.len() - 1].observation_id + 1
        },
        adapter_id: append.adapter_id.to_owned(),
        revision,
        crawl_id: append.crawl_id,
        last_seen_crawl: append.crawl_id,
        derivation: append.derivation.to_owned(),
        fingerprint: match append.fingerprint {
            Some(f) => Some(f.to_owned()),
            None => None,
        },
        content_hash: append.content_hash.to_owned(),
        observation: append.observation.clone(),
    };
    proof {
        lemma_next_ascends(observation_ids(was.observations));
        assert(observation_ids(was.observations.push(row@)) =~= observation_ids(
            was.observations,
        ).push(row@.observation_id));
        lemma_views_push(rows, row);
    }
    t.observations.push(row);
    *store = Store { tables: t };
    Ok(())
}

/// Notes that a crawl saw a stored record again, and under which software rules.
/// A crawl that is not there is refused; a revision that is not stored has no row
/// to note it in.
pub fn stamp_seen(
    store: &mut Store,
    adapter_id: &str,
    local_id: &str,
    revision: u64,
    crawl_id: i64,
    derivation: &str,
    fingerprint: Option<&str>,
) -> (r: Result<(), StoreError>)
    ensures
        ({
            let dangles = old(store)@.has_revision(
                adapter_id@,
                local_id@,
                held_revision(revision),
            ) && !is_crawl(old(store)@.crawls, crawl_id as int);
            match r {
                Ok(_) => !dangles && final(store)@ == old(store)@.with_seen(
                    adapter_id@,
                    local_id@,
                    held_revision(revision),
                    crawl_id as int,
                    derivation@,
                    match fingerprint {
                        Some(f) => Some(f@),
                        None => None,
                    },
                ),
                Err(e) => dangles && final(store)@ == old(store)@ && e@ == dangling(),
            }
        }),
{
    let mut t = store.take();
    let ghost was = t@;
    let revision = hold_revision(revision);
    if !names_crawl(&t.crawls, crawl_id) && is_stored(&t, adapter_id, local_id, revision) {
        *store = Store { tables: t };
        return Err(refused_as_dangling());
    }
    let ghost definition = match fingerprint {
        Some(f) => Some(f@),
        None => None,
    };
    let ghost now = was.with_seen(
        adapter_id@,
        local_id@,
        revision as nat,
        crawl_id as int,
        derivation@,
        definition,
    );
    let mut i: usize = 0;
    while i < t.observations.len()
        invariant
            i <= t.observations@.len(),
            t.observations@.len() == was.observations.len(),
            definition == (match fingerprint {
                Some(f) => Some(f@),
                None => None,
            }),
            now == was.with_seen(
                adapter_id@,
                local_id@,
                revision as nat,
                crawl_id as int,
                derivation@,
                definition,
            ),
            t@ == (StoreView { observations: views(t.observations@), ..was }),
            forall|k: int|
                0 <= k < i ==> (#[trigger] t.observations@[k])@ == now.observations[k],
            forall|k: int|
                i <= k < t.observations@.len() ==> (#[trigger] t.observations@[k])@
                    == was.observations[k],
        decreases t.observations@.len() - i,
    {
        let matches = {
            let row = &t.observations[i];
            row.revision == revision && same(row.observation.local_id.as_str(), local_id) && same(
                row.adapter_id.as_str(),
                adapter_id,
            )
        };
        proof {
            assert(matches == is_row_of(
                was.observations[i as int],
                adapter_id@,
                local_id@,
                revision as nat,
            ));
        }
        if matches {
            let row = &mut t.observations[i];
            row.last_seen_crawl = crawl_id;
            row.derivation = derivation.to_owned();
            row.fingerprint = match fingerprint {
                Some(f) => Some(f.to_owned()),
                None => None,
            };
        }
        i = i + 1;
    }
    proof {
        assert(t@.observations =~= now.observations);
        assert(observation_ids(now.observations) =~= observation_ids(was.observations));
    }
    *store = Store { tables: t };
    Ok(())
}

/// Retracts a record: the host's own word, from one crawl, that what it has
/// come to know of the record up to this revision no longer stands. A crawl that
/// is not there is refused.
pub fn append_retraction(
    store: &mut Store,
    adapter_id: &str,
    local_id: &str,
    revision: u64,
    reason: &str,
    crawl_id: i64,
    retracted_at: &str,
) -> (r: Result<(), StoreError>)
    ensures
        ({
            let known = is_crawl(old(store)@.crawls, crawl_id as int);
            match r {
                Ok(_) => known && final(store)@ == old(store)@.with_retraction(
                    crate::store::rows::RetractionView {
                        adapter_id: adapter_id@,
                        local_id: local_id@,
                        revision: held_revision(revision),
                        reason: reason@,
                        crawl_id: crawl_id as int,
                        retracted_at: retracted_at@,
                    },
                ),
                Err(e) => !known && final(store)@ == old(store)@ && e@ == dangling(),
            }
        }),
{
    let mut t = store.take();
    if !names_crawl(&t.crawls, crawl_id) {
        *store = Store { tables: t };
        return Err(refused_as_dangling());
    }
    let row = RetractionRow {
        adapter_id: adapter_id.to_owned(),
        local_id: local_id.to_owned(),
        revision: hold_revision(revision),
        reason: reason.to_owned(),
        crawl_id,
        retracted_at: retracted_at.to_owned(),
    };
    proof {
        lemma_views_push(t.retractions@, row);
    }
    t.retractions.push(row);
    *store = Store { tables: t };
    Ok(())
}

/// The highest revision that a record was retracted at.
pub open spec fn high_water(
    rows: Seq<crate::store::rows::RetractionView>,
    adapter_id: Seq<char>,
    local_id: Seq<char>,
) -> Option<nat>
    decreases rows.len(),
{
    if rows.len() == 0 {
        None
    } else {
        let before = high_water(rows.drop_last(), adapter_id, local_id);
        let row = rows.last();
        if row.adapter_id == adapter_id && row.local_id == local_id {
            match before {
                Some(mark) if mark >= row.revision => before,
                _ => Some(row.revision),
            }
        } else {
            before
        }
    }
}

/// What a list of marks says of a record.
pub open spec fn mark_of(marks: Seq<(String, u64)>, local_id: Seq<char>) -> Option<nat>
    decreases marks.len(),
{
    if marks.len() == 0 {
        None
    } else if marks[0].0@ == local_id {
        Some(marks[0].1 as nat)
    } else {
        mark_of(marks.skip(1), local_id)
    }
}

proof fn lemma_mark_of(marks: Seq<(String, u64)>, local_id: Seq<char>, at: int)
    requires
        0 <= at <= marks.len(),
        forall|k: int| 0 <= k < at ==> (#[trigger] marks[k]).0@ != local_id,
        at < marks.len() ==> marks[at].0@ == local_id,
    ensures
        mark_of(marks, local_id) == if at < marks.len() {
            Some(marks[at].1 as nat)
        } else {
            None
        },
    decreases at,
{
    if at > 0 {
        let rest = marks.skip(1);
        assert(marks[0].0@ != local_id);
        assert forall|k: int| 0 <= k < at - 1 implies (#[trigger] rest[k]).0@ != local_id by {
            assert(rest[k] == marks[k + 1]);
        }
        lemma_mark_of(rest, local_id, at - 1);
    }
}

/// Finds a record's mark.
pub fn find_mark(marks: &Vec<(String, u64)>, local_id: &str) -> (r: Option<usize>)
    ensures
        match r {
            Some(i) => i < marks@.len() && marks@[i as int].0@ == local_id@ && mark_of(
                marks@,
                local_id@,
            ) == Some(marks@[i as int].1 as nat) && forall|k: int|
                0 <= k < i ==> (#[trigger] marks@[k]).0@ != local_id@,
            None => mark_of(marks@, local_id@) is None && forall|k: int|
                0 <= k < marks@.len() ==> (#[trigger] marks@[k]).0@ != local_id@,
        },
{
    let mut i: usize = 0;
    while i < marks.len()
        invariant
            i <= marks@.len(),
            forall|k: int| 0 <= k < i ==> (#[trigger] marks@[k]).0@ != local_id@,
        decreases marks@.len() - i,
    {
        if same(marks[i].0.as_str(), local_id) {
            proof {
                lemma_mark_of(marks@, local_id@, i as int);
            }
            return Some(i);
        }
        i = i + 1;
    }
    proof {
        lemma_mark_of(marks@, local_id@, i as int);
    }
    None
}

/// Changing or adding one record's mark leaves the others' as they were.
proof fn lemma_marks_changed(a: Seq<(String, u64)>, b: Seq<(String, u64)>, at: int, id: Seq<char>)
    requires
        0 <= at < b.len(),
        b.len() == a.len() || b.len() == a.len() + 1 && at == a.len(),
        b[at].0@ != id,
        at < a.len() ==> a[at].0@ != id,
        forall|k: int| 0 <= k < a.len() && k != at ==> (#[trigger] a[k]) == b[k],
    ensures
        mark_of(a, id) == mark_of(b, id),
    decreases a.len(),
{
    if a.len() == 0 {
        assert(b[0].0@ != id);
        assert(b.skip(1).len() == 0);
    } else if at == 0 {
        assert(a.skip(1) =~= b.skip(1));
    } else {
        assert(a[0] == b[0]);
        assert forall|k: int| 0 <= k < a.skip(1).len() && k != at - 1 implies (
        #[trigger] a.skip(1)[k]) == b.skip(1)[k] by {
            assert(a[k + 1] == b[k + 1]);
        }
        lemma_marks_changed(a.skip(1), b.skip(1), at - 1, id);
    }
}

/// The highest revision at which each record of an adapter was retracted.
pub fn retraction_high_water(store: &Store, adapter_id: &str) -> (r: Vec<(String, u64)>)
    ensures
        forall|local_id: Seq<char>|
            #[trigger] mark_of(r@, local_id) == high_water(
                store@.retractions,
                adapter_id@,
                local_id,
            ),
        forall|i: int, j: int| 0 <= i < j < r@.len() ==> (#[trigger] r@[i]).0@ != (#[trigger] r@[j]).0@,
{
    let rows = &store.tables.retractions;
    let mut r: Vec<(String, u64)> = Vec::new();
    let mut i: usize = 0;
    while i < rows.len()
        invariant
            i <= rows@.len(),
            forall|local_id: Seq<char>|
                #[trigger] mark_of(r@, local_id) == high_water(
                    views(rows@).take(i as int),
                    adapter_id@,
                    local_id,
                ),
            forall|i: int, j: int|
                0 <= i < j < r@.len() ==> (#[trigger] r@[i]).0@ != (#[trigger] r@[j]).0@,
        decreases rows@.len() - i,
    {
        let row = &rows[i];
        let ghost was = r@;
        let ghost front = views(rows@).take(i + 1);
        proof {
            assert(front.drop_last() =~= views(rows@).take(i as int));
            assert(front.last() == row@);
        }
        if same(row.adapter_id.as_str(), adapter_id) {
            match find_mark(&r, row.local_id.as_str()) {
                Some(at) => {
                    if r[at].1 < row.revision {
                        let id = r[at].0.clone();
                        r.set(at, (id, row.revision));
                        proof {
                            lemma_mark_of(r@, row.local_id@, at as int);
                            assert forall|id: Seq<char>| id != row.local_id@ implies mark_of(
                                was,
                                id,
                            ) == #[trigger] mark_of(r@, id) by {
                                lemma_marks_changed(was, r@, at as int, id);
                            }
                        }
                    }
                },
                None => {
                    r.push((row.local_id.clone(), row.revision));
                    proof {
                        lemma_mark_of(r@, row.local_id@, was.len() as int);
                        assert forall|id: Seq<char>| id != row.local_id@ implies mark_of(was, id)
                            == #[trigger] mark_of(r@, id) by {
                            lemma_marks_changed(was, r@, was.len() as int, id);
                        }
                    }
                },
            }
        }
        proof {
            assert forall|local_id: Seq<char>| #[trigger] mark_of(r@, local_id) == high_water(
                front,
                adapter_id@,
                local_id,
            ) by {
                assert(mark_of(was, local_id) == high_water(
                    front.drop_last(),
                    adapter_id@,
                    local_id,
                ));
            }
        }
        i = i + 1;
    }
    proof {
        assert(views(rows@).take(i as int) =~= views(rows@));
    }
    r
}

/// A record's retractions, in stored order.
pub open spec fn retractions_of(
    rows: Seq<crate::store::rows::RetractionView>,
    adapter_id: Seq<char>,
    local_id: Seq<char>,
) -> Seq<crate::store::rows::RetractionView>
    decreases rows.len(),
{
    if rows.len() == 0 {
        Seq::empty()
    } else {
        let before = retractions_of(rows.drop_last(), adapter_id, local_id);
        if rows.last().adapter_id == adapter_id && rows.last().local_id == local_id {
            before.push(rows.last())
        } else {
            before
        }
    }
}

/// A record's retractions, in stored order.
pub fn retractions_for(store: &Store, adapter_id: &str, local_id: &str) -> (r: Vec<RetractionRow>)
    ensures
        views(r@) == retractions_of(store@.retractions, adapter_id@, local_id@),
{
    let rows = &store.tables.retractions;
    let mut r: Vec<RetractionRow> = Vec::new();
    let mut i: usize = 0;
    while i < rows.len()
        invariant
            i <= rows@.len(),
            views(r@) == retractions_of(views(rows@).take(i as int), adapter_id@, local_id@),
        decreases rows@.len() - i,
    {
        proof {
            assert(views(rows@).take(i + 1).drop_last() =~= views(rows@).take(i as int));
        }
        if same(rows[i].adapter_id.as_str(), adapter_id) && same(
            rows[i].local_id.as_str(),
            local_id,
        ) {
            let row = rows[i].clone();
            proof {
                lemma_views_push(r@, row);
            }
            r.push(row);
        }
        i = i + 1;
    }
    proof {
        assert(views(rows@).take(i as int) =~= views(rows@));
    }
    r
}

/// A record is buried at a revision exactly if its mark is no lower.
pub proof fn lemma_buried_by_the_mark(s: StoreView, adapter_id: Seq<char>, local_id: Seq<char>, revision: nat)
    ensures
        s.buried(adapter_id, local_id, revision) == (high_water(
            s.retractions,
            adapter_id,
            local_id,
        ) matches Some(mark) && mark >= revision),
    decreases s.retractions.len(),
{
    if s.retractions.len() > 0 {
        let front = StoreView { retractions: s.retractions.drop_last(), ..s };
        lemma_buried_by_the_mark(front, adapter_id, local_id, revision);
        let row = s.retractions.last();
        if front.buried(adapter_id, local_id, revision) {
            let i = choose|i: int|
                0 <= i < front.retractions.len() && (#[trigger] front.retractions[i]).adapter_id
                    == adapter_id && front.retractions[i].local_id == local_id
                    && front.retractions[i].revision >= revision;
            assert(s.retractions[i] == front.retractions[i]);
        }
        if s.buried(adapter_id, local_id, revision) {
            let i = choose|i: int|
                0 <= i < s.retractions.len() && (#[trigger] s.retractions[i]).adapter_id
                    == adapter_id && s.retractions[i].local_id == local_id
                    && s.retractions[i].revision >= revision;
            if i < s.retractions.len() - 1 {
                assert(front.retractions[i] == s.retractions[i]);
            }
        }
        if row.adapter_id == adapter_id && row.local_id == local_id && row.revision >= revision {
            assert(s.retractions[s.retractions.len() - 1] == row);
        }
    }
}

/// Notes a discrepancy. A crawl that is not there is refused.
pub fn append_discrepancy(
    store: &mut Store,
    adapter_id: &str,
    resource_id: &str,
    kind: &str,
    crawl_id: i64,
    detail: &str,
    noted_at: &str,
) -> (r: Result<(), StoreError>)
    ensures
        ({
            let known = is_crawl(old(store)@.crawls, crawl_id as int);
            match r {
                Ok(_) => known && final(store)@ == old(store)@.with_discrepancy(
                    crate::store::rows::DiscrepancyView {
                        adapter_id: adapter_id@,
                        resource_id: resource_id@,
                        kind: kind@,
                        crawl_id: crawl_id as int,
                        detail: detail@,
                        noted_at: noted_at@,
                    },
                ),
                Err(e) => !known && final(store)@ == old(store)@ && e@ == dangling(),
            }
        }),
{
    let mut t = store.take();
    if !names_crawl(&t.crawls, crawl_id) {
        *store = Store { tables: t };
        return Err(refused_as_dangling());
    }
    let row = DiscrepancyRow {
        adapter_id: adapter_id.to_owned(),
        resource_id: resource_id.to_owned(),
        kind: kind.to_owned(),
        crawl_id,
        detail: detail.to_owned(),
        noted_at: noted_at.to_owned(),
    };
    proof {
        lemma_views_push(t.discrepancies@, row);
    }
    t.discrepancies.push(row);
    *store = Store { tables: t };
    Ok(())
}

proof fn lemma_read_added(s: StoreView, adapter_id: Seq<char>, started_at: Seq<char>)
    requires
        s.valid(),
    ensures
        s.with_read(adapter_id, started_at).valid(),
{
    let now = s.with_read(adapter_id, started_at);
    lemma_next_ascends(read_ids(s.reads));
    assert(read_ids(now.reads) =~= read_ids(s.reads).push(next_id(read_ids(s.reads))));
}

/// Opens a read of an adapter's balances. From here on nothing that an earlier
/// read brought is the latest.
pub fn open_read(store: &mut Store, adapter_id: &str, started_at: &str) -> (r: i64)
    requires
        next_id(read_ids(old(store)@.reads)) <= i64::MAX,
    ensures
        r == next_id(read_ids(old(store)@.reads)),
        final(store)@ == old(store)@.with_read(adapter_id@, started_at@),
{
    let mut t = store.take();
    let read_id: i64 = if t.reads.len() == 0 {
        1
    } else {
        t.reads[t.reads.len() - 1].read_id + 1
    };
    let row = ReadRow {
        read_id,
        adapter_id: adapter_id.to_owned(),
        started_at: started_at.to_owned(),
    };
    proof {
        lemma_read_added(t@, adapter_id@, started_at@);
        lemma_views_push(t.reads@, row);
    }
    t.reads.push(row);
    *store = Store { tables: t };
    read_id
}

proof fn lemma_balance_added(s: StoreView, row: crate::store::rows::StoredBalanceView)
    requires
        s.valid(),
        row.balance_id == next_id(balance_ids(s.balances)),
    ensures
        (StoreView { balances: s.balances.push(row), ..s }).valid(),
{
    let now = StoreView { balances: s.balances.push(row), ..s };
    lemma_next_ascends(balance_ids(s.balances));
    assert(balance_ids(now.balances) =~= balance_ids(s.balances).push(row.balance_id));
}

/// Appends a balance line, exactly as the adapter reported it.
pub fn append_balance(
    store: &mut Store,
    read_id: i64,
    adapter_id: &str,
    balance: Balance,
    outcome: &str,
)
    requires
        next_id(balance_ids(old(store)@.balances)) <= i64::MAX,
        is_read(old(store)@.reads, read_id as int),
    ensures
        final(store)@ == old(store)@.with_balance(
            read_id as int,
            adapter_id@,
            outcome@,
            balance@,
        ),
{
    let mut t = store.take();
    let row = StoredBalance {
        balance_id: if t.balances.len() == 0 {
            1
        } else {
            t.balances[t.balances.len() - 1].balance_id + 1
        },
        read_id,
        adapter_id: adapter_id.to_owned(),
        outcome: outcome.to_owned(),
        balance,
    };
    proof {
        lemma_balance_added(t@, row@);
        lemma_views_push(t.balances@, row);
    }
    t.balances.push(row);
    *store = Store { tables: t };
}

/// The newest read of an adapter.
fn latest_read(store: &Store, adapter_id: &str) -> (r: Option<i64>)
    ensures
        opt_id(r) == store@.latest_read(adapter_id@),
{
    let rows = &store.tables.reads;
    let mut i: usize = rows.len();
    proof {
        assert(views(rows@).take(i as int) =~= views(rows@));
    }
    while i > 0
        invariant
            i <= rows@.len(),
            views(rows@) == store@.reads,
            newest_read(views(rows@), adapter_id@) == newest_read(
                views(rows@).take(i as int),
                adapter_id@,
            ),
        decreases i,
    {
        let ghost front = views(rows@).take(i as int);
        i = i - 1;
        proof {
            assert(front.last() == rows@[i as int]@);
            assert(front.drop_last() =~= views(rows@).take(i as int));
        }
        if same(rows[i].adapter_id.as_str(), adapter_id) {
            return Some(rows[i].read_id);
        }
    }
    None
}

/// An id, if there is one.
pub open spec fn opt_id(id: Option<i64>) -> Option<int> {
    match id {
        Some(id) => Some(id as int),
        None => None,
    }
}

fn show_balance(row: &StoredBalance, latest: Option<i64>) -> (r: BalanceRow)
    ensures
        r@ == shown(row@, opt_id(latest)),
{
    BalanceRow {
        balance_id: row.balance_id,
        adapter_id: row.adapter_id.clone(),
        resource_id: row.balance.resource_id.clone(),
        category: row.balance.category.clone(),
        canonical_hint: copy_opt(&row.balance.canonical_hint),
        amount: copy_opt_amount(&row.balance.amount),
        provider_id: row.balance.provenance.provider_id.clone(),
        received_at: row.balance.provenance.received_at.as_str().to_owned(),
        staleness: row.balance.provenance.staleness,
        outcome: row.outcome.clone(),
        from_latest_read: match latest {
            Some(id) => row.read_id == id,
            None => false,
        },
    }
}

/// Every balance line that was ever recorded for a resource, oldest first, each
/// with whether the adapter's newest read is the one that wrote it.
pub fn balance_history(store: &Store, adapter_id: &str, resource_id: &str) -> (r: Vec<BalanceRow>)
    ensures
        views(r@) == store@.balance_lines(adapter_id@, resource_id@),
{
    let latest = latest_read(store, adapter_id);
    let rows = &store.tables.balances;
    let mut r: Vec<BalanceRow> = Vec::new();
    let mut i: usize = 0;
    while i < rows.len()
        invariant
            i <= rows@.len(),
            views(r@) == lines_of(
                views(rows@).take(i as int),
                adapter_id@,
                resource_id@,
                opt_id(latest),
            ),
        decreases rows@.len() - i,
    {
        proof {
            assert(views(rows@).take(i + 1).drop_last() =~= views(rows@).take(i as int));
        }
        if same(rows[i].adapter_id.as_str(), adapter_id) && same(
            rows[i].balance.resource_id.as_str(),
            resource_id,
        ) {
            let row = show_balance(&rows[i], latest);
            proof {
                lemma_views_push(r@, row);
            }
            r.push(row);
        }
        i = i + 1;
    }
    proof {
        assert(views(rows@).take(i as int) =~= views(rows@));
    }
    r
}

} // verus!
