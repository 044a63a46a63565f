//! What one connected adapter contributes to a refresh, read by read.

use crate::host::failure::{HostError, HostErrorView};
use crate::host::reads::BalancesRead;
use crate::store::error::{StoreError, StoreErrorView};
use crate::store::hash::{fingerprint_of, resource_fingerprint};
use crate::store::model::{
    ascending, balance_ids, is_read, lines_of, next_id, read_ids, StoreView,
};
use crate::store::refresh::{
    history_start, label_of, listed_all, needs_renewal, note_listing, outcome_label,
    renewal_needed, start_in, AdapterRefresh,
};
use crate::store::report::{InputView, ReportView, SweepInput, SweepOptions, SweepReport};
use crate::store::rows::{AdapterRow, AdapterView, StoredBalanceView};
use crate::store::sweep::{breaks_contract, broke_the_contract};
use crate::store::tables::{
    append_balance, open_read, set_adapter_derivation, set_needs_reauth, upsert_adapter, Store,
};
use crate::text::{copy_opt, debug_quoted, debug_text, lemma_views_push, opt_view, same, views};
use crate::wire::failure::ProtocolViolationKind;
use crate::wire::record::{
    opt_time_view, Balance, BalanceView, DescriptorView, ResourceDescriptor,
};
use crate::wire::status::{find_status, status_of, ResourceStatus, StatusView};
use vstd::prelude::*;

verus! {

/// How far the refresh of one adapter has come.
pub struct RunView {
    pub adapter_id: Seq<char>,
    pub read_id: int,
    pub derivation: Seq<char>,
    pub options: SweepOptions,
    pub resources: Seq<DescriptorView>,
    pub statuses: Seq<StatusView>,
    /// The first thing that the connection did to the wire contract.
    pub violation: Option<Seq<char>>,
    pub errors: Seq<Seq<char>>,
    pub sweeps: Seq<ReportView>,
}

/// The refresh of one adapter, over one connection.
pub struct AdapterRun {
    adapter_id: String,
    read_id: i64,
    derivation: String,
    options: SweepOptions,
    resources: Vec<ResourceDescriptor>,
    statuses: Vec<ResourceStatus>,
    violation: Option<String>,
    errors: Vec<String>,
    sweeps: Vec<SweepReport>,
}

impl View for AdapterRun {
    type V = RunView;

    closed spec fn view(&self) -> RunView {
        RunView {
            adapter_id: self.adapter_id@,
            read_id: self.read_id as int,
            derivation: self.derivation@,
            options: self.options,
            resources: views(self.resources@),
            statuses: views(self.statuses@),
            violation: opt_view(self.violation),
            errors: views(self.errors@),
            sweeps: views(self.sweeps@),
        }
    }
}

/// What is said of a connection that is not the adapter it was opened for.
pub open spec fn impostor(adapter_id: Seq<char>, announced: Seq<char>) -> StoreErrorView {
    StoreErrorView::Host(
        "the connection to adapter "@ + debug_text(adapter_id) + " announced adapter_id "@
            + debug_text(announced),
    )
}

/// How a balance line's outcome is stored.
pub open spec fn line_label(statuses: Seq<StatusView>, resource_id: Seq<char>) -> Seq<char> {
    match status_of(statuses, resource_id) {
        Some(status) => label_of(status.outcome),
        None => "unknown"@,
    }
}

/// The store after these balance lines.
pub open spec fn with_lines(
    s: StoreView,
    read_id: int,
    adapter_id: Seq<char>,
    lines: Seq<BalanceView>,
    statuses: Seq<StatusView>,
) -> StoreView
    decreases lines.len(),
{
    if lines.len() == 0 {
        s
    } else {
        let b = lines.last();
        with_lines(s, read_id, adapter_id, lines.drop_last(), statuses).with_balance(
            read_id,
            adapter_id,
            line_label(statuses, b.resource_id),
            b,
        )
    }
}

/// A run after its balances could not be read. Only a broken contract counts
/// against the sweeps that follow; an honest failure says nothing about them.
pub open spec fn balances_failed(run: RunView, error: HostErrorView) -> RunView {
    RunView {
        errors: run.errors.push("balances.read failed: "@ + error.message()),
        violation: if breaks_contract(error) && run.violation is None {
            Some("balances.read broke the wire contract: "@ + error.message())
        } else {
            run.violation
        },
        ..run
    }
}

/// What the next sweep of a run is given.
pub open spec fn sweep_input(run: RunView) -> InputView {
    let d = run.resources[run.sweeps.len() as int];
    InputView {
        adapter_id: run.adapter_id,
        resource_id: d.resource_id,
        hello_derivation: run.derivation,
        fingerprint: fingerprint_of(d),
        provider_id: d.provider_id,
        history_start: opt_time_view(start_in(run.statuses, d.resource_id)),
        connection_violation: run.violation,
        options: run.options,
    }
}

/// A run after a sweep: what the sweep's own read did to the contract counts
/// against the sweeps after it.
pub open spec fn after_sweep(run: RunView, report: ReportView) -> RunView {
    RunView {
        sweeps: run.sweeps.push(report),
        violation: if run.violation is None {
            report.contract_violation
        } else {
            run.violation
        },
        ..run
    }
}

/// A refresh of one adapter that is still to be connected.
pub struct OpeningView {
    pub adapter: AdapterView,
    pub read_id: int,
}

/// A refresh of one adapter that is still to be connected. Its read is open
/// already: whatever fails from here on, nothing that an earlier read brought is
/// the latest.
pub struct Opening {
    adapter: AdapterRow,
    read_id: i64,
}

impl View for Opening {
    type V = OpeningView;

    closed spec fn view(&self) -> OpeningView {
        OpeningView { adapter: self.adapter@, read_id: self.read_id as int }
    }
}

impl Opening {
    /// Opens the read of an adapter's refresh.
    pub fn begin(store: &mut Store, adapter: AdapterRow, now: &str) -> (r: Opening)
        requires
            next_id(read_ids(old(store)@.reads)) <= i64::MAX,
        ensures
            final(store)@ == old(store)@.with_read(adapter@.adapter_id, now@),
            r@ == (OpeningView {
                adapter: adapter@,
                read_id: next_id(read_ids(old(store)@.reads)),
            }),
    {
        let read_id = open_read(store, adapter.adapter_id.as_str(), now);
        Opening { adapter, read_id }
    }

    /// The adapter that is refreshed.
    pub fn adapter_id(&self) -> (r: &str)
        ensures
            r@ == self@.adapter.adapter_id,
    {
        self.adapter.adapter_id.as_str()
    }

    /// The command line to start the adapter with.
    pub fn argv(&self) -> (r: &Vec<String>)
        ensures
            views(r@) == self@.adapter.argv,
    {
        &self.adapter.argv
    }

    /// Takes what the connection announced itself as. One that announces another
    /// adapter is refused as a whole: nothing that it says can be attributed to a
    /// record that it does not claim.
    pub fn on_hello(self, announced: &str, derivation: &str, options: SweepOptions) -> (r: Result<
        AdapterRun,
        StoreError,
    >)
        ensures
            match r {
                Ok(run) => self@.adapter.adapter_id == announced@ && run@ == (RunView {
                    adapter_id: self@.adapter.adapter_id,
                    read_id: self@.read_id,
                    derivation: derivation@,
                    options,
                    resources: Seq::empty(),
                    statuses: Seq::empty(),
                    violation: None,
                    errors: Seq::empty(),
                    sweeps: Seq::empty(),
                }),
                Err(e) => self@.adapter.adapter_id != announced@ && e@ == impostor(
                    self@.adapter.adapter_id,
                    announced@,
                ),
            },
    {
        let Opening { adapter, read_id } = self;
        if !same(adapter.adapter_id.as_str(), announced) {
            let mut message = "the connection to adapter ".to_owned();
            message.append(debug_quoted(adapter.adapter_id.as_str()).as_str());
            message.append(" announced adapter_id ");
            message.append(debug_quoted(announced).as_str());
            return Err(StoreError::Host(message));
        }
        let run = AdapterRun {
            adapter_id: adapter.adapter_id,
            read_id,
            derivation: derivation.to_owned(),
            options,
            resources: Vec::new(),
            statuses: Vec::new(),
            violation: None,
            errors: Vec::new(),
            sweeps: Vec::new(),
        };
        proof {
            assert(run@.resources =~= Seq::<DescriptorView>::empty());
            assert(run@.statuses =~= Seq::<StatusView>::empty());
            assert(run@.errors =~= Seq::<Seq<char>>::empty());
            assert(run@.sweeps =~= Seq::<ReportView>::empty());
        }
        Ok(run)
    }
}

impl AdapterRun {
    /// Takes what the adapter listed.
    pub fn on_listing(self, store: &mut Store, resources: Vec<ResourceDescriptor>) -> (r: Result<
        AdapterRun,
        StoreError,
    >)
        ensures
            match r {
                Ok(run) => (old(store)@.has_adapter(self@.adapter_id) || resources@.len() == 0)
                    && final(store)@ == listed_all(
                    old(store)@,
                    self@.adapter_id,
                    views(resources@),
                ) && run@ == (RunView { resources: views(resources@), ..self@ }),
                Err(e) => !old(store)@.has_adapter(self@.adapter_id) && resources@.len() > 0
                    && final(store)@ == old(store)@ && e@ == StoreErrorView::Sqlite(
                    "FOREIGN KEY constraint failed"@,
                ),
            },
    {
        let mut run = self;
        if let Err(e) = note_listing(store, run.adapter_id.as_str(), &resources) {
            return Err(e);
        }
        run.resources = resources;
        Ok(run)
    }

    /// The resources to ask about.
    pub fn resource_ids(&self) -> (r: Vec<String>)
        ensures
            views(r@) == Seq::new(
                self@.resources.len(),
                |i: int| self@.resources[i].resource_id,
            ),
    {
        let mut r: Vec<String> = Vec::new();
        let mut i: usize = 0;
        while i < self.resources.len()
            invariant
                i <= self.resources@.len(),
                r@.len() == i,
                forall|k: int|
                    0 <= k < i ==> (#[trigger] r@[k])@ == self.resources@[k].resource_id@,
            decreases self.resources@.len() - i,
        {
            r.push(self.resources[i].resource_id.clone());
            i = i + 1;
        }
        proof {
            assert(views(r@) =~= Seq::new(
                self@.resources.len(),
                |i: int| self@.resources[i].resource_id,
            ));
        }
        r
    }

    /// Takes what the adapter said of its resources.
    pub fn on_statuses(self, store: &mut Store, statuses: Vec<ResourceStatus>) -> (r: AdapterRun)
        ensures
            final(store)@ == old(store)@.with_reauth(
                self@.adapter_id,
                needs_renewal(views(statuses@)),
            ),
            r@ == (RunView { statuses: views(statuses@), ..self@ }),
    {
        let mut run = self;
        set_needs_reauth(store, run.adapter_id.as_str(), renewal_needed(&statuses));
        run.statuses = statuses;
        run
    }

    /// Takes the balances, or the failure to read them. A read that did not
    /// happen writes nothing: it can erase no figure, and invent none.
    pub fn on_balances(self, store: &mut Store, outcome: Result<BalancesRead, HostError>) -> (r:
        AdapterRun)
        requires
            is_read(old(store)@.reads, self@.read_id),
            outcome matches Ok(read) ==> next_id(balance_ids(old(store)@.balances))
                + read.observations@.len() - 1 <= i64::MAX,
        ensures
            match outcome {
                Ok(read) => r@ == self@ && final(store)@ == with_lines(
                    old(store)@,
                    self@.read_id,
                    self@.adapter_id,
                    views(read.observations@),
                    views(read.statuses@),
                ),
                Err(e) => r@ == balances_failed(self@, e@) && final(store)@ == old(store)@,
            },
    {
        match outcome {
            Ok(read) => {
                let BalancesRead { observations, statuses } = read;
                append_lines(
                    store,
                    self.read_id,
                    self.adapter_id.as_str(),
                    observations,
                    &statuses,
                );
                self
            },
            Err(e) => {
                let ghost was = self@;
                let mut run = self;
                let message = e.to_string();
                if broke_the_contract(&e) && run.violation.is_none() {
                    let mut what = "balances.read broke the wire contract: ".to_owned();
                    what.append(message.as_str());
                    run.violation = Some(what);
                }
                let mut error = "balances.read failed: ".to_owned();
                error.append(message.as_str());
                proof {
                    lemma_views_push(run.errors@, error);
                }
                run.errors.push(error);
                proof {
                    assert(run@ == balances_failed(was, e@));
                }
                run
            },
        }
    }

    /// What the next sweep is given; `None` once every resource was swept.
    pub fn next_sweep(&self) -> (r: Option<SweepInput>)
        ensures
            match r {
                Some(input) => self@.sweeps.len() < self@.resources.len() && input@ == sweep_input(
                    self@,
                ),
                None => self@.sweeps.len() >= self@.resources.len(),
            },
    {
        if self.sweeps.len() >= self.resources.len() {
            return None;
        }
        let d = &self.resources[self.sweeps.len()];
        Some(
            SweepInput {
                adapter_id: self.adapter_id.clone(),
                resource_id: d.resource_id.clone(),
                hello_derivation: self.derivation.clone(),
                fingerprint: resource_fingerprint(d),
                provider_id: d.provider_id.clone(),
                history_start: history_start(&self.statuses, d.resource_id.as_str()),
                connection_violation: copy_opt(&self.violation),
                options: self.options,
            },
        )
    }

    /// Takes the report of a sweep.
    pub fn on_sweep(self, report: SweepReport) -> (r: AdapterRun)
        ensures
            r@ == after_sweep(self@, report@),
    {
        let mut run = self;
        if run.violation.is_none() {
            run.violation = copy_opt(&report.contract_violation);
        }
        proof {
            lemma_views_push(run.sweeps@, report);
        }
        run.sweeps.push(report);
        run
    }

    /// What the adapter contributed.
    pub fn finish(self) -> (r: AdapterRefresh)
        ensures
            views(r.sweeps@) == self@.sweeps,
            views(r.errors@) == self@.errors,
    {
        AdapterRefresh { sweeps: self.sweeps, errors: self.errors }
    }
}

fn append_lines(
    store: &mut Store,
    read_id: i64,
    adapter_id: &str,
    lines: Vec<Balance>,
    statuses: &Vec<ResourceStatus>,
)
    requires
        is_read(old(store)@.reads, read_id as int),
        next_id(balance_ids(old(store)@.balances)) + lines@.len() - 1 <= i64::MAX,
    ensures
        final(store)@ == with_lines(
            old(store)@,
            read_id as int,
            adapter_id@,
            views(lines@),
            views(statuses@),
        ),
{
    let ghost s = store@;
    let ghost all = views(lines@);
    let ghost given = lines@;
    for line in iter: lines
        invariant
            iter.seq() == given,
            all == views(given),
            is_read(s.reads, read_id as int),
            next_id(balance_ids(s.balances)) + given.len() - 1 <= i64::MAX,
            store@.reads == s.reads,
            next_id(balance_ids(store@.balances)) == next_id(balance_ids(s.balances))
                + iter.index(),
            store@ == with_lines(
                s,
                read_id as int,
                adapter_id@,
                all.take(iter.index() as int),
                views(statuses@),
            ),
    {
        let ghost k = iter.index() as int;
        proof {
            assert(all.take(k + 1).drop_last() =~= all.take(k));
            assert(all.take(k + 1).last() == line@);
        }
        let label = match find_status(statuses.as_slice(), line.resource_id.as_str()) {
            Some(i) => outcome_label(&statuses[i].outcome),
            None => "unknown".to_owned(),
        };
        append_balance(store, read_id, adapter_id, line, label.as_str());
    }
    proof {
        assert(all.take(all.len() as int) =~= all);
    }
}

/// What is said of an adapter that cannot be connected.
pub open spec fn broken_on_exit(kind: ProtocolViolationKind) -> StoreErrorView {
    StoreErrorView::Host("the adapter broke the wire contract: "@ + kind.spec_name())
}

/// Connects an adapter: notes its command line, its derivation and what it
/// listed. An adapter whose connection ended in a violation is not connected, and
/// nothing is written.
pub fn connect(
    store: &mut Store,
    adapter_id: &str,
    derivation: &str,
    argv: &Vec<String>,
    resources: &Vec<ResourceDescriptor>,
    ended: Option<ProtocolViolationKind>,
) -> (r: Result<(), StoreError>)
    ensures
        match (r, ended) {
            (Ok(_), None) => final(store)@ == listed_all(
                old(store)@.with_adapter(adapter_id@, views(argv@)).with_derivation(
                    adapter_id@,
                    derivation@,
                ),
                adapter_id@,
                views(resources@),
            ),
            (Err(e), Some(kind)) => final(store)@ == old(store)@ && e@ == broken_on_exit(kind),
            _ => false,
        },
{
    if let Some(kind) = ended {
        let mut message = "the adapter broke the wire contract: ".to_owned();
        message.append(kind.name());
        return Err(StoreError::Host(message));
    }
    let ghost s = store@;
    proof {
        use_type_invariant(&*store);
    }
    upsert_adapter(store, adapter_id, argv);
    proof {
        lemma_connected(s, adapter_id@, views(argv@));
    }
    let ghost mid = store@;
    set_adapter_derivation(store, adapter_id, derivation);
    proof {
        assert(crate::store::model::adapter_keys(store@.adapters)
            =~= crate::store::model::adapter_keys(mid.adapters));
        assert(store@.has_adapter(adapter_id@));
    }
    note_listing(store, adapter_id, resources)
}

/// An adapter that was just connected is connected.
proof fn lemma_connected(s: StoreView, adapter_id: Seq<char>, argv: Seq<Seq<char>>)
    requires
        s.valid(),
    ensures
        s.with_adapter(adapter_id, argv).has_adapter(adapter_id),
{
    let now = s.with_adapter(adapter_id, argv);
    let p = s.adapter_place(adapter_id) as int;
    let keys = crate::store::model::adapter_keys(s.adapters);
    let key = crate::store::model::adapter_key(adapter_id);
    crate::store::order::lemma_place_of(keys, key);
    let after = crate::store::model::adapter_keys(now.adapters);
    assert(now.adapters[p].adapter_id == adapter_id);
    crate::store::order::lemma_key_order(key, key, key);
    assert forall|k: int| 0 <= k < p implies crate::store::order::key_before(
        #[trigger] after[k],
        key,
    ) by {
        assert(after[k] == keys[k]);
    }
    assert(after[p] == key);
    crate::store::order::lemma_place_is(after, key, p);
}

/// A refresh that fails anywhere leaves nothing reading live: once a read of an
/// adapter is open, no line that an earlier read brought is from the latest.
pub proof fn law_an_open_read_leaves_nothing_latest(
    s: StoreView,
    adapter_id: Seq<char>,
    started_at: Seq<char>,
    resource_id: Seq<char>,
    i: int,
)
    requires
        s.valid(),
        s.lines_were_read(),
        0 <= i < s.with_read(adapter_id, started_at).balance_lines(adapter_id, resource_id).len(),
    ensures
        !s.with_read(adapter_id, started_at).balance_lines(
            adapter_id,
            resource_id,
        )[i].from_latest_read,
{
    let after = s.with_read(adapter_id, started_at);
    assert(after.reads.last().adapter_id == adapter_id);
    let ids = read_ids(s.reads);
    let latest = next_id(ids);
    assert(after.latest_read(adapter_id) == Some(latest));
    assert forall|k: int| 0 <= k < s.balances.len() implies (#[trigger] s.balances[k]).read_id
        != latest by {
        let id = s.balances[k].read_id;
        assert(is_read(s.reads, id));
        let j = choose|j: int| 0 <= j < s.reads.len() && (#[trigger] s.reads[j]).read_id == id;
        assert(ids[j] == id);
        assert(ascending(ids));
        if j < ids.len() - 1 {
            assert(ids[j] < ids[ids.len() - 1]);
        }
    }
    lemma_no_latest_lines(s.balances, adapter_id, resource_id, latest);
}

proof fn lemma_no_latest_lines(
    rows: Seq<StoredBalanceView>,
    adapter_id: Seq<char>,
    resource_id: Seq<char>,
    latest: int,
)
    requires
        forall|k: int| 0 <= k < rows.len() ==> (#[trigger] rows[k]).read_id != latest,
    ensures
        forall|i: int|
            0 <= i < lines_of(rows, adapter_id, resource_id, Some(latest)).len() ==> !(
            #[trigger] lines_of(rows, adapter_id, resource_id, Some(latest))[i]).from_latest_read,
    decreases rows.len(),
{
    if rows.len() > 0 {
        assert(rows[rows.len() - 1].read_id != latest);
        assert forall|k: int| 0 <= k < rows.drop_last().len() implies (
        #[trigger] rows.drop_last()[k]).read_id != latest by {
            assert(rows.drop_last()[k] == rows[k]);
        }
        lemma_no_latest_lines(rows.drop_last(), adapter_id, resource_id, latest);
    }
}

/// A violation taints forward, and its first reason stays: every sweep that is
/// begun after it is told of it.
pub proof fn law_a_violation_taints_what_follows(run: RunView, report: ReportView)
    ensures
        run.violation is Some ==> after_sweep(run, report).violation == run.violation,
        run.violation is None ==> after_sweep(run, report).violation
            == report.contract_violation,
        sweep_input(after_sweep(run, report)).connection_violation == after_sweep(
            run,
            report,
        ).violation,
{
}

/// An honest failure to read balances taints nothing, and a broken contract
/// taints every sweep; either is reported.
pub proof fn law_only_a_broken_contract_taints(run: RunView, error: HostErrorView)
    ensures
        !breaks_contract(error) ==> balances_failed(run, error).violation == run.violation,
        breaks_contract(error) ==> balances_failed(run, error).violation is Some,
        balances_failed(run, error).errors.len() == run.errors.len() + 1,
{
}

} // verus!
