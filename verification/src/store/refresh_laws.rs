//! What a refresh does with what an adapter answers, and what it tells the user.

use crate::host::failure::HostErrorView;
use crate::store::adapter_run::{
    after_sweep, balances_failed, broken_on_exit, impostor, line_label, sweep_input, with_lines,
    RunView,
};
use crate::store::commands::{connect_texts, refresh_texts, report_texts, sweeps_texts};
use crate::store::error::StoreErrorView;
use crate::store::hash::{content_digest, fingerprint_of};
use crate::store::ingest::{admits_all, collides, ingested, ingested_all};
use crate::store::model::{balance_ids, next_id, observation_ids, StoreView};
use crate::store::refresh::{adapter_trouble, any_failed};
use crate::store::render::sweep_text;
use crate::store::report::{InputView, ReportView};
use crate::store::rows::{StoredBalanceView, StoredView};
use crate::store::sweep::{breaks_contract, failed_report, failure_reason, SweepView};
use crate::text::{debug_text, decimal};
use crate::wire::failure::{ProtocolViolationKind, WireErrorCode};
use crate::wire::record::{BalanceView, DescriptorView, ObservationView};
use crate::wire::status::{lemma_status_place, ReadOutcome, StatusView};
use vstd::prelude::*;

verus! {

/// How an answer is written down beside the lines that it is about.
pub open spec fn written(outcome: ReadOutcome) -> Seq<char> {
    match outcome {
        ReadOutcome::Fetched { .. } => "fetched"@,
        ReadOutcome::NotFetched => "not_fetched"@,
        ReadOutcome::Stale { as_of } => "stale:"@ + as_of@,
        ReadOutcome::RateLimited { .. } => "rate_limited"@,
        ReadOutcome::Unavailable => "unavailable"@,
        ReadOutcome::ReauthRequired => "reauth_required"@,
        ReadOutcome::Revoked => "revoked"@,
        ReadOutcome::Gone => "gone"@,
        ReadOutcome::ScaRequired => "sca_required"@,
    }
}

/// A balance line is stored with the first answer that its resource got; without one, the
/// answer is unknown.
pub proof fn law_a_line_keeps_its_resources_answer(
    statuses: Seq<StatusView>,
    resource_id: Seq<char>,
    k: int,
)
    ensures
        0 <= k < statuses.len() && statuses[k].resource_id == resource_id && (forall|j: int|
            0 <= j < k ==> (#[trigger] statuses[j]).resource_id != resource_id) ==> line_label(
            statuses,
            resource_id,
        ) == written(statuses[k].outcome),
        (forall|j: int|
            0 <= j < statuses.len() ==> (#[trigger] statuses[j]).resource_id != resource_id)
            ==> line_label(statuses, resource_id) == "unknown"@,
{
    lemma_status_place(statuses, resource_id);
}

/// The lines of a read are stored behind those that were there, in order, each as it was
/// read and under the next id.
pub proof fn law_every_line_is_stored(
    s: StoreView,
    read_id: int,
    adapter_id: Seq<char>,
    lines: Seq<BalanceView>,
    statuses: Seq<StatusView>,
)
    ensures
        with_lines(s, read_id, adapter_id, lines, statuses) == (StoreView {
            balances: s.balances + Seq::new(
                lines.len(),
                |i: int|
                    StoredBalanceView {
                        balance_id: (if s.balances.len() == 0 {
                            1
                        } else {
                            s.balances.last().balance_id + 1
                        }) + i,
                        read_id,
                        adapter_id,
                        outcome: line_label(statuses, lines[i].resource_id),
                        balance: lines[i],
                    },
            ),
            ..s
        }),
    decreases lines.len(),
{
    let first = if s.balances.len() == 0 {
        1
    } else {
        s.balances.last().balance_id + 1
    };
    let row = |i: int|
        StoredBalanceView {
            balance_id: first + i,
            read_id,
            adapter_id,
            outcome: line_label(statuses, lines[i].resource_id),
            balance: lines[i],
        };
    let all = s.balances + Seq::new(lines.len(), row);
    let now = with_lines(s, read_id, adapter_id, lines, statuses);
    if lines.len() > 0 {
        let front = lines.drop_last();
        law_every_line_is_stored(s, read_id, adapter_id, front, statuses);
        let before = with_lines(s, read_id, adapter_id, front, statuses);
        if front.len() == 0 {
            assert(before.balances =~= s.balances);
        } else {
            assert(before.balances.last() == before.balances[s.balances.len() + front.len() - 1]);
        }
        assert(next_id(balance_ids(before.balances)) == first + front.len());
        assert(now.balances =~= all);
    } else {
        assert(all =~= s.balances);
    }
}

/// Every listed resource is swept, in the order of the listing, under what the adapter
/// announced and what the resource was just listed as; its history begins where its own
/// first status says.
pub proof fn law_resources_are_swept_in_turn(run: RunView, k: int)
    requires
        run.sweeps.len() < run.resources.len(),
        0 <= k < run.statuses.len(),
        run.statuses[k].resource_id == run.resources[run.sweeps.len() as int].resource_id,
        forall|j: int|
            0 <= j < k ==> (#[trigger] run.statuses[j]).resource_id
                != run.resources[run.sweeps.len() as int].resource_id,
    ensures
        ({
            let d = run.resources[run.sweeps.len() as int];
            let start = run.statuses[k].history_start;
            sweep_input(run) == (InputView {
                adapter_id: run.adapter_id,
                resource_id: d.resource_id,
                hello_derivation: run.derivation,
                fingerprint: fingerprint_of(d),
                provider_id: d.provider_id,
                history_start: if start is Some {
                    Some(start->0@)
                } else {
                    None
                },
                connection_violation: run.violation,
                options: run.options,
            })
        }),
{
    lemma_status_place(run.statuses, run.resources[run.sweeps.len() as int].resource_id);
}

/// A resource that no status is about has no known start of its history.
pub proof fn law_an_unmentioned_resource_has_no_start(run: RunView)
    requires
        run.sweeps.len() < run.resources.len(),
        forall|j: int|
            0 <= j < run.statuses.len() ==> (#[trigger] run.statuses[j]).resource_id
                != run.resources[run.sweeps.len() as int].resource_id,
    ensures
        sweep_input(run).history_start is None,
{
    lemma_status_place(run.statuses, run.resources[run.sweeps.len() as int].resource_id);
}

/// A report is kept behind the earlier ones, and a violation is the first there was.
pub proof fn law_a_report_is_kept(run: RunView, report: ReportView)
    ensures
        after_sweep(run, report) == (RunView {
            sweeps: run.sweeps.push(report),
            violation: if run.violation is Some {
                run.violation
            } else {
                report.contract_violation
            },
            ..run
        }),
{
}

/// Whether a failure is the connection's fault: a reply that it was no valid request, or
/// any violation of the protocol. A timeout, a crash, a failed start and an honest error
/// are none.
pub proof fn law_whose_fault_a_failure_is(error: HostErrorView)
    ensures
        breaks_contract(error) <==> match error {
            HostErrorView::Wire(err) => match err.code {
                WireErrorCode::InvalidRequest => true,
                WireErrorCode::UnsupportedProtocol => false,
                WireErrorCode::Unsupported => false,
                WireErrorCode::Internal => false,
            },
            HostErrorView::Timeout => false,
            HostErrorView::AdapterCrashed(_) => false,
            HostErrorView::ProtocolViolation(_) => true,
            HostErrorView::Spawn(_) => false,
            HostErrorView::IdsExhausted => false,
        },
{
}

/// A failed read of balances is reported with its message, and taints the rest of the
/// refresh exactly if it is the connection's fault and nothing did before.
pub proof fn law_a_failed_balances_read_is_reported(run: RunView, error: HostErrorView)
    ensures
        balances_failed(run, error) == (RunView {
            errors: run.errors.push("balances.read failed: "@ + error.message()),
            violation: if run.violation is None && breaks_contract(error) {
                Some("balances.read broke the wire contract: "@ + error.message())
            } else {
                run.violation
            },
            ..run
        }),
{
}

/// A failed page is reported with its number and its message; what was counted before it
/// stands, and it is no completed sweep.
pub proof fn law_a_failed_page_is_reported(w: SweepView, error: HostErrorView)
    requires
        !w.report.complete,
        w.report.contract_violation is None,
    ensures
        ({
            let reason = "adapter_failed_on_page_"@ + decimal(w.page_number) + ": "@
                + error.message();
            failure_reason(w, error) == reason && failed_report(w, error) == (ReportView {
                complete: false,
                disqualified_reason: Some(reason),
                error: Some(reason),
                contract_violation: if breaks_contract(error) {
                    Some("history.read broke the wire contract: "@ + error.message())
                } else {
                    None
                },
                ..w.report
            })
        }),
{
}

/// A report begins with nothing done and nothing said.
pub proof fn law_a_report_begins_with_nothing(adapter_id: Seq<char>, resource_id: Seq<char>)
    ensures
        ({
            let r = ReportView::unbegun(adapter_id, resource_id);
            &&& r.adapter_id == adapter_id
            &&& r.resource_id == resource_id
            &&& r.crawl_id is None
            &&& r.new == 0 && r.revised == 0 && r.unchanged == 0 && r.retracted == 0
            &&& !r.complete
            &&& r.disqualified_reason is None
            &&& r.discrepancies.len() == 0
            &&& r.error is None
            &&& r.contract_violation is None
        }),
{
}

/// A refresh fails exactly if an adapter had an error or a sweep had one. A partial sweep
/// is no failure.
pub proof fn law_a_refresh_fails_exactly_if(
    sweeps: Seq<ReportView>,
    errors: Seq<(Seq<char>, Seq<char>)>,
)
    ensures
        !any_failed(sweeps, errors) <==> errors.len() == 0 && forall|i: int|
            0 <= i < sweeps.len() ==> (#[trigger] sweeps[i]).error is None,
{
    if any_failed(sweeps, errors) && errors.len() == 0 {
        let i = choose|i: int| 0 <= i < sweeps.len() && (#[trigger] sweeps[i]).error is Some;
        assert(!(sweeps[i].error is None));
    }
}

/// Whatever went wrong with an adapter is put down to it: each of its errors, or the one
/// that ended its refresh, and last how its connection ended, if that was a violation.
pub proof fn law_trouble_is_put_down_to_its_adapter(
    adapter_id: Seq<char>,
    outcome: Result<Seq<Seq<char>>, StoreErrorView>,
    ended: Option<ProtocolViolationKind>,
)
    ensures
        ({
            let all = adapter_trouble(adapter_id, outcome, ended);
            let own = match outcome {
                Ok(errors) => errors,
                Err(e) => seq![e.message()],
            };
            &&& all.len() == own.len() + (if ended is Some {
                1int
            } else {
                0
            })
            &&& forall|i: int|
                0 <= i < own.len() ==> #[trigger] all[i] == (adapter_id, own[i])
            &&& ended is Some ==> all.last() == (
                adapter_id,
                "the connection ended in a wire-contract violation: "@ + ended->0.spec_name(),
            )
        }),
{
}

/// A connection that announces another adapter is refused by both names, and one that
/// broke the contract on its way out by what it did.
pub proof fn law_what_a_refused_connection_is_told(
    adapter_id: Seq<char>,
    announced: Seq<char>,
    kind: ProtocolViolationKind,
)
    ensures
        impostor(adapter_id, announced) == StoreErrorView::Host(
            "the connection to adapter "@ + debug_text(adapter_id) + " announced adapter_id "@
                + debug_text(announced),
        ),
        broken_on_exit(kind) == StoreErrorView::Host(
            "the adapter broke the wire contract: "@ + kind.spec_name(),
        ),
{
}

/// A record is refused exactly if it would be stored at a revision that another row already
/// has. A page is refused exactly if one of its records is, in its turn.
pub proof fn law_when_a_page_is_refused(
    s: StoreView,
    input: InputView,
    crawl_id: int,
    records: Seq<ObservationView>,
    o: ObservationView,
)
    ensures
        ({
            let chain = s.chain(input.adapter_id, o.local_id);
            collides(s, input.adapter_id, o) <==> !(ingested(s, input, crawl_id, o).1 is Unchanged)
                && exists|i: int|
                0 <= i < s.observations.len() && (#[trigger] s.observations[i]).adapter_id
                    == input.adapter_id && s.observations[i].observation.local_id == o.local_id
                    && s.observations[i].revision == chain.len() + 1
        }),
        admits_all(s, input, crawl_id, Seq::empty()),
        admits_all(s, input, crawl_id, records.push(o)) <==> admits_all(
            s,
            input,
            crawl_id,
            records,
        ) && !collides(ingested_all(s, input, crawl_id, records).0, input.adapter_id, o),
{
    assert(records.push(o).drop_last() =~= records);
    let n = s.chain(input.adapter_id, o.local_id).len() + 1;
    if s.has_revision(input.adapter_id, o.local_id, n) {
        let i = choose|i: int|
            0 <= i < s.observations.len() && crate::store::model::is_row_of(
                #[trigger] s.observations[i],
                input.adapter_id,
                o.local_id,
                n,
            );
        assert(s.observations[i].revision == n);
    }
    if exists|i: int|
        0 <= i < s.observations.len() && (#[trigger] s.observations[i]).adapter_id
            == input.adapter_id && s.observations[i].observation.local_id == o.local_id
            && s.observations[i].revision == n {
        let i = choose|i: int|
            0 <= i < s.observations.len() && (#[trigger] s.observations[i]).adapter_id
                == input.adapter_id && s.observations[i].observation.local_id == o.local_id
                && s.observations[i].revision == n;
        assert(crate::store::model::is_row_of(
            s.observations[i],
            input.adapter_id,
            o.local_id,
            n,
        ));
    }
}

/// What a carried record becomes. One that was never stored is new, at its first
/// revision. One whose content is what its chain ends with, and that was not retracted
/// since, is unchanged: nothing is stored of it but that this crawl saw it, and under what
/// rules. Any other is a revision, one above the number of its arrivals.
pub proof fn law_what_a_carried_record_becomes(
    s: StoreView,
    input: InputView,
    crawl_id: int,
    o: ObservationView,
)
    ensures
        ({
            let chain = s.chain(input.adapter_id, o.local_id);
            let (t, what) = ingested(s, input, crawl_id, o);
            let retracted = exists|i: int|
                0 <= i < s.retractions.len() && (#[trigger] s.retractions[i]).adapter_id
                    == input.adapter_id && s.retractions[i].local_id == o.local_id
                    && s.retractions[i].revision >= chain.len();
            let same = chain.len() > 0 && !retracted && content_digest(chain.last().observation)
                == content_digest(o);
            &&& what is New <==> chain.len() == 0
            &&& what is Unchanged <==> same
            &&& what is Revised <==> chain.len() > 0 && !same
            &&& !same ==> t == (StoreView {
                observations: s.observations.push(
                    StoredView {
                        observation_id: if s.observations.len() == 0 {
                            1
                        } else {
                            s.observations.last().observation_id + 1
                        },
                        adapter_id: input.adapter_id,
                        revision: chain.len() + 1,
                        crawl_id,
                        last_seen_crawl: crawl_id,
                        derivation: input.hello_derivation,
                        fingerprint: Some(input.fingerprint),
                        content_hash: content_digest(o),
                        observation: o,
                    },
                ),
                ..s
            })
            &&& same ==> {
                &&& t == (StoreView { observations: t.observations, ..s })
                &&& t.observations.len() == s.observations.len()
                &&& forall|i: int|
                    0 <= i < s.observations.len() ==> {
                        let row = s.observations[i];
                        #[trigger] t.observations[i] == (if row.adapter_id == input.adapter_id
                            && row.observation.local_id == o.local_id && row.revision
                            == chain.last().revision {
                            StoredView {
                                last_seen_crawl: crawl_id,
                                derivation: input.hello_derivation,
                                fingerprint: Some(input.fingerprint),
                                ..row
                            }
                        } else {
                            row
                        })
                    }
            }
        }),
{
    let chain = s.chain(input.adapter_id, o.local_id);
    assert(next_id(observation_ids(s.observations)) == (if s.observations.len() == 0 {
        1
    } else {
        s.observations.last().observation_id + 1
    }));
}

/// The records of a page are taken one after the other, and each is counted once.
pub proof fn law_every_carried_record_counts_once(
    s: StoreView,
    input: InputView,
    crawl_id: int,
    records: Seq<ObservationView>,
    o: ObservationView,
)
    ensures
        ingested_all(s, input, crawl_id, Seq::empty()).0 == s,
        ({
            let (t, n) = ingested_all(s, input, crawl_id, records);
            let (u, what) = ingested(t, input, crawl_id, o);
            let (v, m) = ingested_all(s, input, crawl_id, records.push(o));
            &&& n.new + n.revised + n.unchanged == records.len()
            &&& v == u
            &&& what is New ==> m.new == n.new + 1 && m.revised == n.revised && m.unchanged
                == n.unchanged
            &&& what is Revised ==> m.revised == n.revised + 1 && m.new == n.new && m.unchanged
                == n.unchanged
            &&& what is Unchanged ==> m.unchanged == n.unchanged + 1 && m.new == n.new && m.revised
                == n.revised
        }),
    decreases records.len(),
{
    assert(records.push(o).drop_last() =~= records);
    if records.len() > 0 {
        let front = records.drop_last();
        assert(front.push(records.last()) =~= records);
        law_every_carried_record_counts_once(s, input, crawl_id, front, records.last());
    }
}

/// The line of a sweep: how many records were new, revised, retracted and unchanged, and
/// whether it failed, was partial, or was complete.
pub proof fn law_a_sweep_says_how_it_went(report: ReportView)
    ensures
        ({
            let head = report.adapter_id + "/"@ + report.resource_id + ": "@ + decimal(report.new)
                + " new · "@ + decimal(report.revised) + " revised · "@ + decimal(report.retracted)
                + " retracted · "@ + decimal(report.unchanged) + " unchanged · "@;
            &&& report.error is Some ==> sweep_text(report) == head + ("sweep: failed -- "@
                + report.error->0)
            &&& report.error is None && report.disqualified_reason is Some ==> sweep_text(report)
                == head + ("sweep: partial -- "@ + report.disqualified_reason->0
                + ", no retractions derived"@)
            &&& report.error is None && report.disqualified_reason is None ==> sweep_text(report)
                == head + "sweep: complete"@
        }),
{
}

/// What a refresh tells: first every error with the adapter that it is put down to, then
/// every sweep, each with its notes behind it.
pub proof fn law_a_refresh_tells_everything(
    sweeps: Seq<ReportView>,
    report: ReportView,
    errors: Seq<(Seq<char>, Seq<char>)>,
)
    ensures
        refresh_texts(sweeps, errors) == errors.map_values(
            |e: (Seq<char>, Seq<char>)| e.0 + ": "@ + e.1,
        ) + sweeps_texts(sweeps),
        sweeps_texts(Seq::empty()).len() == 0,
        sweeps_texts(sweeps.push(report)) == sweeps_texts(sweeps) + report_texts(report),
        report_texts(report).len() == 1 + report.discrepancies.len(),
        report_texts(report)[0] == sweep_text(report),
        forall|i: int|
            0 <= i < report.discrepancies.len() ==> #[trigger] report_texts(report)[i + 1] == "  ! "@
                + report.discrepancies[i].kind + ": "@ + report.discrepancies[i].detail,
{
    assert(sweeps.push(report).drop_last() =~= sweeps);
    assert(refresh_texts(sweeps, errors) =~= errors.map_values(
        |e: (Seq<char>, Seq<char>)| e.0 + ": "@ + e.1,
    ) + sweeps_texts(sweeps));
}

/// What connecting tells: the adapter with its derivation, and each resource that it
/// listed.
pub proof fn law_connecting_tells_what_is_there(
    adapter_id: Seq<char>,
    derivation: Seq<char>,
    resources: Seq<DescriptorView>,
)
    ensures
        ({
            let all = connect_texts(adapter_id, derivation, resources);
            &&& all.len() == 1 + resources.len()
            &&& all[0] == "connected "@ + adapter_id + " ("@ + derivation + ")"@
            &&& forall|i: int|
                0 <= i < resources.len() ==> #[trigger] all[i + 1] == "  "@
                    + resources[i].resource_id + "  "@ + resources[i].label + "  ["@
                    + resources[i].kind + "]"@
        }),
{
}

} // verus!
