//! The checks on what an adapter replies, and the stamps that the host puts on
//! what passes them.

use crate::host::failure::{HostError, HostErrorView};
use crate::text::{debug_quoted, debug_text, same, views};
use crate::wire::failure::{ErrorBody, ErrorBodyView, WireErrorCode};
use crate::wire::json::{canonical_object, JsonObject};
use crate::wire::record::{
    stamped_balance, stamped_observation, Balance, BalanceWire, Observation, ObservationWire,
    Staleness,
};
use crate::wire::status::{
    find_status, lemma_status_place, status_of, status_place, Degraded, DegradedView, ReadOutcome,
    ResourceStatus, StatusView,
};
use crate::wire::timestamp::Rfc3339;
use vstd::prelude::*;

verus! {

/// The largest record that the host takes, in bytes of its own serialization.
pub const MAX_OBSERVATION_BYTES: usize = 65536;

/// The default time for a request, in seconds.
pub const DEFAULT_DEADLINE_SECS: u64 = 30;

/// The first text that occurs a second time, in order.
pub open spec fn first_repeated(ids: Seq<Seq<char>>) -> Option<Seq<char>>
    decreases ids.len(),
{
    if ids.len() == 0 {
        None
    } else {
        match first_repeated(ids.drop_last()) {
            Some(id) => Some(id),
            None => if ids.drop_last().contains(ids.last()) {
                Some(ids.last())
            } else {
                None
            },
        }
    }
}

/// The first requested text that is not among the given ones.
pub open spec fn first_missing(requested: Seq<Seq<char>>, ids: Seq<Seq<char>>) -> Option<Seq<char>>
    decreases requested.len(),
{
    if requested.len() == 0 {
        None
    } else {
        match first_missing(requested.drop_last(), ids) {
            Some(id) => Some(id),
            None => if ids.contains(requested.last()) {
                None
            } else {
                Some(requested.last())
            },
        }
    }
}

/// The resources that a reply's statuses speak of, in order.
pub open spec fn status_ids(statuses: Seq<StatusView>) -> Seq<Seq<char>> {
    Seq::new(statuses.len(), |i: int| statuses[i].resource_id)
}

/// The refusal of a reply that is not the shape the contract requires.
pub open spec fn malformed(message: Seq<char>) -> HostErrorView {
    HostErrorView::Wire(
        ErrorBodyView { code: WireErrorCode::InvalidRequest, message, detail: None },
    )
}

/// Refuses a reply that could not be made sense of.
pub fn malformed_reply(op: &str, why: &str) -> (r: HostError)
    ensures
        r@ == malformed("malformed "@ + op@ + " reply: "@ + why@),
{
    let mut message = "malformed ".to_owned();
    message.append(op);
    message.append(" reply: ");
    message.append(why);
    HostError::Wire(ErrorBody::new(WireErrorCode::InvalidRequest, message))
}

/// Refuses a request that the host could not write down. The adapter is not
/// blamed for it.
pub fn unsendable_request(op: &str, why: &str) -> (r: HostError)
    ensures
        r@ == HostErrorView::Wire(
            ErrorBodyView {
                code: WireErrorCode::Internal,
                message: "could not serialize "@ + op@ + " params: "@ + why@,
                detail: None,
            },
        ),
{
    let mut message = "could not serialize ".to_owned();
    message.append(op);
    message.append(" params: ");
    message.append(why);
    HostError::Wire(ErrorBody::new(WireErrorCode::Internal, message))
}

/// The refusal of statuses that do not cover a request.
pub open spec fn uncovered(op: Seq<char>, detail: Seq<char>) -> HostErrorView {
    malformed(
        "malformed "@ + op + " reply: "@ + detail
            + "; every requested resource_id appears in `statuses` exactly once"@,
    )
}

/// What is wrong with a reply's statuses, given what was requested: a resource
/// that occurs twice, or else one that does not occur at all.
pub open spec fn coverage_fault(
    op: Seq<char>,
    requested: Seq<Seq<char>>,
    statuses: Seq<StatusView>,
) -> Option<HostErrorView> {
    let ids = status_ids(statuses);
    match (first_repeated(ids), first_missing(requested, ids)) {
        (Some(id), _) => Some(
            uncovered(
                op,
                "resource "@ + debug_text(id) + " appears in `statuses` more than once"@,
            ),
        ),
        (None, Some(id)) => Some(
            uncovered(
                op,
                "resource "@ + debug_text(id)
                    + " was requested and does not appear in `statuses` at all"@,
            ),
        ),
        (None, None) => None,
    }
}

fn refuse_uncovered(op: &str, id: &str, complaint: &str) -> (r: HostError)
    ensures
        r@ == uncovered(op@, "resource "@ + debug_text(id@) + complaint@),
{
    let mut message = "malformed ".to_owned();
    message.append(op);
    message.append(" reply: ");
    let mut detail = "resource ".to_owned();
    detail.append(debug_quoted(id).as_str());
    detail.append(complaint);
    message.append(detail.as_str());
    message.append("; every requested resource_id appears in `statuses` exactly once");
    HostError::Wire(ErrorBody::new(WireErrorCode::InvalidRequest, message))
}

/// Checks that every requested resource appears in the statuses exactly once.
pub fn check_status_coverage(
    op: &str,
    requested: &Vec<String>,
    statuses: &Vec<ResourceStatus>,
) -> (r: Result<(), HostError>)
    ensures
        match (r, coverage_fault(op@, views(requested@), views(statuses@))) {
            (Ok(_), None) => true,
            (Err(e), Some(fault)) => e@ == fault,
            _ => false,
        },
{
    let ghost ids = status_ids(views(statuses@));
    let mut i: usize = 0;
    while i < statuses.len()
        invariant
            i <= statuses@.len(),
            ids == status_ids(views(statuses@)),
            first_repeated(ids.take(i as int)) is None,
        decreases statuses@.len() - i,
    {
        proof {
            assert(ids.take(i + 1).drop_last() =~= ids.take(i as int));
            assert(ids.take(i + 1).last() == statuses@[i as int].resource_id@);
        }
        if occurs_before(statuses, i) {
            proof {
                lemma_repeated_stays(ids, i + 1);
            }
            return Err(
                refuse_uncovered(
                    op,
                    statuses[i].resource_id.as_str(),
                    " appears in `statuses` more than once",
                ),
            );
        }
        i = i + 1;
    }
    proof {
        assert(ids.take(ids.len() as int) =~= ids);
    }
    let ghost wanted = views(requested@);
    let mut k: usize = 0;
    while k < requested.len()
        invariant
            k <= requested@.len(),
            ids == status_ids(views(statuses@)),
            wanted == views(requested@),
            first_repeated(ids) is None,
            first_missing(wanted.take(k as int), ids) is None,
        decreases requested@.len() - k,
    {
        proof {
            assert(wanted.take(k + 1).drop_last() =~= wanted.take(k as int));
            assert(wanted.take(k + 1).last() == requested@[k as int]@);
        }
        let found = find_status(statuses.as_slice(), requested[k].as_str());
        proof {
            lemma_status_place(views(statuses@), requested@[k as int]@);
            lemma_place_is_occurrence(views(statuses@), requested@[k as int]@);
        }
        if found.is_none() {
            proof {
                lemma_missing_stays(wanted, ids, k + 1);
            }
            return Err(
                refuse_uncovered(
                    op,
                    requested[k].as_str(),
                    " was requested and does not appear in `statuses` at all",
                ),
            );
        }
        k = k + 1;
    }
    proof {
        assert(wanted.take(wanted.len() as int) =~= wanted);
    }
    Ok(())
}

/// Whether the entry at `at` names a resource that an earlier one named.
fn occurs_before(statuses: &Vec<ResourceStatus>, at: usize) -> (r: bool)
    requires
        at < statuses@.len(),
    ensures
        r == status_ids(views(statuses@)).take(at as int).contains(
            statuses@[at as int].resource_id@,
        ),
{
    let ghost ids = status_ids(views(statuses@)).take(at as int);
    let mut i: usize = 0;
    while i < at
        invariant
            i <= at < statuses@.len(),
            ids == status_ids(views(statuses@)).take(at as int),
            forall|k: int| 0 <= k < i ==> #[trigger] ids[k] != statuses@[at as int].resource_id@,
        decreases at - i,
    {
        proof {
            assert(ids[i as int] == statuses@[i as int].resource_id@);
        }
        if same(statuses[i].resource_id.as_str(), statuses[at].resource_id.as_str()) {
            return true;
        }
        i = i + 1;
    }
    false
}

proof fn lemma_repeated_stays(ids: Seq<Seq<char>>, n: int)
    requires
        0 <= n <= ids.len(),
        first_repeated(ids.take(n)) is Some,
    ensures
        first_repeated(ids) == first_repeated(ids.take(n)),
    decreases ids.len() - n,
{
    if n == ids.len() {
        assert(ids.take(n) =~= ids);
    } else {
        assert(ids.take(n + 1).drop_last() =~= ids.take(n));
        lemma_repeated_stays(ids, n + 1);
    }
}

proof fn lemma_missing_stays(requested: Seq<Seq<char>>, ids: Seq<Seq<char>>, n: int)
    requires
        0 <= n <= requested.len(),
        first_missing(requested.take(n), ids) is Some,
    ensures
        first_missing(requested, ids) == first_missing(requested.take(n), ids),
    decreases requested.len() - n,
{
    if n == requested.len() {
        assert(requested.take(n) =~= requested);
    } else {
        assert(requested.take(n + 1).drop_last() =~= requested.take(n));
        lemma_missing_stays(requested, ids, n + 1);
    }
}

/// A resource has a first entry exactly when it occurs.
proof fn lemma_place_is_occurrence(statuses: Seq<StatusView>, id: Seq<char>)
    ensures
        status_place(statuses, id) < statuses.len() <==> status_ids(statuses).contains(id),
{
    lemma_status_place(statuses, id);
    let ids = status_ids(statuses);
    if status_place(statuses, id) < statuses.len() {
        assert(ids[status_place(statuses, id) as int] == id);
    }
    if ids.contains(id) {
        let k = choose|k: int| 0 <= k < ids.len() && ids[k] == id;
        assert(statuses[k].resource_id == id);
    }
}

/// Statuses pass exactly when no resource occurs twice and none that was
/// requested is missing: every requested one appears exactly once.
pub proof fn law_coverage_is_exactly_once(
    op: Seq<char>,
    requested: Seq<Seq<char>>,
    statuses: Seq<StatusView>,
)
    ensures
        coverage_fault(op, requested, statuses) is None <==> {
            &&& status_ids(statuses).no_duplicates()
            &&& forall|k: int|
                0 <= k < requested.len() ==> status_ids(statuses).contains(#[trigger] requested[k])
        },
{
    lemma_repeated(status_ids(statuses));
    lemma_missing(requested, status_ids(statuses));
}

proof fn lemma_repeated(ids: Seq<Seq<char>>)
    ensures
        first_repeated(ids) is None <==> ids.no_duplicates(),
    decreases ids.len(),
{
    if ids.len() > 0 {
        let init = ids.drop_last();
        lemma_repeated(init);
        if first_repeated(ids) is None {
            assert forall|i: int, j: int| 0 <= i < ids.len() && 0 <= j < ids.len() && i != j implies
                ids[i] != ids[j] by {
                if i < init.len() && j < init.len() {
                    assert(init[i] == ids[i] && init[j] == ids[j]);
                } else if i < init.len() {
                    assert(init[i] == ids[i]);
                } else {
                    assert(init[j] == ids[j]);
                }
            }
        } else if ids.no_duplicates() {
            assert forall|i: int, j: int| 0 <= i < init.len() && 0 <= j < init.len() && i
                != j implies init[i] != init[j] by {
                assert(init[i] == ids[i] && init[j] == ids[j]);
            }
            let i = choose|i: int| 0 <= i < init.len() && init[i] == ids.last();
            assert(ids[i] == ids[ids.len() - 1]);
        }
    }
}

proof fn lemma_missing(requested: Seq<Seq<char>>, ids: Seq<Seq<char>>)
    ensures
        first_missing(requested, ids) is None <==> forall|k: int|
            0 <= k < requested.len() ==> ids.contains(#[trigger] requested[k]),
    decreases requested.len(),
{
    if requested.len() > 0 {
        let init = requested.drop_last();
        lemma_missing(init, ids);
        if first_missing(requested, ids) is None {
            assert forall|k: int| 0 <= k < requested.len() implies ids.contains(
                #[trigger] requested[k],
            ) by {
                if k < init.len() {
                    assert(init[k] == requested[k]);
                }
            }
        } else if forall|k: int| 0 <= k < requested.len() ==> ids.contains(#[trigger] requested[k]) {
            assert forall|k: int| 0 <= k < init.len() implies ids.contains(#[trigger] init[k]) by {
                assert(init[k] == requested[k]);
            }
            assert(ids.contains(requested[requested.len() - 1]));
        }
    }
}

/// How current what a resource delivered is, by its own outcome. An adapter
/// that says it hands over something old is not overruled.
pub open spec fn staleness_of(outcome: ReadOutcome) -> Staleness {
    match outcome {
        ReadOutcome::Stale { .. } => Staleness::Cached,
        ReadOutcome::Unavailable => Staleness::Unavailable,
        ReadOutcome::Gone => Staleness::Unavailable,
        ReadOutcome::Fetched { .. } => Staleness::Live,
        ReadOutcome::NotFetched => Staleness::Live,
        ReadOutcome::RateLimited { .. } => Staleness::Live,
        ReadOutcome::ReauthRequired => Staleness::Live,
        ReadOutcome::Revoked => Staleness::Live,
        ReadOutcome::ScaRequired => Staleness::Live,
    }
}

/// The staleness of a resource in a reply. A resource without an entry is never
/// taken to be live.
pub open spec fn resource_staleness(statuses: Seq<StatusView>, resource_id: Seq<char>) -> Staleness {
    match status_of(statuses, resource_id) {
        Some(status) => staleness_of(status.outcome),
        None => Staleness::Unavailable,
    }
}

fn staleness_of_outcome(outcome: &ReadOutcome) -> (r: Staleness)
    ensures
        r == staleness_of(*outcome),
{
    match outcome {
        ReadOutcome::Stale { .. } => Staleness::Cached,
        ReadOutcome::Unavailable => Staleness::Unavailable,
        ReadOutcome::Gone => Staleness::Unavailable,
        ReadOutcome::Fetched { .. } => Staleness::Live,
        ReadOutcome::NotFetched => Staleness::Live,
        ReadOutcome::RateLimited { .. } => Staleness::Live,
        ReadOutcome::ReauthRequired => Staleness::Live,
        ReadOutcome::Revoked => Staleness::Live,
        ReadOutcome::ScaRequired => Staleness::Live,
    }
}

/// Looks up the staleness of a resource in a reply.
pub fn staleness_for(statuses: &Vec<ResourceStatus>, resource_id: &str) -> (r: Staleness)
    ensures
        r == resource_staleness(views(statuses@), resource_id@),
{
    match find_status(statuses.as_slice(), resource_id) {
        Some(i) => staleness_of_outcome(&statuses[i].outcome),
        None => Staleness::Unavailable,
    }
}

/// The statuses after a dropped record was reported: it is appended to the
/// resource's own entry, and never takes the place of anything said there. A
/// resource without an entry gets none.
pub open spec fn reported(
    statuses: Seq<StatusView>,
    resource_id: Seq<char>,
    drop: DegradedView,
) -> Seq<StatusView> {
    let i = status_place(statuses, resource_id) as int;
    if i < statuses.len() {
        statuses.update(
            i,
            StatusView { degraded: statuses[i].degraded.push(drop), ..statuses[i] },
        )
    } else {
        statuses
    }
}

/// Reports a dropped record on its resource's entry.
pub fn report_oversized(
    statuses: &mut Vec<ResourceStatus>,
    resource_id: &str,
    local_id: Option<String>,
    bytes: usize,
)
    ensures
        views(final(statuses)@) == reported(
            views(old(statuses)@),
            resource_id@,
            DegradedView { local_id: crate::text::opt_view(local_id), bytes: bytes as u64 },
        ),
{
    let ghost before = views(statuses@);
    if let Some(i) = find_status(statuses.as_slice(), resource_id) {
        let status = &mut statuses[i];
        let ghost was = status.degraded@;
        let drop = Degraded { local_id, bytes: bytes as u64 };
        let ghost v = drop@;
        status.degraded.push(drop);
        proof {
            crate::text::lemma_views_push(was, drop);
        }
    }
    proof {
        assert(views(statuses@) =~= reported(
            before,
            resource_id@,
            DegradedView { local_id: crate::text::opt_view(local_id), bytes: bytes as u64 },
        ));
    }
}

/// One record of a history reply, with the size of its serialization.
#[derive(Debug)]
pub struct MeasuredObservation {
    pub wire: ObservationWire,
    pub bytes: usize,
}

/// One line of a balances reply, with the size of its serialization.
#[derive(Debug)]
pub struct MeasuredBalance {
    pub wire: BalanceWire,
    pub bytes: usize,
}

/// Whether a record is dropped for its size. A record that names another
/// adapter is not measured: dropping it would exempt its id, where the sweep
/// has to refuse it.
pub open spec fn oversized(own: Seq<char>, o: MeasuredObservation) -> bool {
    o.wire.provenance.adapter_id@ == own && o.bytes > MAX_OBSERVATION_BYTES
}

/// The records of a reply that are not dropped, in order.
pub open spec fn kept_observations(own: Seq<char>, raw: Seq<MeasuredObservation>) -> Seq<
    ObservationWire,
>
    decreases raw.len(),
{
    if raw.len() == 0 {
        Seq::empty()
    } else if oversized(own, raw.last()) {
        kept_observations(own, raw.drop_last())
    } else {
        kept_observations(own, raw.drop_last()).push(raw.last().wire)
    }
}

/// The statuses of a reply after every dropped record was reported.
pub open spec fn reported_observations(
    own: Seq<char>,
    raw: Seq<MeasuredObservation>,
    statuses: Seq<StatusView>,
) -> Seq<StatusView>
    decreases raw.len(),
{
    if raw.len() == 0 {
        statuses
    } else {
        let before = reported_observations(own, raw.drop_last(), statuses);
        let o = raw.last();
        if oversized(own, o) {
            reported(
                before,
                o.wire.resource_id@,
                DegradedView { local_id: Some(o.wire.local_id@), bytes: o.bytes as u64 },
            )
        } else {
            before
        }
    }
}

/// The lines of a reply that are not dropped, in order.
pub open spec fn kept_balances(raw: Seq<MeasuredBalance>) -> Seq<BalanceWire>
    decreases raw.len(),
{
    if raw.len() == 0 {
        Seq::empty()
    } else if raw.last().bytes > MAX_OBSERVATION_BYTES {
        kept_balances(raw.drop_last())
    } else {
        kept_balances(raw.drop_last()).push(raw.last().wire)
    }
}

/// The statuses of a reply after every dropped line was reported.
pub open spec fn reported_balances(raw: Seq<MeasuredBalance>, statuses: Seq<StatusView>) -> Seq<
    StatusView,
>
    decreases raw.len(),
{
    if raw.len() == 0 {
        statuses
    } else {
        let before = reported_balances(raw.drop_last(), statuses);
        let b = raw.last();
        if b.bytes > MAX_OBSERVATION_BYTES {
            reported(
                before,
                b.wire.resource_id@,
                DegradedView { local_id: None, bytes: b.bytes as u64 },
            )
        } else {
            before
        }
    }
}

/// A history reply that passed, stamped.
#[derive(Debug)]
pub struct HistoryRead {
    pub observations: Vec<Observation>,
    pub statuses: Vec<ResourceStatus>,
}

/// A balances reply that passed, stamped.
#[derive(Debug)]
pub struct BalancesRead {
    pub observations: Vec<Balance>,
    pub statuses: Vec<ResourceStatus>,
}

/// The stamped records of a history reply.
pub open spec fn stamped_history(
    kept: Seq<ObservationWire>,
    statuses: Seq<StatusView>,
    received_at: Rfc3339,
) -> Seq<Observation> {
    Seq::new(
        kept.len(),
        |i: int|
            stamped_observation(
                kept[i],
                received_at,
                resource_staleness(statuses, kept[i].resource_id@),
            ),
    )
}

/// The stamped lines of a balances reply.
pub open spec fn stamped_balances(
    kept: Seq<BalanceWire>,
    statuses: Seq<StatusView>,
    received_at: Rfc3339,
) -> Seq<Balance> {
    Seq::new(
        kept.len(),
        |i: int|
            stamped_balance(
                kept[i],
                received_at,
                resource_staleness(statuses, kept[i].resource_id@),
            ),
    )
}

/// A report on an entry leaves every resource's staleness as it was.
proof fn lemma_reported_staleness(
    statuses: Seq<StatusView>,
    id: Seq<char>,
    drop: DegradedView,
    other: Seq<char>,
)
    ensures
        resource_staleness(reported(statuses, id, drop), other) == resource_staleness(
            statuses,
            other,
        ),
        status_ids(reported(statuses, id, drop)) == status_ids(statuses),
{
    let after = reported(statuses, id, drop);
    lemma_status_place(statuses, id);
    lemma_status_place(statuses, other);
    lemma_status_place(after, other);
    assert(status_ids(after) =~= status_ids(statuses));
    assert forall|k: int| 0 <= k < statuses.len() implies (#[trigger] after[k]).resource_id
        == statuses[k].resource_id && after[k].outcome == statuses[k].outcome by {}
    crate::wire::status::lemma_status_place_is(
        after,
        other,
        status_place(statuses, other) as int,
    );
}

proof fn lemma_history_staleness(
    own: Seq<char>,
    raw: Seq<MeasuredObservation>,
    statuses: Seq<StatusView>,
    other: Seq<char>,
)
    ensures
        resource_staleness(reported_observations(own, raw, statuses), other)
            == resource_staleness(statuses, other),
    decreases raw.len(),
{
    if raw.len() > 0 {
        lemma_history_staleness(own, raw.drop_last(), statuses, other);
        let o = raw.last();
        lemma_reported_staleness(
            reported_observations(own, raw.drop_last(), statuses),
            o.wire.resource_id@,
            DegradedView { local_id: Some(o.wire.local_id@), bytes: o.bytes as u64 },
            other,
        );
    }
}

proof fn lemma_balances_staleness(
    raw: Seq<MeasuredBalance>,
    statuses: Seq<StatusView>,
    other: Seq<char>,
)
    ensures
        resource_staleness(reported_balances(raw, statuses), other) == resource_staleness(
            statuses,
            other,
        ),
    decreases raw.len(),
{
    if raw.len() > 0 {
        lemma_balances_staleness(raw.drop_last(), statuses, other);
        let b = raw.last();
        lemma_reported_staleness(
            reported_balances(raw.drop_last(), statuses),
            b.wire.resource_id@,
            DegradedView { local_id: None, bytes: b.bytes as u64 },
            other,
        );
    }
}

/// Judges a history reply: the statuses must cover the request; records that
/// are too large are dropped and reported; the rest is stamped.
pub fn history_read(
    own: &str,
    requested: &Vec<String>,
    raw: Vec<MeasuredObservation>,
    statuses: Vec<ResourceStatus>,
    received_at: &Rfc3339,
) -> (r: Result<HistoryRead, HostError>)
    ensures
        match (r, coverage_fault("history.read"@, views(requested@), views(statuses@))) {
            (Ok(read), None) => {
                &&& read.observations@ == stamped_history(
                    kept_observations(own@, raw@),
                    views(statuses@),
                    *received_at,
                )
                &&& views(read.statuses@) == reported_observations(
                    own@,
                    raw@,
                    views(statuses@),
                )
            },
            (Err(e), Some(fault)) => e@ == fault,
            _ => false,
        },
{
    if let Err(e) = check_status_coverage("history.read", requested, &statuses) {
        return Err(e);
    }
    let ghost before = views(statuses@);
    let ghost all = raw@;
    let mut statuses = statuses;
    let mut observations: Vec<Observation> = Vec::new();
    for o in iter: raw
        invariant
            iter.seq() == all,
            views(statuses@) == reported_observations(
                own@,
                all.take(iter.index() as int),
                before,
            ),
            observations@ == stamped_history(
                kept_observations(own@, all.take(iter.index() as int)),
                before,
                *received_at,
            ),
    {
        let ghost k = iter.index() as int;
        proof {
            assert(all.take(k + 1).drop_last() =~= all.take(k));
            assert(all.take(k + 1).last() == o);
            lemma_history_staleness(own@, all.take(k), before, o.wire.resource_id@);
        }
        if same(o.wire.provenance.adapter_id.as_str(), own) && o.bytes > MAX_OBSERVATION_BYTES {
            report_oversized(
                &mut statuses,
                o.wire.resource_id.as_str(),
                Some(o.wire.local_id.clone()),
                o.bytes,
            );
        } else {
            let staleness = staleness_for(&statuses, o.wire.resource_id.as_str());
            let ghost was = observations@;
            observations.push(Observation::stamp(o.wire, received_at.clone(), staleness));
            proof {
                assert(observations@ =~= stamped_history(
                    kept_observations(own@, all.take(k + 1)),
                    before,
                    *received_at,
                ));
            }
        }
    }
    proof {
        assert(all.take(all.len() as int) =~= all);
    }
    Ok(HistoryRead { observations, statuses })
}

/// The first line that names another adapter.
pub open spec fn first_foreign(own: Seq<char>, raw: Seq<MeasuredBalance>) -> Option<int>
    decreases raw.len(),
{
    if raw.len() == 0 {
        None
    } else {
        match first_foreign(own, raw.drop_last()) {
            Some(i) => Some(i),
            None => if raw.last().wire.provenance.adapter_id@ != own {
                Some(raw.len() - 1)
            } else {
                None
            },
        }
    }
}

/// The first line for a resource that was not asked for.
pub open spec fn first_unasked(requested: Seq<Seq<char>>, raw: Seq<MeasuredBalance>) -> Option<int>
    decreases raw.len(),
{
    if raw.len() == 0 {
        None
    } else {
        match first_unasked(requested, raw.drop_last()) {
            Some(i) => Some(i),
            None => if !requested.contains(raw.last().wire.resource_id@) {
                Some(raw.len() - 1)
            } else {
                None
            },
        }
    }
}

/// What is wrong with a balances reply. It answers for this connection's
/// adapter, about the resources that were asked for, and for nothing else; one
/// line that does not refuses the reply as a whole.
pub open spec fn balances_fault(
    own: Seq<char>,
    requested: Seq<Seq<char>>,
    raw: Seq<MeasuredBalance>,
    statuses: Seq<StatusView>,
) -> Option<HostErrorView> {
    match coverage_fault("balances.read"@, requested, statuses) {
        Some(fault) => Some(fault),
        None => match (first_foreign(own, raw), first_unasked(requested, raw)) {
            (Some(i), _) => Some(
                malformed(
                    "malformed balances.read reply: a balance for resource "@ + debug_text(
                        raw[i].wire.resource_id@,
                    ) + " names adapter_id "@ + debug_text(raw[i].wire.provenance.adapter_id@)
                        + " on the connection that announced "@ + debug_text(own),
                ),
            ),
            (None, Some(i)) => Some(
                malformed(
                    "malformed balances.read reply: a balance for resource "@ + debug_text(
                        raw[i].wire.resource_id@,
                    ) + ", which this call did not request"@,
                ),
            ),
            (None, None) => None,
        },
    }
}

proof fn lemma_foreign_stays(own: Seq<char>, raw: Seq<MeasuredBalance>, n: int)
    requires
        0 <= n <= raw.len(),
        first_foreign(own, raw.take(n)) is Some,
    ensures
        first_foreign(own, raw) == first_foreign(own, raw.take(n)),
    decreases raw.len() - n,
{
    if n == raw.len() {
        assert(raw.take(n) =~= raw);
    } else {
        assert(raw.take(n + 1).drop_last() =~= raw.take(n));
        lemma_foreign_stays(own, raw, n + 1);
    }
}

proof fn lemma_unasked_stays(requested: Seq<Seq<char>>, raw: Seq<MeasuredBalance>, n: int)
    requires
        0 <= n <= raw.len(),
        first_unasked(requested, raw.take(n)) is Some,
    ensures
        first_unasked(requested, raw) == first_unasked(requested, raw.take(n)),
    decreases raw.len() - n,
{
    if n == raw.len() {
        assert(raw.take(n) =~= raw);
    } else {
        assert(raw.take(n + 1).drop_last() =~= raw.take(n));
        lemma_unasked_stays(requested, raw, n + 1);
    }
}

/// Whether a text is among the given ones.
pub fn is_among(texts: &Vec<String>, text: &str) -> (r: bool)
    ensures
        r == views(texts@).contains(text@),
{
    let mut i: usize = 0;
    while i < texts.len()
        invariant
            i <= texts@.len(),
            forall|k: int| 0 <= k < i ==> #[trigger] views(texts@)[k] != text@,
        decreases texts@.len() - i,
    {
        proof {
            assert(views(texts@)[i as int] == texts@[i as int]@);
        }
        if same(texts[i].as_str(), text) {
            return true;
        }
        i = i + 1;
    }
    false
}

/// Judges the lines of a balances reply.
fn check_balances(own: &str, requested: &Vec<String>, raw: &Vec<MeasuredBalance>) -> (r: Result<
    (),
    HostError,
>)
    ensures
        match r {
            Ok(_) => first_foreign(own@, raw@) is None && first_unasked(
                views(requested@),
                raw@,
            ) is None,
            Err(e) => forall|statuses: Seq<StatusView>|
                coverage_fault("balances.read"@, views(requested@), statuses) is None
                    ==> #[trigger] balances_fault(own@, views(requested@), raw@, statuses) == Some(
                    e@,
                ),
        },
{
    let mut i: usize = 0;
    while i < raw.len()
        invariant
            i <= raw@.len(),
            first_foreign(own@, raw@.take(i as int)) is None,
        decreases raw@.len() - i,
    {
        proof {
            assert(raw@.take(i + 1).drop_last() =~= raw@.take(i as int));
        }
        let line = &raw[i].wire;
        if !same(line.provenance.adapter_id.as_str(), own) {
            proof {
                lemma_foreign_stays(own@, raw@, i + 1);
            }
            let mut message =
                "malformed balances.read reply: a balance for resource ".to_owned();
            message.append(debug_quoted(line.resource_id.as_str()).as_str());
            message.append(" names adapter_id ");
            message.append(debug_quoted(line.provenance.adapter_id.as_str()).as_str());
            message.append(" on the connection that announced ");
            message.append(debug_quoted(own).as_str());
            return Err(
                HostError::Wire(ErrorBody::new(WireErrorCode::InvalidRequest, message)),
            );
        }
        i = i + 1;
    }
    proof {
        assert(raw@.take(raw@.len() as int) =~= raw@);
    }
    let mut k: usize = 0;
    while k < raw.len()
        invariant
            k <= raw@.len(),
            first_foreign(own@, raw@) is None,
            first_unasked(views(requested@), raw@.take(k as int)) is None,
        decreases raw@.len() - k,
    {
        proof {
            assert(raw@.take(k + 1).drop_last() =~= raw@.take(k as int));
        }
        let line = &raw[k].wire;
        if !is_among(requested, line.resource_id.as_str()) {
            proof {
                lemma_unasked_stays(views(requested@), raw@, k + 1);
            }
            let mut message =
                "malformed balances.read reply: a balance for resource ".to_owned();
            message.append(debug_quoted(line.resource_id.as_str()).as_str());
            message.append(", which this call did not request");
            return Err(
                HostError::Wire(ErrorBody::new(WireErrorCode::InvalidRequest, message)),
            );
        }
        k = k + 1;
    }
    proof {
        assert(raw@.take(raw@.len() as int) =~= raw@);
    }
    Ok(())
}

/// Judges a balances reply: the statuses must cover the request, and no line may
/// speak for another adapter or of a resource that was not asked for; lines
/// that are too large are dropped and reported; the rest is stamped.
pub fn balances_read(
    own: &str,
    requested: &Vec<String>,
    raw: Vec<MeasuredBalance>,
    statuses: Vec<ResourceStatus>,
    received_at: &Rfc3339,
) -> (r: Result<BalancesRead, HostError>)
    ensures
        match (r, balances_fault(own@, views(requested@), raw@, views(statuses@))) {
            (Ok(read), None) => {
                &&& read.observations@ == stamped_balances(
                    kept_balances(raw@),
                    views(statuses@),
                    *received_at,
                )
                &&& views(read.statuses@) == reported_balances(raw@, views(statuses@))
            },
            (Err(e), Some(fault)) => e@ == fault,
            _ => false,
        },
{
    if let Err(e) = check_status_coverage("balances.read", requested, &statuses) {
        return Err(e);
    }
    if let Err(e) = check_balances(own, requested, &raw) {
        proof {
            assert(balances_fault(own@, views(requested@), raw@, views(statuses@)) == Some(e@));
        }
        return Err(e);
    }
    let ghost before = views(statuses@);
    let ghost all = raw@;
    let mut statuses = statuses;
    let mut observations: Vec<Balance> = Vec::new();
    for b in iter: raw
        invariant
            iter.seq() == all,
            views(statuses@) == reported_balances(all.take(iter.index() as int), before),
            observations@ == stamped_balances(
                kept_balances(all.take(iter.index() as int)),
                before,
                *received_at,
            ),
    {
        let ghost k = iter.index() as int;
        proof {
            assert(all.take(k + 1).drop_last() =~= all.take(k));
            assert(all.take(k + 1).last() == b);
            lemma_balances_staleness(all.take(k), before, b.wire.resource_id@);
        }
        if b.bytes > MAX_OBSERVATION_BYTES {
            report_oversized(&mut statuses, b.wire.resource_id.as_str(), None, b.bytes);
        } else {
            let staleness = staleness_for(&statuses, b.wire.resource_id.as_str());
            observations.push(Balance::stamp(b.wire, received_at.clone(), staleness));
            proof {
                assert(observations@ =~= stamped_balances(
                    kept_balances(all.take(k + 1)),
                    before,
                    *received_at,
                ));
            }
        }
    }
    proof {
        assert(all.take(all.len() as int) =~= all);
    }
    Ok(BalancesRead { observations, statuses })
}

/// What the host says of a protocol version that it never offered.
pub open spec fn unoffered(protocol: Seq<char>) -> HostErrorView {
    HostErrorView::Wire(
        ErrorBodyView {
            code: WireErrorCode::UnsupportedProtocol,
            message: "adapter selected protocol "@ + debug_text(protocol)
                + ", which was not offered"@,
            detail: match canonical_object("{\"offered\":[\"1\"]}"@) {
                Ok(detail) => Some(detail),
                Err(_) => None,
            },
        },
    )
}

/// Takes the protocol version that an adapter selected: it must be the one
/// that was offered.
pub fn accept_protocol(protocol: &str) -> (r: Result<(), HostError>)
    ensures
        match r {
            Ok(_) => protocol@ == "1"@,
            Err(e) => protocol@ != "1"@ && e@ == unoffered(protocol@),
        },
{
    if same(protocol, "1") {
        Ok(())
    } else {
        let mut message = "adapter selected protocol ".to_owned();
        message.append(debug_quoted(protocol).as_str());
        message.append(", which was not offered");
        let detail = match JsonObject::parse("{\"offered\":[\"1\"]}") {
            Ok(detail) => Some(detail),
            Err(_) => None,
        };
        Err(
            HostError::Wire(
                ErrorBody { code: WireErrorCode::UnsupportedProtocol, message, detail },
            ),
        )
    }
}

/// What the adapter said of a resource is never weakened by a report: its
/// outcome, its page and everything it degraded stay, in order.
pub proof fn law_a_report_only_adds(
    statuses: Seq<StatusView>,
    id: Seq<char>,
    drop: DegradedView,
    i: int,
)
    requires
        0 <= i < statuses.len(),
    ensures
        reported(statuses, id, drop).len() == statuses.len(),
        reported(statuses, id, drop)[i].resource_id == statuses[i].resource_id,
        reported(statuses, id, drop)[i].outcome == statuses[i].outcome,
        reported(statuses, id, drop)[i].page == statuses[i].page,
        reported(statuses, id, drop)[i].history_start == statuses[i].history_start,
        statuses[i].degraded.is_prefix_of(reported(statuses, id, drop)[i].degraded),
{
}

/// Every record of the adapter's own that is missing from what is kept is named
/// in its resource's entry, if the resource has one.
pub proof fn law_every_drop_is_reported(
    own: Seq<char>,
    raw: Seq<MeasuredObservation>,
    statuses: Seq<StatusView>,
    k: int,
)
    requires
        0 <= k < raw.len(),
        oversized(own, raw[k]),
        status_of(statuses, raw[k].wire.resource_id@) is Some,
    ensures
        status_of(
            reported_observations(own, raw, statuses),
            raw[k].wire.resource_id@,
        ) matches Some(status) && status.degraded.contains(
            DegradedView { local_id: Some(raw[k].wire.local_id@), bytes: raw[k].bytes as u64 },
        ),
    decreases raw.len(),
{
    let id = raw[k].wire.resource_id@;
    let d = DegradedView { local_id: Some(raw[k].wire.local_id@), bytes: raw[k].bytes as u64 };
    let before = reported_observations(own, raw.drop_last(), statuses);
    let after = reported_observations(own, raw, statuses);
    lemma_reported_places(own, raw.drop_last(), statuses, id);
    lemma_reported_places(own, raw, statuses, id);
    lemma_status_place(statuses, id);
    let i = status_place(statuses, id) as int;
    if k == raw.len() - 1 {
        assert(after[i].degraded.last() == d);
    } else {
        assert(raw.drop_last()[k] == raw[k]);
        law_every_drop_is_reported(own, raw.drop_last(), statuses, k);
        let j = choose|j: int| 0 <= j < before[i].degraded.len() && before[i].degraded[j] == d;
        assert(after[i].degraded[j] == d);
    }
}

proof fn lemma_reported_places(
    own: Seq<char>,
    raw: Seq<MeasuredObservation>,
    statuses: Seq<StatusView>,
    id: Seq<char>,
)
    ensures
        status_place(reported_observations(own, raw, statuses), id) == status_place(statuses, id),
        reported_observations(own, raw, statuses).len() == statuses.len(),
    decreases raw.len(),
{
    if raw.len() > 0 {
        let before = reported_observations(own, raw.drop_last(), statuses);
        let after = reported_observations(own, raw, statuses);
        lemma_reported_places(own, raw.drop_last(), statuses, id);
        lemma_status_place(before, id);
        assert forall|k: int| 0 <= k < before.len() implies (#[trigger] after[k]).resource_id
            == before[k].resource_id by {}
        crate::wire::status::lemma_status_place_is(
            after,
            id,
            status_place(before, id) as int,
        );
    }
}

/// Nothing is live that its own resource did not vouch for: a record is stamped
/// live only if its resource has an entry, and that entry's outcome is neither
/// stale nor gone nor unavailable.
pub proof fn law_live_needs_a_status(statuses: Seq<StatusView>, resource_id: Seq<char>)
    requires
        resource_staleness(statuses, resource_id) == Staleness::Live,
    ensures
        status_of(statuses, resource_id) matches Some(status) && !(status.outcome is Stale) && !(
        status.outcome is Unavailable) && !(status.outcome is Gone),
{
}

} // verus!
