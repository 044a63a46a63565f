//! What a complete sweep concludes from what it did not carry.

use crate::host::fold::{lemma_chain_len, ChainKey, Fold};
use crate::host::reads::is_among;
use crate::host::time::{instant, instant_before, instant_of};
use crate::store::ingest::lemma_arrivals_len;
use crate::store::live::{live_listing, live_set, live_views, lemma_lists_live, LiveView};
use crate::store::model::{arrivals_of, is_crawl, is_row_of, StoreView};
use crate::store::report::{Discrepancy, InputView, NoteView, SweepInput};
use crate::store::rows::{DiscrepancyView, RetractionView, StoredView};
use crate::store::tables::{
    append_discrepancy, append_retraction, resource, retraction_high_water, Store, MAX_REVISION,
};
use crate::text::{decimal, lemma_views_push, push_decimal, same, views};
use crate::wire::record::{Observation, ObservationView};
use crate::wire::timestamp::Rfc3339;
use vstd::prelude::*;
use vstd::utf8::encode_utf8;

verus! {

/// Why a record is retracted. The first two name a change of software, which is
/// never blamed on the provider.
pub const REASON_DERIVATION: &'static str = "derivation_changed";

pub const REASON_DEFINITION: &'static str = "resource_definition_changed";

pub const REASON_ABSENT: &'static str = "absent_from_complete_sweep";

/// What kinds of discrepancies there are.
pub const KIND_DERIVATION: &'static str = "derivation_changed";

pub const KIND_DEFINITION: &'static str = "resource_definition_changed";

pub const KIND_VANTAGE: &'static str = "vantage_changed";

pub const KIND_EMPTY: &'static str = "empty_sweep";

pub const KIND_HISTORY_START: &'static str = "history_start_exempt";

/// When a record took effect, as far as the adapter said.
pub open spec fn effective(o: ObservationView) -> Seq<char> {
    match o.provenance.effective_at {
        Some(at) => at,
        None => o.provenance.observed_at,
    }
}

/// Whether a record is inside the history that the adapter said it has. It is
/// asked of instants, never of texts; what cannot be ordered is not inside.
pub open spec fn within_history(o: ObservationView, start: Seq<char>) -> bool {
    match (instant_of(encode_utf8(effective(o))), instant_of(encode_utf8(start))) {
        (Some(at), Some(start)) => !instant_before(at, start),
        _ => false,
    }
}

/// The row that a record's revision is stored in.
pub open spec fn row_of(
    rows: Seq<StoredView>,
    adapter_id: Seq<char>,
    local_id: Seq<char>,
    revision: nat,
) -> Option<StoredView>
    decreases rows.len(),
{
    if rows.len() == 0 {
        None
    } else if is_row_of(rows.last(), adapter_id, local_id, revision) {
        Some(rows.last())
    } else {
        row_of(rows.drop_last(), adapter_id, local_id, revision)
    }
}

/// Which reason the absence of a record has, by the row that its chain ends
/// with: had the record last been emitted under another derivation or another
/// definition, nobody could emit it again.
pub open spec fn reason_for(s: StoreView, input: InputView, local_id: Seq<char>) -> Seq<char> {
    let chain = s.chain(input.adapter_id, local_id);
    match row_of(s.observations, input.adapter_id, local_id, chain.last().revision) {
        Some(row) => if row.derivation != input.hello_derivation {
            REASON_DERIVATION@
        } else if row.fingerprint != Some(input.fingerprint) {
            REASON_DEFINITION@
        } else {
            REASON_ABSENT@
        },
        None => REASON_ABSENT@,
    }
}

/// What a complete sweep makes of a live record.
pub enum Fate {
    /// The sweep carried it.
    Carried,
    /// The sweep had to drop it, and named it.
    Degraded,
    /// It lies before what the adapter's history reaches.
    BeforeHistory,
    Retracted,
}

/// What a complete sweep makes of a live record.
pub open spec fn fate(
    input: InputView,
    observed: Seq<Seq<char>>,
    exempt: Seq<Seq<char>>,
    live: LiveView,
) -> Fate {
    if observed.contains(live.local_id) {
        Fate::Carried
    } else if exempt.contains(live.local_id) {
        Fate::Degraded
    } else if input.history_start matches Some(start) && !within_history(live.observation, start) {
        Fate::BeforeHistory
    } else {
        Fate::Retracted
    }
}

/// What a complete sweep concludes from these live records.
pub struct Tally {
    pub retractions: Seq<RetractionView>,
    pub derivation: nat,
    pub definition: nat,
    pub history: nat,
}

/// The retraction of a live record: it is recorded at the highest revision that
/// the record has come to.
pub open spec fn retraction_of(
    s: StoreView,
    input: InputView,
    crawl_id: int,
    now: Seq<char>,
    live: LiveView,
) -> RetractionView {
    RetractionView {
        adapter_id: input.adapter_id,
        local_id: live.local_id,
        revision: live.revision,
        reason: reason_for(s, input, live.local_id),
        crawl_id,
        retracted_at: now,
    }
}

/// What a complete sweep concludes from these live records, one by one.
pub open spec fn tally(
    s: StoreView,
    input: InputView,
    crawl_id: int,
    now: Seq<char>,
    observed: Seq<Seq<char>>,
    exempt: Seq<Seq<char>>,
    live: Seq<LiveView>,
) -> Tally
    decreases live.len(),
{
    if live.len() == 0 {
        Tally { retractions: Seq::empty(), derivation: 0, definition: 0, history: 0 }
    } else {
        let t = tally(s, input, crawl_id, now, observed, exempt, live.drop_last());
        let l = live.last();
        match fate(input, observed, exempt, l) {
            Fate::Retracted => {
                let reason = reason_for(s, input, l.local_id);
                Tally {
                    retractions: t.retractions.push(retraction_of(s, input, crawl_id, now, l)),
                    derivation: t.derivation + if reason == REASON_DERIVATION@ {
                        1nat
                    } else {
                        0
                    },
                    definition: t.definition + if reason == REASON_DEFINITION@ {
                        1nat
                    } else {
                        0
                    },
                    history: t.history,
                }
            },
            Fate::BeforeHistory => Tally { history: t.history + 1, ..t },
            _ => t,
        }
    }
}

/// The note on records that a change of software retired.
pub open spec fn software_note(kind: Seq<char>, what: Seq<char>, count: nat) -> NoteView {
    NoteView {
        kind,
        detail: "the "@ + what + " changed; "@ + decimal(count)
            + " record(s) that can no longer be re-emitted were retired under "@ + kind
            + ", naming the software change rather than the provider"@,
    }
}

/// The note on records that lie before the adapter's history.
pub open spec fn history_note(count: nat) -> NoteView {
    NoteView {
        kind: KIND_HISTORY_START@,
        detail: decimal(count)
            + " live record(s) predate the adapter's reported history_start and were exempted from retraction"@,
    }
}

/// The notes on a tally: one for each thing that happened, not one for each
/// record.
pub open spec fn notes_on(t: Tally) -> Seq<NoteView> {
    let a = if t.derivation > 0 {
        seq![software_note(KIND_DERIVATION@, "derivation"@, t.derivation)]
    } else {
        Seq::empty()
    };
    let b = if t.definition > 0 {
        a.push(software_note(KIND_DEFINITION@, "resource definition"@, t.definition))
    } else {
        a
    };
    if t.history > 0 {
        b.push(history_note(t.history))
    } else {
        b
    }
}

/// The store with notes on a sweep of a resource.
pub open spec fn noted(
    s: StoreView,
    input: InputView,
    crawl_id: int,
    now: Seq<char>,
    notes: Seq<NoteView>,
) -> StoreView
    decreases notes.len(),
{
    if notes.len() == 0 {
        s
    } else {
        noted(s, input, crawl_id, now, notes.drop_last()).with_discrepancy(
            DiscrepancyView {
                adapter_id: input.adapter_id,
                resource_id: input.resource_id,
                kind: notes.last().kind,
                crawl_id,
                detail: notes.last().detail,
                noted_at: now,
            },
        )
    }
}

/// The note on a sweep that read from another vantage.
pub open spec fn vantage_note(previous: Seq<char>, current: Seq<char>) -> NoteView {
    NoteView { kind: KIND_VANTAGE@, detail: previous + " -> "@ + current }
}

/// The note on a sweep that carried nothing.
pub open spec fn empty_note(live: nat) -> NoteView {
    NoteView {
        kind: KIND_EMPTY@,
        detail: "a complete sweep returned no observations against "@ + decimal(live)
            + " live record(s); nothing retracted -- re-run with --confirm-empty to retract them all"@,
    }
}

/// What a complete sweep concludes.
pub struct Conclusion {
    pub retractions: Seq<RetractionView>,
    pub notes: Seq<NoteView>,
}

/// What a complete sweep concludes from what it carried. From another vantage it
/// concludes nothing, and neither from nothing at all, unless the user confirmed
/// that.
pub open spec fn conclusion(
    s: StoreView,
    input: InputView,
    crawl_id: int,
    now: Seq<char>,
    observed: Seq<Seq<char>>,
    exempt: Seq<Seq<char>>,
) -> Conclusion {
    let live = live_listing(s, input.adapter_id, input.resource_id);
    match moved_from(s, input) {
        Some(previous) => Conclusion {
            retractions: Seq::empty(),
            notes: seq![vantage_note(previous, input.provider_id)],
        },
        None => if observed.len() == 0 && live.len() > 0 && !input.options.confirm_empty {
            Conclusion { retractions: Seq::empty(), notes: seq![empty_note(live.len())] }
        } else {
            let t = tally(s, input, crawl_id, now, observed, exempt, live);
            Conclusion { retractions: t.retractions, notes: notes_on(t) }
        },
    }
}

/// The vantage that the last complete sweep read from, if this one reads from
/// another.
pub open spec fn moved_from(s: StoreView, input: InputView) -> Option<Seq<char>> {
    match s.resource_row(input.adapter_id, input.resource_id) {
        Some(row) => match row.last_provider_id {
            Some(previous) => if previous != input.provider_id {
                Some(previous)
            } else {
                None
            },
            None => None,
        },
        None => None,
    }
}

/// The store after a conclusion was written down.
pub open spec fn concluded(
    s: StoreView,
    input: InputView,
    crawl_id: int,
    now: Seq<char>,
    c: Conclusion,
) -> StoreView {
    noted(
        StoreView { retractions: s.retractions + c.retractions, ..s },
        input,
        crawl_id,
        now,
        c.notes,
    )
}

/// What a complete sweep did.
#[derive(Debug)]
pub struct RetractionOutcome {
    pub retracted: usize,
    pub discrepancies: Vec<Discrepancy>,
}

fn lies_within_history(o: &Observation, start: &Rfc3339) -> (r: bool)
    ensures
        r == within_history(o@, start@),
{
    let at = match &o.provenance.effective_at {
        Some(at) => at,
        None => &o.provenance.observed_at,
    };
    match (instant(at), instant(start)) {
        (Some((s, n)), Some((t, m))) => !(s < t || (s == t && n < m)),
        _ => false,
    }
}

fn find_reason(store: &Store, input: &SweepInput, fold: &Fold, local_id: &str) -> (r: &'static str)
    requires
        fold@ == arrivals_of(store@.observations, input@.adapter_id),
        store@.chain(input@.adapter_id, local_id@).len() > 0,
    ensures
        r@ == reason_for(store@, input@, local_id@),
{
    let adapter_id = input.adapter_id.as_str();
    let entries = fold.chain(adapter_id, local_id);
    proof {
        assert(views(entries@) == store@.chain(input@.adapter_id, local_id@));
        assert(views(entries@).last() == entries@.last()@);
    }
    let revision = entries[entries.len() - 1].revision;
    let tables = store.tables();
    let rows = &tables.observations;
    let mut i: usize = rows.len();
    proof {
        assert(views(rows@).take(i as int) =~= views(rows@));
    }
    while i > 0
        invariant
            i <= rows@.len(),
            views(rows@) == store@.observations,
            adapter_id@ == input@.adapter_id,
            revision == store@.chain(input@.adapter_id, local_id@).last().revision,
            row_of(views(rows@), adapter_id@, local_id@, revision as nat) == row_of(
                views(rows@).take(i as int),
                adapter_id@,
                local_id@,
                revision as nat,
            ),
        decreases i,
    {
        let ghost front = views(rows@).take(i as int);
        i = i - 1;
        let row = &rows[i];
        proof {
            assert(front.last() == row@);
            assert(front.drop_last() =~= views(rows@).take(i as int));
        }
        if row.revision == revision && same(row.observation.local_id.as_str(), local_id) && same(
            row.adapter_id.as_str(),
            adapter_id,
        ) {
            if !same(row.derivation.as_str(), input.hello_derivation.as_str()) {
                return REASON_DERIVATION;
            }
            let defined = match &row.fingerprint {
                Some(fingerprint) => same(fingerprint.as_str(), input.fingerprint.as_str()),
                None => false,
            };
            return if defined {
                REASON_ABSENT
            } else {
                REASON_DEFINITION
            };
        }
    }
    REASON_ABSENT
}

fn note(
    store: &mut Store,
    input: &SweepInput,
    crawl_id: i64,
    now: &str,
    kind: &str,
    detail: String,
    notes: &mut Vec<Discrepancy>,
)
    requires
        is_crawl(old(store)@.crawls, crawl_id as int),
    ensures
        final(store)@ == old(store)@.with_discrepancy(
            DiscrepancyView {
                adapter_id: input@.adapter_id,
                resource_id: input@.resource_id,
                kind: kind@,
                crawl_id: crawl_id as int,
                detail: detail@,
                noted_at: now@,
            },
        ),
        views(final(notes)@) == views(old(notes)@).push(NoteView { kind: kind@, detail: detail@ }),
{
    // The crawl is there, so nothing is refused.
    let _ = append_discrepancy(
        store,
        input.adapter_id.as_str(),
        input.resource_id.as_str(),
        kind,
        crawl_id,
        detail.as_str(),
        now,
    );
    let discrepancy = Discrepancy { kind: kind.to_owned(), detail };
    proof {
        lemma_views_push(notes@, discrepancy);
    }
    notes.push(discrepancy);
}

proof fn lemma_noted_push(
    s: StoreView,
    input: InputView,
    crawl_id: int,
    now: Seq<char>,
    notes: Seq<NoteView>,
    new: NoteView,
)
    ensures
        noted(s, input, crawl_id, now, notes.push(new)) == noted(
            s,
            input,
            crawl_id,
            now,
            notes,
        ).with_discrepancy(
            DiscrepancyView {
                adapter_id: input.adapter_id,
                resource_id: input.resource_id,
                kind: new.kind,
                crawl_id,
                detail: new.detail,
                noted_at: now,
            },
        ),
{
    assert(notes.push(new).drop_last() =~= notes);
}

fn software_detail(what: &str, count: usize, kind: &str) -> (r: String)
    ensures
        r@ == software_note(kind@, what@, count as nat).detail,
{
    let mut out = "the ".to_owned();
    out.append(what);
    out.append(" changed; ");
    push_decimal(&mut out, count as u64);
    out.append(" record(s) that can no longer be re-emitted were retired under ");
    out.append(kind);
    out.append(", naming the software change rather than the provider");
    out
}

/// How many live records met which fate.
struct Numbers {
    retracted: usize,
    derivation: usize,
    definition: usize,
    history: usize,
}

fn retract_absent(
    store: &mut Store,
    input: &SweepInput,
    crawl_id: i64,
    fold: &Fold,
    observed_ids: &Vec<String>,
    exempt_ids: &Vec<String>,
    now: &str,
    live: &Vec<(String, u64, Observation)>,
) -> (r: Numbers)
    requires
        fold@ == arrivals_of(old(store)@.observations, input@.adapter_id),
        is_crawl(old(store)@.crawls, crawl_id as int),
        forall|i: int|
            0 <= i < live@.len() ==> 0 < (#[trigger] live_views(live@)[i]).revision <= old(
                store,
            )@.chain(input@.adapter_id, live_views(live@)[i].local_id).len(),
        forall|i: int|
            0 <= i < live@.len() ==> (#[trigger] live_views(live@)[i]).revision <= MAX_REVISION,
    ensures
        ({
            let s = old(store)@;
            let t = tally(
                s,
                input@,
                crawl_id as int,
                now@,
                views(observed_ids@),
                views(exempt_ids@),
                live_views(live@),
            );
            &&& final(store)@ == (StoreView { retractions: s.retractions + t.retractions, ..s })
            &&& r.retracted == t.retractions.len()
            &&& r.derivation == t.derivation
            &&& r.definition == t.definition
            &&& r.history == t.history
        }),
{
    let ghost s = store@;
    let ghost all = live_views(live@);
    let ghost observed = views(observed_ids@);
    let ghost exempt = views(exempt_ids@);
    let mut n = Numbers { retracted: 0, derivation: 0, definition: 0, history: 0 };
    let mut i: usize = 0;
    proof {
        lemma_reasons_differ();
        assert(s.retractions =~= s.retractions + Seq::<RetractionView>::empty());
    }
    while i < live.len()
        invariant
            i <= live@.len(),
            all == live_views(live@),
            observed == views(observed_ids@),
            exempt == views(exempt_ids@),
            REASON_DERIVATION@ != REASON_DEFINITION@,
            REASON_DERIVATION@ != REASON_ABSENT@,
            REASON_DEFINITION@ != REASON_ABSENT@,
            fold@ == arrivals_of(s.observations, input@.adapter_id),
            is_crawl(s.crawls, crawl_id as int),
            forall|k: int|
                0 <= k < all.len() ==> 0 < (#[trigger] all[k]).revision <= s.chain(
                    input@.adapter_id,
                    all[k].local_id,
                ).len(),
            forall|k: int|
                0 <= k < all.len() ==> (#[trigger] all[k]).revision <= MAX_REVISION,
            ({
                let t = tally(
                    s,
                    input@,
                    crawl_id as int,
                    now@,
                    observed,
                    exempt,
                    all.take(i as int),
                );
                &&& store@ == (StoreView { retractions: s.retractions + t.retractions, ..s })
                &&& n.retracted == t.retractions.len()
                &&& n.derivation == t.derivation
                &&& n.definition == t.definition
                &&& n.history == t.history
                &&& n.retracted <= i
                &&& n.derivation <= i
                &&& n.definition <= i
                &&& n.history <= i
            }),
        decreases live@.len() - i,
    {
        let (local_id, revision, head) = &live[i];
        let ghost l = all[i as int];
        let ghost before = tally(
            s,
            input@,
            crawl_id as int,
            now@,
            observed,
            exempt,
            all.take(i as int),
        );
        proof {
            assert(all.take(i + 1).drop_last() =~= all.take(i as int));
            assert(all.take(i + 1).last() == l);
        }
        if is_among(observed_ids, local_id.as_str()) || is_among(exempt_ids, local_id.as_str()) {
        } else {
            let within = match &input.history_start {
                Some(start) => lies_within_history(head, start),
                None => true,
            };
            if !within {
                n.history = n.history + 1;
            } else {
                let reason = find_reason(store, input, fold, local_id.as_str());
                proof {
                    assert(reason@ == reason_for(s, input@, l.local_id));
                }
                // The crawl is there, so nothing is refused.
                let _ = append_retraction(
                    store,
                    input.adapter_id.as_str(),
                    local_id.as_str(),
                    *revision,
                    reason,
                    crawl_id,
                    now,
                );
                proof {
                    assert(store@.retractions =~= s.retractions + before.retractions.push(
                        retraction_of(s, input@, crawl_id as int, now@, l),
                    ));
                }
                n.retracted = n.retracted + 1;
                if same(reason, REASON_DERIVATION) {
                    n.derivation = n.derivation + 1;
                }
                if same(reason, REASON_DEFINITION) {
                    n.definition = n.definition + 1;
                }
            }
        }
        i = i + 1;
    }
    proof {
        assert(all.take(i as int) =~= all);
    }
    n
}

/// The reasons are told apart.
pub proof fn lemma_reasons_differ()
    ensures
        REASON_DERIVATION@ != REASON_DEFINITION@,
        REASON_DERIVATION@ != REASON_ABSENT@,
        REASON_DEFINITION@ != REASON_ABSENT@,
{
    reveal_strlit("derivation_changed");
    reveal_strlit("resource_definition_changed");
    reveal_strlit("absent_from_complete_sweep");
    assert(REASON_DERIVATION@[0] == 'd');
    assert(REASON_DEFINITION@[0] == 'r');
    assert(REASON_ABSENT@[0] == 'a');
}

/// Writes down what a complete sweep concludes from what it carried.
pub fn derive_retractions(
    store: &mut Store,
    input: &SweepInput,
    crawl_id: i64,
    fold: &Fold,
    observed_ids: &Vec<String>,
    exempt_ids: &Vec<String>,
    now: &str,
) -> (r: RetractionOutcome)
    requires
        fold@ == arrivals_of(old(store)@.observations, input@.adapter_id),
        is_crawl(old(store)@.crawls, crawl_id as int),
        old(store)@.observations.len() <= i64::MAX,
    ensures
        ({
            let c = conclusion(
                old(store)@,
                input@,
                crawl_id as int,
                now@,
                views(observed_ids@),
                views(exempt_ids@),
            );
            &&& final(store)@ == concluded(old(store)@, input@, crawl_id as int, now@, c)
            &&& r.retracted == c.retractions.len()
            &&& views(r.discrepancies@) == c.notes
        }),
{
    let ghost s = store@;
    let ghost id = crawl_id as int;
    let adapter_id = input.adapter_id.as_str();
    let marks = retraction_high_water(store, adapter_id);
    let live = live_set(fold, &marks, adapter_id, input.resource_id.as_str());
    let ghost all = live_views(live@);
    proof {
        lemma_lists_live(all, s, marks@, input@.adapter_id, input@.resource_id);
        crate::store::live::law_the_listing_is_the_live_set(
            s,
            input@.adapter_id,
            input@.resource_id,
        );
        assert(s.retractions + Seq::<RetractionView>::empty() =~= s.retractions);
        lemma_arrivals_len(s.observations, input@.adapter_id);
        assert forall|i: int| 0 <= i < all.len() implies (#[trigger] all[i]).revision
            <= MAX_REVISION by {
            let key = ChainKey { adapter_id: input@.adapter_id, local_id: all[i].local_id };
            lemma_chain_len(fold@, key);
        }
    }
    let mut notes: Vec<Discrepancy> = Vec::new();
    proof {
        assert(views(notes@) =~= Seq::<NoteView>::empty());
    }
    let previous = match resource(store, adapter_id, input.resource_id.as_str()) {
        Some(row) => row.last_provider_id,
        None => None,
    };
    if let Some(previous) = previous {
        if !same(previous.as_str(), input.provider_id.as_str()) {
            let mut detail = previous.clone();
            detail.append(" -> ");
            detail.append(input.provider_id.as_str());
            note(store, input, crawl_id, now, KIND_VANTAGE, detail, &mut notes);
            proof {
                let n = vantage_note(previous@, input@.provider_id);
                assert(moved_from(s, input@) == Some(previous@));
                lemma_noted_push(s, input@, id, now@, Seq::empty(), n);
                assert(Seq::<NoteView>::empty().push(n) =~= seq![n]);
            }
            return RetractionOutcome { retracted: 0, discrepancies: notes };
        }
    }
    proof {
        assert(moved_from(s, input@) is None);
    }
    if observed_ids.len() == 0 && live.len() > 0 && !input.options.confirm_empty {
        let mut detail = "a complete sweep returned no observations against ".to_owned();
        push_decimal(&mut detail, live.len() as u64);
        detail.append(
            " live record(s); nothing retracted -- re-run with --confirm-empty to retract them all",
        );
        note(store, input, crawl_id, now, KIND_EMPTY, detail, &mut notes);
        proof {
            let n = empty_note(all.len());
            lemma_noted_push(s, input@, id, now@, Seq::empty(), n);
            assert(Seq::<NoteView>::empty().push(n) =~= seq![n]);
        }
        return RetractionOutcome { retracted: 0, discrepancies: notes };
    }
    let n = retract_absent(
        store,
        input,
        crawl_id,
        fold,
        observed_ids,
        exempt_ids,
        now,
        &live,
    );
    let ghost t = tally(s, input@, id, now@, views(observed_ids@), views(exempt_ids@), all);
    let ghost base = store@;
    if n.derivation > 0 {
        let detail = software_detail("derivation", n.derivation, KIND_DERIVATION);
        proof {
            let new = software_note(KIND_DERIVATION@, "derivation"@, t.derivation);
            lemma_noted_push(base, input@, id, now@, Seq::empty(), new);
            assert(Seq::<NoteView>::empty().push(new) =~= seq![new]);
        }
        note(store, input, crawl_id, now, KIND_DERIVATION, detail, &mut notes);
    }
    let ghost first = views(notes@);
    if n.definition > 0 {
        let detail = software_detail("resource definition", n.definition, KIND_DEFINITION);
        proof {
            let new = software_note(KIND_DEFINITION@, "resource definition"@, t.definition);
            lemma_noted_push(base, input@, id, now@, first, new);
        }
        note(store, input, crawl_id, now, KIND_DEFINITION, detail, &mut notes);
    }
    let ghost second = views(notes@);
    if n.history > 0 {
        let mut detail = String::new();
        push_decimal(&mut detail, n.history as u64);
        detail.append(
            " live record(s) predate the adapter's reported history_start and were exempted from retraction",
        );
        proof {
            let new = history_note(t.history);
            assert(detail@ =~= new.detail);
            lemma_noted_push(base, input@, id, now@, second, new);
        }
        note(store, input, crawl_id, now, KIND_HISTORY_START, detail, &mut notes);
    }
    RetractionOutcome { retracted: n.retracted, discrepancies: notes }
}

} // verus!
