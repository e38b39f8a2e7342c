//! The incremental engine: turns a request for `(key, version)` into a
//! cache hit, a dependency revalidation, or a fresh compute, and commits
//! the outcome.
//!
//! The engine is the sequential core of the protocol. Identical requests
//! (same key, same version epoch) are deduplicated through a per-key task
//! slot: at most one computation is in flight per key, later requesters
//! share the finished task's value. What the engine cannot do itself — run
//! the user evaluator, compute dependencies concurrently — it hands to its
//! driver as an explicit outcome (`MustCompute`, `MustCheckDeps`), and the
//! driver hands the results back (`compute`, `deps_checked`). Every
//! decision in between is verified here.

use vstd::prelude::*;

use crate::core_state::CoreState;
use crate::core_state::StateRequest;
use crate::core_state::StateResponse;
use crate::events::ActivationData;
use crate::events::ActivationRecord;
use crate::events::ActivationTracker;
use crate::events::CycleEvent;
use crate::events::DiceEvent;
use crate::events::DiceEventDispatcher;
use crate::events::UserCycleDetectorData;
use crate::evaluator::EvaluationResult;
use crate::evaluator::SyncEvaluator;
use crate::graph::update_post;
use crate::graph::StorageType;
use crate::graph::VersionedGraphKey;
use crate::graph::VersionedGraphResult;
use crate::graph::VersionedGraphResultMismatch;
use crate::history::CellHistory;
use crate::key::copy_keys;
use crate::key::DiceKey;
use crate::key::DiceKeyIndex;
use crate::key::ParentKey;
use crate::key::UserKey;
use crate::task::CancellableResult;
use crate::task::Cancelled;
use crate::task::DiceTask;
use crate::task::DiceTaskState;
use crate::task::PreviouslyCancelledTask;
use crate::task::TerminationStatus;
use crate::value::same_computed;
use crate::value::DiceComputedValue;
use crate::value::MaybeValidDiceValue;
use crate::versions::VersionEpoch;
use crate::versions::VersionNumber;
use crate::versions::VersionRanges;

verus! {

/// Whether the recorded dependencies of a prior value changed between the
/// versions at which it was verified and the requested version.
#[derive(Debug)]
pub enum DidDepsChange {
    Changed,
    /// These deps did not change; they are carried for the reuse commit.
    NoChange(Vec<DiceKey>),
    NoDeps,
}

/// The per-key slot deduplicating work: no task yet, one in flight, or a
/// terminated one whose result later requesters share.
#[derive(Debug)]
pub enum TaskSlot {
    Vacant,
    Live,
    Done(DiceTask),
}

/// What a request comes back with: a finished value, or the work the
/// driver must do next.
#[derive(Debug)]
pub enum RequestOutcome {
    /// The value is ready: a cache hit, an adopted result, or a reuse.
    Ready(DiceComputedValue),
    /// Run the user evaluator for the key, then call `compute`.
    MustCompute(DiceTask),
    /// Compute each dependency in `deps_to_validate` opaquely, then hand
    /// their verified ranges to `deps_checked`.
    MustCheckDeps(DiceTask, VersionedGraphResultMismatch),
    /// A task for this key is already in flight; await it instead.
    AlreadyInFlight,
}

/// Whether `w` is a version at which `start` and every dependency result
/// that came back `Ok` are all verified.
pub open spec fn common_version_upto(
    start: VersionRanges,
    results: Seq<CancellableResult<VersionRanges>>,
    n: int,
    w: int,
) -> bool {
    &&& start.contains(w)
    &&& forall|i: int|
        0 <= i < n ==> match #[trigger] results[i] {
            Ok(rs) => rs.contains(w),
            Err(_) => true,
        }
}

pub open spec fn common_version(
    start: VersionRanges,
    results: Seq<CancellableResult<VersionRanges>>,
    w: int,
) -> bool {
    common_version_upto(start, results, results.len() as int, w)
}

/// Whether every dependency result came back `Ok`.
pub open spec fn all_ok(results: Seq<CancellableResult<VersionRanges>>) -> bool {
    forall|i: int| 0 <= i < results.len() ==> (#[trigger] results[i]) is Ok
}

/// Whether some dependency was cancelled.
pub open spec fn some_err(results: Seq<CancellableResult<VersionRanges>>) -> bool {
    exists|i: int| 0 <= i < results.len() && (#[trigger] results[i]) is Err
}

/// The cycle-report events for the first `m` dependencies, in order: one
/// subrequest per dependency examined.
pub open spec fn subrequest_events(deps: Seq<DiceKey>, m: int) -> Seq<crate::events::CycleEvent> {
    deps.subrange(0, m).map(|i: int, d: DiceKey| crate::events::CycleEvent::SubRequest { k: d })
}

/// What reporting one activation does to a tracker: nothing when disabled;
/// otherwise one record is appended, carrying the user keys of the key and
/// its dependencies and the activation data.
pub open spec fn activation_reported(
    ki: DiceKeyIndex,
    t0: ActivationTracker,
    t1: ActivationTracker,
    key: DiceKey,
    deps: Seq<DiceKey>,
    data: ActivationData,
) -> bool {
    &&& t1.enabled == t0.enabled
    &&& if t0.enabled {
        &&& t1.activations@.len() == t0.activations@.len() + 1
        &&& forall|l: int|
            0 <= l < t0.activations@.len() ==> t1.activations@[l] == t0.activations@[l]
        &&& t1.activations@.last().key == ki.keys@[key.index as int]
        &&& t1.activations@.last().data == data
        &&& t1.activations@.last().deps@.len() == deps.len()
        &&& forall|l: int|
            0 <= l < deps.len() ==> t1.activations@.last().deps@[l] == ki.keys@[(
            #[trigger] deps[l]).index as int]
    } else {
        t1 == t0
    }
}

/// Reports one key activation to the tracker: the key that became active,
/// the user keys of its recorded dependencies, and whether its value was
/// computed or reused.
pub fn report_key_activation(
    key_index: &DiceKeyIndex,
    activation_tracker: &mut ActivationTracker,
    key: DiceKey,
    deps: &Vec<DiceKey>,
    activation_data: ActivationData,
)
    requires
        key.index < key_index.keys@.len(),
        forall|l: int|
            0 <= l < deps@.len() ==> (#[trigger] deps@[l]).index < key_index.keys@.len(),
    ensures
        activation_reported(
            *key_index,
            *old(activation_tracker),
            *final(activation_tracker),
            key,
            deps@,
            activation_data,
        ),
{
    if !activation_tracker.enabled {
        return ;
    }
    let user_key = key_index.get(key);
    let n = deps.len();
    let mut mapped: Vec<UserKey> = Vec::new();
    let mut i: usize = 0;
    while i < n
        invariant
            n == deps@.len(),
            0 <= i <= n,
            forall|l: int|
                0 <= l < deps@.len() ==> (#[trigger] deps@[l]).index < key_index.keys@.len(),
            mapped@.len() == i,
            forall|l: int|
                0 <= l < i ==> mapped@[l] == key_index.keys@[(#[trigger] deps@[l]).index as int],
        decreases n - i,
    {
        mapped.push(key_index.get(deps[i]));
        i += 1;
    }
    let record = ActivationRecord { key: user_key, deps: mapped, data: activation_data };
    activation_tracker.activations.push(record);
}

/// The engine owning one transaction's requests: the state it commits to,
/// the version and epoch it runs at, the key intern table, the per-key
/// task slots, and the reporting surfaces.
#[derive(Debug)]
pub struct IncrementalEngine {
    pub state: CoreState,
    pub key_index: DiceKeyIndex,
    pub v: VersionNumber,
    pub version_epoch: VersionEpoch,
    pub tasks: Vec<TaskSlot>,
    pub events: DiceEventDispatcher,
    pub activation_tracker: ActivationTracker,
    pub cycles: UserCycleDetectorData,
}

impl IncrementalEngine {
    pub open spec fn wf(self) -> bool {
        &&& self.state.wf()
        &&& self.key_index.wf()
        &&& forall|i: int|
            0 <= i < self.tasks@.len() ==> match #[trigger] self.tasks@[i] {
                TaskSlot::Done(t) => t.is_terminal(),
                _ => true,
            }
    }

    /// The task slot of a key (`Vacant` when never touched).
    pub open spec fn slot(self, k: DiceKey) -> TaskSlot {
        if (k.index as int) < self.tasks@.len() {
            self.tasks@[k.index as int]
        } else {
            TaskSlot::Vacant
        }
    }

    pub fn new(
        state: CoreState,
        key_index: DiceKeyIndex,
        v: VersionNumber,
        version_epoch: VersionEpoch,
        activation_tracker: ActivationTracker,
    ) -> (r: IncrementalEngine)
        requires
            state.wf(),
            key_index.wf(),
        ensures
            r.wf(),
            r.state == state,
            r.key_index == key_index,
            r.v == v,
            r.version_epoch == version_epoch,
            r.activation_tracker == activation_tracker,
            r.tasks@.len() == 0,
            r.events.events@.len() == 0,
            r.cycles.events@.len() == 0,
            forall|k: DiceKey| #[trigger] r.slot(k) is Vacant,
    {
        IncrementalEngine {
            state,
            key_index,
            v,
            version_epoch,
            tasks: Vec::new(),
            events: DiceEventDispatcher::new(),
            activation_tracker,
            cycles: UserCycleDetectorData::new(),
        }
    }

    /// Hands the owned pieces back, for the next transaction.
    pub fn into_parts(self) -> (r: (CoreState, DiceKeyIndex, ActivationTracker))
        ensures
            r.0 == self.state,
            r.1 == self.key_index,
            r.2 == self.activation_tracker,
    {
        (self.state, self.key_index, self.activation_tracker)
    }

    /// Grows the slot table so `k` has a slot; existing slots keep their
    /// contents.
    fn ensure_slot(&mut self, k: DiceKey)
        requires
            old(self).wf(),
        ensures
            final(self).wf(),
            (k.index as int) < final(self).tasks@.len(),
            forall|k2: DiceKey| #[trigger] final(self).slot(k2) == old(self).slot(k2),
            (k.index as int) < old(self).tasks@.len() ==> final(self).tasks@ == old(self).tasks@,
            final(self).state == old(self).state,
            final(self).key_index == old(self).key_index,
            final(self).v == old(self).v,
            final(self).version_epoch == old(self).version_epoch,
            final(self).events == old(self).events,
            final(self).activation_tracker == old(self).activation_tracker,
            final(self).cycles == old(self).cycles,
    {
        let ki = k.index as usize;
        while self.tasks.len() <= ki
            invariant
                old(self).wf(),
                ki == k.index as int,
                self.tasks@.len() == old(self).tasks@.len() || self.tasks@.len() <= ki + 1,
                self.tasks@.len() >= old(self).tasks@.len(),
                forall|i: int|
                    0 <= i < old(self).tasks@.len() ==> self.tasks@[i] == old(self).tasks@[i],
                forall|i: int|
                    old(self).tasks@.len() <= i < self.tasks@.len() ==> (
                    #[trigger] self.tasks@[i]) is Vacant,
                self.state == old(self).state,
                self.key_index == old(self).key_index,
                self.v == old(self).v,
                self.version_epoch == old(self).version_epoch,
                self.events == old(self).events,
                self.activation_tracker == old(self).activation_tracker,
                self.cycles == old(self).cycles,
            decreases ki + 1 - self.tasks@.len(),
        {
            self.tasks.push(TaskSlot::Vacant);
        }
        proof {
            if (k.index as int) < old(self).tasks@.len() {
                assert(self.tasks@ =~= old(self).tasks@);
            }
        }
    }
}

/// What committing one projection outcome promises: the returned value is
/// the evaluator's, verified at this engine's version alone; a valid value
/// under the current epoch commits to the store exactly as `update_post`
/// describes (for some canonical reply, which the projection does not
/// await); a transient value, or a stale epoch, leaves the store as found.
pub open spec fn projection_commit_post(
    e0: IncrementalEngine,
    e1: IncrementalEngine,
    k: DiceKey,
    res: EvaluationResult,
    cv: DiceComputedValue,
) -> bool {
    &&& cv.value == res.value
    &&& cv.history.wf()
    &&& forall|w: int| #[trigger] cv.history.verified_at(w) <==> e0.v.0 <= w
    &&& res.value.valid && e0.version_epoch == e0.state.version_epoch ==> exists|
        u: DiceComputedValue,
    |
        #[trigger] update_post(
            e0.state.graph,
            e1.state.graph,
            VersionedGraphKey { v: e0.v, k },
            res.value.value,
            res.deps@,
            res.storage,
            u,
        )
    &&& res.value.valid && e0.version_epoch != e0.state.version_epoch ==> e1.state == e0.state
    &&& !res.value.valid ==> e1.state == e0.state
    &&& e1.state.version_epoch == e0.state.version_epoch
}

/// Whether a projection of `k` carried `e0` to `e1` and returned `cv`:
/// some evaluation result was returned and committed exactly as
/// `projection_commit_post` describes.
pub open spec fn projection_completed(
    e0: IncrementalEngine,
    e1: IncrementalEngine,
    k: DiceKey,
    cv: DiceComputedValue,
) -> bool {
    exists|res: EvaluationResult| #[trigger] projection_commit_post(e0, e1, k, res, cv)
}

/// Whether the key's promise is already complete: its slot holds a
/// finished task.
pub open spec fn finished_slot(e: IncrementalEngine, k: DiceKey) -> bool {
    match e.slot(k) {
        TaskSlot::Done(t) => t.state is Finished,
        _ => false,
    }
}

/// Whether nothing about the engine changed: same state, same slots, same
/// events and reports.
pub open spec fn unchanged_engine(e0: IncrementalEngine, e1: IncrementalEngine) -> bool {
    &&& e1.state == e0.state
    &&& e1.key_index == e0.key_index
    &&& e1.v == e0.v
    &&& e1.version_epoch == e0.version_epoch
    &&& e1.tasks@ == e0.tasks@
    &&& e1.events == e0.events
    &&& e1.activation_tracker == e0.activation_tracker
    &&& e1.cycles == e0.cycles
}

/// What dispatching one fresh entry promises: how the outcome relates the
/// engine before (`e0`, with the key's slot not yet taken) to the engine
/// after (`e1`). The graph is only read; which outcome comes back follows
/// the lookup: a hit is `Ready`, a fresh key must compute, a bordering
/// entry has its dependencies checked.
pub open spec fn task_outcome_post(
    e0: IncrementalEngine,
    e1: IncrementalEngine,
    k: DiceKey,
    r: RequestOutcome,
) -> bool {
    let v = e0.v.0 as int;
    let es = e0.state.graph.entries(k);
    &&& e1.wf()
    &&& e1.v == e0.v
    &&& e1.version_epoch == e0.version_epoch
    &&& e1.key_index == e0.key_index
    &&& e1.activation_tracker == e0.activation_tracker
    &&& match r {
        RequestOutcome::Ready(cv) => {
            &&& e0.state.graph.has_match(k, v)
            &&& exists|j: int|
                0 <= j < es.len() && (#[trigger] es[j]).history.verified_at(v) && cv.value == (
                MaybeValidDiceValue { value: es[j].value, valid: true }) && cv.history.verified@
                    == es[j].history.verified@ && cv.history.dirtied@ == es[j].history.dirtied@
            &&& e1.state == e0.state
            &&& e1.events == e0.events
            &&& e1.cycles == e0.cycles
            &&& e1.slot(k) matches TaskSlot::Done(t) && t.state matches DiceTaskState::Finished(u)
                && same_computed(u, cv)
        },
        RequestOutcome::MustCompute(t) => {
            &&& !e0.state.graph.has_match(k, v)
            // a fresh compute only when no prior entry is usable: none holds
            // a verified point at or before `v`, or a forced dirtying lies
            // after the candidate's point — else dependencies are checked
            &&& (!e0.state.graph.has_candidate(k, v) || exists|j: int, p: int|
                #[trigger] crate::graph::candidate_in(es, v, j, p)
                    && es[j].history.has_force_dirty_between(p, v))
            &&& t.state is Computing
            &&& t.cancellation.status is Cancellable
            &&& e1.state == e0.state
            &&& e1.events.events@ == e0.events.events@.push(DiceEvent::Started { k })
            &&& e1.slot(k) is Live
        },
        RequestOutcome::MustCheckDeps(t, m) => {
            &&& !e0.state.graph.has_match(k, v)
            &&& exists|j: int, p: int|
                #[trigger] crate::graph::candidate_in(es, v, j, p)
                    && !es[j].history.has_force_dirty_between(p, v) && m.entry == es[j].value
                    && m.deps_to_validate@ == es[j].deps@ && m.verified_versions.wf() && (forall|
                    w: int,
                |
                    #[trigger] m.verified_versions.contains(w) <==> es[j].history.verified_at(w))
            &&& t.state is CheckingDeps
            &&& t.cancellation.status is Cancellable
            &&& e1.state == e0.state
            &&& e1.events.events@ == e0.events.events@.push(DiceEvent::CheckDepsStarted { k })
            &&& e1.slot(k) is Live
        },
        RequestOutcome::AlreadyInFlight => false,
    }
}

impl IncrementalEngine {
    /// Looks the key up in the versioned graph and dispatches: a hit is
    /// returned at once; otherwise the key's task advances to computing or
    /// dependency checking and the driver is told what to do.
    fn eval_entry_versioned(&mut self, k: DiceKey) -> (r: RequestOutcome)
        requires
            old(self).wf(),
            old(self).slot(k) is Vacant,
        ensures
            task_outcome_post(*old(self), *final(self), k, r),
            forall|k2: DiceKey|
                k2.index != k.index ==> #[trigger] final(self).slot(k2) == old(self).slot(k2),
    {
        self.ensure_slot(k);
        let ki = k.index as usize;
        let ghost grown = *self;
        let resp = self.state.process(
            StateRequest::LookupKey { key: VersionedGraphKey::new(self.v, k) },
        );
        match resp {
            StateResponse::LookupKey { result } => match result {
                VersionedGraphResult::Match(entry) => {
                    let out = entry.dupe();
                    let ghost stored = entry;
                    let mut t = DiceTask::new();
                    t.finished(entry);
                    self.tasks.set(ki, TaskSlot::Done(t));
                    proof {
                        let es = old(self).state.graph.entries(k);
                        let v = old(self).v.0 as int;
                        let j = choose|j: int|
                            0 <= j < es.len() && (#[trigger] es[j]).history.verified_at(v)
                                && stored.value == (MaybeValidDiceValue {
                                value: es[j].value,
                                valid: true,
                            }) && stored.history.verified@ == es[j].history.verified@
                                && stored.history.dirtied@ == es[j].history.dirtied@;
                        assert(0 <= j < es.len() && es[j].history.verified_at(v) && out.value == (
                        MaybeValidDiceValue { value: es[j].value, valid: true })
                            && out.history.verified@ == es[j].history.verified@
                            && out.history.dirtied@ == es[j].history.dirtied@);
                        assert(final(self).slot(k) == TaskSlot::Done(t));
                        assert(final(self).wf());
                        assert forall|k2: DiceKey| k2.index != k.index implies #[trigger] final(self).slot(k2) == old(self).slot(k2) by {
                            assert(final(self).slot(k2) == grown.slot(k2));
                            assert(grown.slot(k2) == old(self).slot(k2));
                        }
                    }
                    RequestOutcome::Ready(out)
                },
                VersionedGraphResult::Compute => {
                    self.cycles.start_computing_key(k);
                    let mut t = DiceTask::new();
                    t.computing();
                    self.events.started(k);
                    self.tasks.set(ki, TaskSlot::Live);
                    proof {
                        assert(final(self).slot(k) is Live);
                        assert(final(self).wf());
                        assert forall|k2: DiceKey| k2.index != k.index implies #[trigger] final(self).slot(k2) == old(self).slot(k2) by {
                            assert(final(self).slot(k2) == grown.slot(k2));
                            assert(grown.slot(k2) == old(self).slot(k2));
                        }
                    }
                    RequestOutcome::MustCompute(t)
                },
                VersionedGraphResult::CheckDeps(mismatch) => {
                    self.cycles.start_computing_key(k);
                    let mut t = DiceTask::new();
                    t.checking_deps();
                    self.events.check_deps_started(k);
                    self.tasks.set(ki, TaskSlot::Live);
                    proof {
                        assert(final(self).slot(k) is Live);
                        assert(final(self).wf());
                        assert forall|k2: DiceKey| k2.index != k.index implies #[trigger] final(self).slot(k2) == old(self).slot(k2) by {
                            assert(final(self).slot(k2) == grown.slot(k2));
                            assert(grown.slot(k2) == old(self).slot(k2));
                        }
                    }
                    RequestOutcome::MustCheckDeps(t, mismatch)
                },
            },
            _ => {
                proof {
                    assert(false);
                }
                RequestOutcome::AlreadyInFlight
            },
        }
    }

    /// Spawns the computation of a key. When the previous task for the key
    /// was cancelled, its termination is consulted first: a task that
    /// finished despite the cancel has its value adopted, with no new
    /// evaluation; one that really was cancelled is recomputed.
    pub fn spawn_for_key(
        &mut self,
        k: DiceKey,
        previously_cancelled_task: Option<PreviouslyCancelledTask>,
    ) -> (r: RequestOutcome)
        requires
            old(self).wf(),
            old(self).slot(k) is Vacant,
            match previously_cancelled_task {
                Some(p) => p.wf(),
                None => true,
            },
        ensures
            match previously_cancelled_task {
                Some(p) => {
                    if p.termination is Finished {
                        // revival: the finished value is adopted as-is
                        &&& final(self).wf()
                        &&& r matches RequestOutcome::Ready(cv) && (match p.previous.state {
                            DiceTaskState::Finished(u) => same_computed(cv, u),
                            _ => false,
                        })
                        &&& final(self).state == old(self).state
                        &&& final(self).events == old(self).events
                        &&& final(self).cycles == old(self).cycles
                        &&& final(self).activation_tracker == old(self).activation_tracker
                        &&& final(self).v == old(self).v
                        &&& final(self).version_epoch == old(self).version_epoch
                        &&& final(self).key_index == old(self).key_index
                        &&& final(self).slot(k) matches TaskSlot::Done(t) && t.state is Finished
                    } else {
                        task_outcome_post(*old(self), *final(self), k, r)
                    }
                },
                None => task_outcome_post(*old(self), *final(self), k, r),
            },
            forall|k2: DiceKey|
                k2.index != k.index ==> #[trigger] final(self).slot(k2) == old(self).slot(k2),
    {
        match previously_cancelled_task {
            Some(prev) => {
                match prev.termination {
                    TerminationStatus::Finished => {
                        // the old task won its commit race: adopt its value
                        match prev.previous.get_finished_value() {
                            Some(val) => {
                                self.ensure_slot(k);
                                let ghost grown = *self;
                                self.tasks.set(k.index as usize, TaskSlot::Done(prev.previous));
                                proof {
                                    assert(final(self).slot(k) == TaskSlot::Done(prev.previous));
                                    assert(final(self).wf());
                                    assert forall|k2: DiceKey|
                                        k2.index != k.index implies #[trigger] final(self).slot(
                                        k2,
                                    ) == old(self).slot(k2) by {
                                        assert(final(self).slot(k2) == grown.slot(k2));
                                        assert(grown.slot(k2) == old(self).slot(k2));
                                    }
                                }
                                RequestOutcome::Ready(val)
                            },
                            None => {
                                proof {
                                    assert(false);
                                }
                                self.eval_entry_versioned(k)
                            },
                        }
                    },
                    TerminationStatus::Cancelled => {
                        // really cancelled: evaluate afresh
                        self.eval_entry_versioned(k)
                    },
                }
            },
            None => self.eval_entry_versioned(k),
        }
    }

    /// The deduplicating entry point: requests the key at this engine's
    /// version. A finished task's value is shared with no new work; a live
    /// task means the caller must await it; a cancelled task is consulted
    /// and revived or recomputed; otherwise the key is spawned.
    pub fn request(&mut self, k: DiceKey) -> (r: RequestOutcome)
        requires
            old(self).wf(),
        ensures
            // deduplication: a finished task's value is returned unchanged,
            // with no evaluation, no event, no state touched
            old(self).slot(k) matches TaskSlot::Done(t) ==> t.state matches
                DiceTaskState::Finished(u) ==> r matches RequestOutcome::Ready(cv)
                && same_computed(cv, u) && unchanged_engine(*old(self), *final(self)),
            old(self).slot(k) is Live ==> r is AlreadyInFlight && unchanged_engine(
                *old(self),
                *final(self),
            ),
            old(self).slot(k) is Vacant ==> task_outcome_post(*old(self), *final(self), k, r),
            (old(self).slot(k) matches TaskSlot::Done(t) && t.state is Cancelled)
                ==> task_outcome_post(*old(self), *final(self), k, r),
            forall|k2: DiceKey|
                k2.index != k.index ==> #[trigger] final(self).slot(k2) == old(self).slot(k2),
    {
        self.ensure_slot(k);
        let ki = k.index as usize;
        let ghost grown = *self;
        let mut slot = TaskSlot::Vacant;
        self.tasks.set_and_swap(ki, &mut slot);
        proof {
            assert(slot == grown.tasks@[ki as int]);
            assert(slot == grown.slot(k));
            assert(grown.slot(k) == old(self).slot(k));
        }
        match slot {
            TaskSlot::Live => {
                self.tasks.set(ki, TaskSlot::Live);
                proof {
                    assert((k.index as int) < old(self).tasks@.len());
                    assert(grown.tasks@ == old(self).tasks@);
                    assert(final(self).tasks@ =~= old(self).tasks@);
                    assert(forall|k2: DiceKey| #[trigger]
                        final(self).slot(k2) == old(self).slot(k2));
                }
                RequestOutcome::AlreadyInFlight
            },
            TaskSlot::Vacant => {
                let ghost mid = *self;
                let r = self.spawn_for_key(k, None);
                proof {
                    assert(task_outcome_post(*old(self), *final(self), k, r));
                    assert forall|k2: DiceKey| k2.index != k.index implies #[trigger] final(self).slot(k2) == old(self).slot(k2) by {
                        assert(final(self).slot(k2) == mid.slot(k2));
                        assert(mid.slot(k2) == grown.slot(k2));
                        assert(grown.slot(k2) == old(self).slot(k2));
                    }
                }
                r
            },
            TaskSlot::Done(t) => {
                match &t.state {
                    DiceTaskState::Finished(_) => {
                        let val = t.get_finished_value();
                        match val {
                            Some(out) => {
                                self.tasks.set(ki, TaskSlot::Done(t));
                                proof {
                                    assert((k.index as int) < old(self).tasks@.len());
                                    assert(grown.tasks@ == old(self).tasks@);
                                    assert(final(self).tasks@ =~= old(self).tasks@);
                                    assert(forall|k2: DiceKey| #[trigger]
                                        final(self).slot(k2) == old(self).slot(k2));
                                }
                                RequestOutcome::Ready(out)
                            },
                            None => {
                                proof {
                                    assert(false);
                                }
                                RequestOutcome::AlreadyInFlight
                            },
                        }
                    },
                    _ => {
                        // a cancelled task: consult it before recomputing
                        let prev = PreviouslyCancelledTask {
                            termination: TerminationStatus::Cancelled,
                            previous: t,
                        };
                        let ghost mid = *self;
                        let r = self.spawn_for_key(k, Some(prev));
                        proof {
                            assert(task_outcome_post(*old(self), *final(self), k, r));
                            assert forall|k2: DiceKey| k2.index != k.index implies #[trigger] final(self).slot(k2) == old(self).slot(k2) by {
                                assert(final(self).slot(k2) == mid.slot(k2));
                                assert(mid.slot(k2) == grown.slot(k2));
                                assert(grown.slot(k2) == old(self).slot(k2));
                            }
                        }
                        r
                    },
                }
            },
        }
    }
}

/// How many of the first `n` slots hold a live task.
pub open spec fn count_live(s: Seq<TaskSlot>, n: int) -> int
    decreases n,
{
    if n <= 0 {
        0
    } else {
        count_live(s, n - 1) + if s[n - 1] is Live {
            1int
        } else {
            0int
        }
    }
}

impl IncrementalEngine {
    /// Determines whether the recorded dependencies changed between the
    /// versions at which the prior value was verified and this engine's
    /// version: their verified ranges are folded into the running
    /// intersection, earliest first; the first empty intersection ends the
    /// fold with `Changed`, and a cancelled dependency aborts it. Each
    /// dependency is reported as a subrequest of `parent_key`.
    pub fn compute_whether_dependencies_changed(
        &mut self,
        parent_key: ParentKey,
        verified_versions: &VersionRanges,
        deps: Vec<DiceKey>,
        dep_ranges: &Vec<CancellableResult<VersionRanges>>,
    ) -> (r: CancellableResult<DidDepsChange>)
        requires
            old(self).wf(),
            verified_versions.wf(),
            dep_ranges@.len() == deps@.len(),
            forall|i: int|
                0 <= i < dep_ranges@.len() ==> (match #[trigger] dep_ranges@[i] {
                    Ok(rs) => rs.wf(),
                    Err(_) => true,
                }),
        ensures
            final(self).wf(),
            final(self).state == old(self).state,
            final(self).key_index == old(self).key_index,
            final(self).v == old(self).v,
            final(self).version_epoch == old(self).version_epoch,
            final(self).tasks@ == old(self).tasks@,
            final(self).events == old(self).events,
            final(self).activation_tracker == old(self).activation_tracker,
            deps@.len() == 0 ==> r matches Ok(DidDepsChange::NoDeps),
            deps@.len() > 0 ==> !(r matches Ok(DidDepsChange::NoDeps)),
            r matches Ok(DidDepsChange::NoChange(ds)) ==> ds@ == deps@ && all_ok(dep_ranges@)
                && (exists|w: int| common_version(*verified_versions, dep_ranges@, w)),
            r matches Ok(DidDepsChange::Changed) ==> forall|w: int|
                !common_version(*verified_versions, dep_ranges@, w),
            r is Err ==> some_err(dep_ranges@),
            // change detection, both ways: when every dependency reports,
            // the verdict is `Changed` exactly when no verified version
            // survives the intersection
            (deps@.len() > 0 && all_ok(dep_ranges@) && (forall|w: int|
                !common_version(*verified_versions, dep_ranges@, w))) ==> r matches Ok(
                DidDepsChange::Changed,
            ),
            (deps@.len() > 0 && all_ok(dep_ranges@) && (exists|w: int|
                common_version(*verified_versions, dep_ranges@, w))) ==> (r matches Ok(
                DidDepsChange::NoChange(ds),
            ) && ds@ == deps@),
            // the dependencies examined were reported as subrequests, in order
            exists|m: int|
                0 <= m <= deps@.len() && final(self).cycles.events@ == old(self).cycles.events@
                    + #[trigger] subrequest_events(deps@, m),
            r matches Ok(DidDepsChange::NoDeps) ==> final(self).cycles == old(self).cycles,
            r matches Ok(DidDepsChange::NoChange(_ds)) ==> final(self).cycles.events@ == old(self).cycles.events@ + subrequest_events(deps@, deps@.len() as int),
    {
        let n = deps.len();
        if n == 0 {
            proof {
                assert(self.cycles.events@ =~= old(self).cycles.events@ + subrequest_events(
                    deps@,
                    0,
                ));
            }
            return Ok(DidDepsChange::NoDeps);
        }
        let mut running: VersionRanges = verified_versions.dupe();
        proof {
            assert(self.cycles.events@ =~= old(self).cycles.events@ + subrequest_events(deps@, 0));
        }
        let mut i: usize = 0;
        while i < n
            invariant
                verified_versions.wf(),
                running.wf(),
                n == deps@.len(),
                n > 0,
                dep_ranges@.len() == n,
                forall|l: int|
                    0 <= l < dep_ranges@.len() ==> (match #[trigger] dep_ranges@[l] {
                        Ok(rs) => rs.wf(),
                        Err(_) => true,
                    }),
                0 <= i <= n,
                forall|l: int| 0 <= l < i ==> (#[trigger] dep_ranges@[l]) is Ok,
                forall|w: int|
                    #[trigger] running.contains(w) <==> common_version_upto(
                        *verified_versions,
                        dep_ranges@,
                        i as int,
                        w,
                    ),
                i > 0 ==> exists|w: int| #[trigger] running.contains(w),
                self.cycles.events@ == old(self).cycles.events@ + subrequest_events(
                    deps@,
                    i as int,
                ),
                self.wf(),
                self.state == old(self).state,
                self.key_index == old(self).key_index,
                self.v == old(self).v,
                self.version_epoch == old(self).version_epoch,
                self.tasks@ == old(self).tasks@,
                self.events == old(self).events,
                self.activation_tracker == old(self).activation_tracker,
            decreases n - i,
        {
            self.cycles.subrequest(deps[i]);
            proof {
                assert(self.cycles.events@ =~= old(self).cycles.events@ + subrequest_events(
                    deps@,
                    i + 1,
                ));
            }
            match &dep_ranges[i] {
                Ok(rs) => {
                    let next = running.intersect(rs);
                    proof {
                        assert forall|w: int| #[trigger]
                            next.contains(w) == common_version_upto(
                            *verified_versions,
                            dep_ranges@,
                            i + 1,
                            w,
                        ) by {
                            assert(next.contains(w) <==> running.contains(w) && rs.contains(w));
                            if next.contains(w) {
                                assert forall|l: int| 0 <= l < i + 1 implies (match #[trigger]
                                    dep_ranges@[l] {
                                    Ok(rl) => rl.contains(w),
                                    Err(_) => true,
                                }) by {
                                    if l == i {
                                        assert(dep_ranges@[l] matches Ok(rl) && rl == *rs);
                                    }
                                }
                            }
                            if common_version_upto(*verified_versions, dep_ranges@, i + 1, w) {
                                assert(match dep_ranges@[i as int] {
                                    Ok(rl) => rl.contains(w),
                                    Err(_) => true,
                                });
                                assert(common_version_upto(
                                    *verified_versions,
                                    dep_ranges@,
                                    i as int,
                                    w,
                                ));
                            }
                        }
                    }
                    running = next;
                    if running.is_empty() {
                        proof {
                            assert forall|w: int| !common_version(
                                *verified_versions,
                                dep_ranges@,
                                w,
                            ) by {
                                if common_version(*verified_versions, dep_ranges@, w) {
                                    assert(common_version_upto(
                                        *verified_versions,
                                        dep_ranges@,
                                        i + 1,
                                        w,
                                    ));
                                    assert(running.contains(w));
                                }
                            }
                        }
                        return Ok(DidDepsChange::Changed);
                    }
                },
                Err(_) => {
                    proof {
                        assert((dep_ranges@[i as int]) is Err);
                        assert(some_err(dep_ranges@));
                    }
                    return Err(Cancelled);
                },
            }
            i += 1;
        }
        proof {
            assert(all_ok(dep_ranges@));
            let w = choose|w: int| #[trigger] running.contains(w);
            assert(common_version_upto(*verified_versions, dep_ranges@, n as int, w));
            assert(common_version(*verified_versions, dep_ranges@, w));
        }
        Ok(DidDepsChange::NoChange(deps))
    }

    /// Commits the outcome of one user evaluation of `k`, atomically with
    /// respect to cancellation: before touching the store the commit path
    /// must win the disable-cancellation race; when it loses — or the
    /// evaluation itself was cancelled — nothing is written, the store is
    /// exactly as the evaluation left it, and the task resolves cancelled.
    /// A transient value also bypasses the store: it is returned verified
    /// at this version alone and never cached. A commit carrying a stale
    /// version epoch is dropped by the state owner.
    pub fn compute(
        &mut self,
        k: DiceKey,
        task: DiceTask,
        eval_result: CancellableResult<EvaluationResult>,
    ) -> (r: CancellableResult<DiceComputedValue>)
        requires
            old(self).wf(),
            task.state is Computing,
            k.index < old(self).key_index.keys@.len(),
            match eval_result {
                Ok(res) => forall|l: int|
                    0 <= l < res.deps@.len() ==> (#[trigger] res.deps@[l]).index < old(self).key_index.keys@.len(),
                Err(_) => true,
            },
        ensures
            final(self).wf(),
            final(self).key_index == old(self).key_index,
            final(self).v == old(self).v,
            final(self).version_epoch == old(self).version_epoch,
            final(self).cycles == old(self).cycles,
            final(self).events.events@ == old(self).events.events@.push(
                DiceEvent::Finished { k },
            ),
            forall|k2: DiceKey|
                k2.index != k.index ==> #[trigger] final(self).slot(k2) == old(self).slot(k2),
            // cancellation safety: a task that loses the race commits nothing
            r is Err <==> (eval_result is Err || task.cancellation.status is Requested || (
            eval_result matches Ok(res2) && res2.value.valid && old(self).version_epoch != old(self).state.version_epoch)),
            r is Err ==> final(self).state == old(self).state && (final(self).slot(k) matches
                TaskSlot::Done(t) && t.state is Cancelled),
            (eval_result is Err || task.cancellation.status is Requested) ==> final(self).activation_tracker == old(self).activation_tracker,
            // once the guard is won the activation is reported, even when a
            // stale epoch then drops the commit itself
            eval_result matches Ok(res3) ==> !(task.cancellation.status is Requested)
                ==> activation_reported(
                old(self).key_index,
                old(self).activation_tracker,
                final(self).activation_tracker,
                k,
                res3.deps@,
                res3.evaluation_data,
            ),
            match r {
                Ok(cv) => match eval_result {
                    Ok(res) => {
                        &&& !(task.cancellation.status is Requested)
                        &&& res.value.valid ==> update_post(
                            old(self).state.graph,
                            final(self).state.graph,
                            VersionedGraphKey { v: old(self).v, k },
                            res.value.value,
                            res.deps@,
                            res.storage,
                            cv,
                        )
                        &&& !res.value.valid ==> final(self).state == old(self).state && cv.value
                            == (MaybeValidDiceValue { value: res.value.value, valid: false }) && (
                        forall|w: int|
                            #[trigger] cv.history.verified_at(w) <==> old(self).v.0 <= w)
                        &&& final(self).slot(k) matches TaskSlot::Done(t) && t.state matches
                            DiceTaskState::Finished(u) && same_computed(u, cv)
                    },
                    Err(_) => false,
                },
                Err(_) => true,
            },
    {
        self.ensure_slot(k);
        let ki = k.index as usize;
        let ghost grown = *self;
        let mut task = task;
        match eval_result {
            Err(_) => {
                self.events.finished(k);
                task.report_cancelled();
                self.tasks.set(ki, TaskSlot::Done(task));
                proof {
                    assert(final(self).wf());
                    assert forall|k2: DiceKey| k2.index != k.index implies #[trigger] final(self).slot(k2) == old(self).slot(k2) by {
                        assert(final(self).slot(k2) == grown.slot(k2));
                        assert(grown.slot(k2) == old(self).slot(k2));
                    }
                }
                Err(Cancelled)
            },
            Ok(res) => {
                match task.cancellation.try_to_disable_cancellation() {
                    None => {
                        // cancellation already happened: abandon the commit
                        self.events.finished(k);
                        task.report_cancelled();
                        self.tasks.set(ki, TaskSlot::Done(task));
                        proof {
                            assert(final(self).wf());
                            assert forall|k2: DiceKey| k2.index != k.index implies #[trigger] final(self).slot(k2) == old(self).slot(k2) by {
                                assert(final(self).slot(k2) == grown.slot(k2));
                                assert(grown.slot(k2) == old(self).slot(k2));
                            }
                        }
                        Err(Cancelled)
                    },
                    Some(_guard) => {
                        report_key_activation(
                            &self.key_index,
                            &mut self.activation_tracker,
                            k,
                            &res.deps,
                            res.evaluation_data,
                        );
                        match res.value.into_valid_value() {
                            Ok(value) => {
                                let key = VersionedGraphKey::new(self.v, k);
                                let resp = self.state.process(
                                    StateRequest::UpdateComputed {
                                        key,
                                        epoch: self.version_epoch,
                                        storage: res.storage,
                                        value,
                                        deps: res.deps,
                                    },
                                );
                                match resp {
                                    StateResponse::UpdateComputed { result } => match result {
                                        Ok(cv) => {
                                            self.events.finished(k);
                                            let out = cv.dupe();
                                            let ghost gcv = cv;
                                            task.finished(cv);
                                            self.tasks.set(ki, TaskSlot::Done(task));
                                            proof {
                                                crate::history::lemma_history_same(
                                                    out.history,
                                                    gcv.history,
                                                );
                                                assert(final(self).wf());
                                                assert forall|k2: DiceKey|
                                                    k2.index != k.index implies #[trigger] final(self).slot(k2) == old(self).slot(k2) by {
                                                    assert(final(self).slot(k2) == grown.slot(k2));
                                                    assert(grown.slot(k2) == old(self).slot(k2));
                                                }
                                            }
                                            Ok(out)
                                        },
                                        Err(_) => {
                                            // a stale epoch: the commit was dropped
                                            self.events.finished(k);
                                            task.report_cancelled();
                                            self.tasks.set(ki, TaskSlot::Done(task));
                                            proof {
                                                assert(final(self).wf());
                                                assert forall|k2: DiceKey|
                                                    k2.index != k.index implies #[trigger] final(self).slot(k2) == old(self).slot(k2) by {
                                                    assert(final(self).slot(k2) == grown.slot(k2));
                                                    assert(grown.slot(k2) == old(self).slot(k2));
                                                }
                                            }
                                            Err(Cancelled)
                                        },
                                    },
                                    _ => {
                                        proof {
                                            assert(false);
                                        }
                                        Err(Cancelled)
                                    },
                                }
                            },
                            Err(value) => {
                                // transient: surfaced to the caller, never cached
                                self.events.finished(k);
                                let cv = DiceComputedValue::new(
                                    MaybeValidDiceValue::transient(value),
                                    CellHistory::verified(self.v),
                                );
                                let out = cv.dupe();
                                let ghost gcv = cv;
                                task.finished(cv);
                                self.tasks.set(ki, TaskSlot::Done(task));
                                proof {
                                    crate::history::lemma_history_same(out.history, gcv.history);
                                    assert(final(self).wf());
                                    assert forall|k2: DiceKey|
                                        k2.index != k.index implies #[trigger] final(self).slot(
                                        k2,
                                    ) == old(self).slot(k2) by {
                                        assert(final(self).slot(k2) == grown.slot(k2));
                                        assert(grown.slot(k2) == old(self).slot(k2));
                                    }
                                }
                                Ok(out)
                            },
                        }
                    },
                }
            },
        }
    }
}

impl IncrementalEngine {
    /// Resolves a dependency check for `k`: the dependencies' verified
    /// ranges are folded against the mismatch's verified versions. When
    /// nothing changed, the prior value is reused — its history is extended
    /// by a commit and a `Reused` activation is reported; when anything
    /// changed (or there were no dependencies to validate), the task moves
    /// on to computing; a cancelled dependency, or a stale epoch at the
    /// reuse commit, cancels the task with the store left as found.
    pub fn deps_checked(
        &mut self,
        k: DiceKey,
        task: DiceTask,
        mismatch: VersionedGraphResultMismatch,
        dep_ranges: &Vec<CancellableResult<VersionRanges>>,
        storage: StorageType,
    ) -> (r: CancellableResult<RequestOutcome>)
        requires
            old(self).wf(),
            task.state is CheckingDeps,
            k.index < old(self).key_index.keys@.len(),
            forall|l: int|
                0 <= l < mismatch.deps_to_validate@.len() ==> (
                #[trigger] mismatch.deps_to_validate@[l]).index < old(self).key_index.keys@.len(),
            mismatch.verified_versions.wf(),
            dep_ranges@.len() == mismatch.deps_to_validate@.len(),
            forall|i: int|
                0 <= i < dep_ranges@.len() ==> (match #[trigger] dep_ranges@[i] {
                    Ok(rs) => rs.wf(),
                    Err(_) => true,
                }),
        ensures
            final(self).wf(),
            final(self).key_index == old(self).key_index,
            final(self).v == old(self).v,
            final(self).version_epoch == old(self).version_epoch,
            forall|k2: DiceKey|
                k2.index != k.index ==> #[trigger] final(self).slot(k2) == old(self).slot(k2),
            match r {
                Err(_) => {
                    &&& final(self).state == old(self).state
                    &&& (final(self).slot(k) matches TaskSlot::Done(t) && t.state is Cancelled)
                    &&& final(self).events.events@ == old(self).events.events@.push(
                        DiceEvent::CheckDepsFinished { k },
                    )
                    &&& (some_err(dep_ranges@) || old(self).version_epoch != old(self).state.version_epoch)
                    &&& ((exists|m: int|
                        0 <= m <= mismatch.deps_to_validate@.len() && final(self).cycles.events@
                            == old(self).cycles.events@ + #[trigger] subrequest_events(
                            mismatch.deps_to_validate@,
                            m,
                        )) || final(self).cycles.events@ == old(self).cycles.events@
                        + subrequest_events(
                        mismatch.deps_to_validate@,
                        mismatch.deps_to_validate@.len() as int,
                    ) + seq![CycleEvent::FinishedComputing { k }])
                    &&& (final(self).activation_tracker == old(self).activation_tracker
                        || activation_reported(
                        old(self).key_index,
                        old(self).activation_tracker,
                        final(self).activation_tracker,
                        k,
                        mismatch.deps_to_validate@,
                        ActivationData::Reused,
                    ))
                },
                Ok(RequestOutcome::MustCompute(t)) => {
                    // something changed, or there was nothing to validate
                    &&& (mismatch.deps_to_validate@.len() == 0 || (forall|w: int|
                        !common_version(mismatch.verified_versions, dep_ranges@, w)))
                    &&& t.state is Computing
                    &&& t.cancellation == task.cancellation
                    &&& final(self).state == old(self).state
                    &&& final(self).slot(k) is Live
                    &&& final(self).events.events@ == old(self).events.events@.push(
                        DiceEvent::CheckDepsFinished { k },
                    ).push(DiceEvent::Started { k })
                    &&& final(self).activation_tracker == old(self).activation_tracker
                    &&& exists|m: int|
                        0 <= m <= mismatch.deps_to_validate@.len() && final(self).cycles.events@
                            == old(self).cycles.events@ + #[trigger] subrequest_events(
                            mismatch.deps_to_validate@,
                            m,
                        )
                },
                Ok(RequestOutcome::Ready(cv)) => {
                    // every dependency revalidated: reuse, extending history
                    &&& mismatch.deps_to_validate@.len() > 0
                    &&& all_ok(dep_ranges@)
                    &&& exists|w: int|
                        common_version(mismatch.verified_versions, dep_ranges@, w)
                    &&& update_post(
                        old(self).state.graph,
                        final(self).state.graph,
                        VersionedGraphKey { v: old(self).v, k },
                        mismatch.entry,
                        mismatch.deps_to_validate@,
                        storage,
                        cv,
                    )
                    &&& activation_reported(
                        old(self).key_index,
                        old(self).activation_tracker,
                        final(self).activation_tracker,
                        k,
                        mismatch.deps_to_validate@,
                        ActivationData::Reused,
                    )
                    &&& final(self).events.events@ == old(self).events.events@.push(
                        DiceEvent::CheckDepsFinished { k },
                    )
                    &&& (final(self).slot(k) matches TaskSlot::Done(t) && t.state matches
                        DiceTaskState::Finished(u) && same_computed(u, cv))
                    &&& final(self).cycles.events@ == old(self).cycles.events@
                        + subrequest_events(
                        mismatch.deps_to_validate@,
                        mismatch.deps_to_validate@.len() as int,
                    ) + seq![CycleEvent::FinishedComputing { k }]
                },
                Ok(_) => false,
            },
    {
        self.ensure_slot(k);
        let ki = k.index as usize;
        let ghost grown = *self;
        let mut task = task;
        let deps = crate::key::copy_keys(&mismatch.deps_to_validate);
        let verdict = self.compute_whether_dependencies_changed(
            ParentKey::Of(k),
            &mismatch.verified_versions,
            deps,
            dep_ranges,
        );
        match verdict {
            Err(_) => {
                self.events.check_deps_finished(k);
                task.report_cancelled();
                self.tasks.set(ki, TaskSlot::Done(task));
                proof {
                    assert(final(self).wf());
                    assert forall|k2: DiceKey| k2.index != k.index implies #[trigger] final(self).slot(k2) == old(self).slot(k2) by {
                        assert(final(self).slot(k2) == grown.slot(k2));
                        assert(grown.slot(k2) == old(self).slot(k2));
                    }
                }
                Err(Cancelled)
            },
            Ok(DidDepsChange::NoChange(deps2)) => {
                self.events.check_deps_finished(k);
                self.cycles.finished_computing_key(k);
                report_key_activation(
                    &self.key_index,
                    &mut self.activation_tracker,
                    k,
                    &deps2,
                    ActivationData::Reused,
                );
                let key = VersionedGraphKey::new(self.v, k);
                let resp = self.state.process(
                    StateRequest::UpdateComputed {
                        key,
                        epoch: self.version_epoch,
                        storage,
                        value: mismatch.entry,
                        deps: deps2,
                    },
                );
                match resp {
                    StateResponse::UpdateComputed { result } => match result {
                        Ok(cv) => {
                            let out = cv.dupe();
                            let ghost gcv = cv;
                            task.finished(cv);
                            self.tasks.set(ki, TaskSlot::Done(task));
                            proof {
                                crate::history::lemma_history_same(out.history, gcv.history);
                                assert(final(self).wf());
                                assert forall|k2: DiceKey|
                                    k2.index != k.index implies #[trigger] final(self).slot(k2)
                                    == old(self).slot(k2) by {
                                    assert(final(self).slot(k2) == grown.slot(k2));
                                    assert(grown.slot(k2) == old(self).slot(k2));
                                }
                            }
                            Ok(RequestOutcome::Ready(out))
                        },
                        Err(_) => {
                            // a stale epoch: the reuse commit was dropped
                            task.report_cancelled();
                            self.tasks.set(ki, TaskSlot::Done(task));
                            proof {
                                assert(final(self).wf());
                                assert forall|k2: DiceKey|
                                    k2.index != k.index implies #[trigger] final(self).slot(k2)
                                    == old(self).slot(k2) by {
                                    assert(final(self).slot(k2) == grown.slot(k2));
                                    assert(grown.slot(k2) == old(self).slot(k2));
                                }
                            }
                            Err(Cancelled)
                        },
                    },
                    _ => {
                        proof {
                            assert(false);
                        }
                        Err(Cancelled)
                    },
                }
            },
            _ => {
                // changed, or no deps: compute afresh
                self.events.check_deps_finished(k);
                task.computing();
                self.events.started(k);
                self.tasks.set(ki, TaskSlot::Live);
                proof {
                    assert(final(self).wf());
                    assert forall|k2: DiceKey| k2.index != k.index implies #[trigger] final(self).slot(k2) == old(self).slot(k2) by {
                        assert(final(self).slot(k2) == grown.slot(k2));
                        assert(grown.slot(k2) == old(self).slot(k2));
                    }
                }
                Ok(RequestOutcome::MustCompute(task))
            },
        }
    }

    /// Commits one projection outcome: a valid value is sent to the state
    /// owner (fire-and-forget: the canonical reply is not used; a stale
    /// epoch drops the write), a transient value bypasses the store
    /// untouched. The returned value is the evaluator's, verified at this
    /// engine's version.
    pub fn complete_projection(&mut self, k: DiceKey, res: EvaluationResult) -> (cv:
        DiceComputedValue)
        requires
            old(self).wf(),
        ensures
            final(self).wf(),
            projection_commit_post(*old(self), *final(self), k, res, cv),
            final(self).key_index == old(self).key_index,
            final(self).v == old(self).v,
            final(self).version_epoch == old(self).version_epoch,
            final(self).tasks@ == old(self).tasks@,
            final(self).events == old(self).events,
            final(self).activation_tracker == old(self).activation_tracker,
            final(self).cycles == old(self).cycles,
    {
        match res.value.into_valid_value() {
            Ok(value) => {
                // send the update; do not wait for the reply
                let key = VersionedGraphKey::new(self.v, k);
                let resp = self.state.process(
                    StateRequest::UpdateComputed {
                        key,
                        epoch: self.version_epoch,
                        storage: res.storage,
                        value,
                        deps: copy_keys(&res.deps),
                    },
                );
                match resp {
                    StateResponse::UpdateComputed { result } => match result {
                        Ok(committed) => {
                            proof {
                                assert(update_post(
                                    old(self).state.graph,
                                    self.state.graph,
                                    key,
                                    res.value.value,
                                    res.deps@,
                                    res.storage,
                                    committed,
                                ));
                            }
                        },
                        Err(_) => {},
                    },
                    _ => {
                        proof {
                            assert(false);
                        }
                    },
                }
            },
            Err(_) => {},
        }
        let cv = DiceComputedValue::new(res.value, CellHistory::verified(self.v));
        cv
    }

    /// The synchronous projection path: the first caller for the key runs
    /// the sync evaluator and completes the key's promise through
    /// `complete_projection`; every later caller observes the stored result
    /// and the evaluator does not run again.
    pub fn project_for_key<S: SyncEvaluator>(&mut self, k: DiceKey, eval: &S) -> (r:
        CancellableResult<DiceComputedValue>)
        requires
            old(self).wf(),
        ensures
            final(self).wf(),
            final(self).key_index == old(self).key_index,
            final(self).v == old(self).v,
            final(self).version_epoch == old(self).version_epoch,
            final(self).cycles == old(self).cycles,
            final(self).activation_tracker == old(self).activation_tracker,
            forall|k2: DiceKey|
                k2.index != k.index ==> #[trigger] final(self).slot(k2) == old(self).slot(k2),
            // projection idempotence: a completed promise is observed as-is
            old(self).slot(k) matches TaskSlot::Done(t) ==> t.state matches
                DiceTaskState::Finished(u) ==> r matches Ok(cv) && same_computed(cv, u)
                && unchanged_engine(*old(self), *final(self)),
            // the completing call returns the evaluator's result and changes
            // the store exactly as committing that result does
            !finished_slot(*old(self), k) ==> r is Ok,
            !finished_slot(*old(self), k) ==> (r matches Ok(cv) ==> projection_completed(
                *old(self),
                *final(self),
                k,
                cv,
            )),
            !finished_slot(*old(self), k) ==> (r matches Ok(cv) ==> (final(self).slot(k) matches
                TaskSlot::Done(t2) && t2.state matches DiceTaskState::Finished(u2)
                && same_computed(u2, cv))),
            !finished_slot(*old(self), k) ==> final(self).events.events@ == old(self).events.events@.push(DiceEvent::Started { k }).push(DiceEvent::Finished { k }),
    {
        self.ensure_slot(k);
        let ki = k.index as usize;
        let ghost grown = *self;
        let mut slot = TaskSlot::Vacant;
        self.tasks.set_and_swap(ki, &mut slot);
        proof {
            assert(slot == grown.slot(k));
            assert(grown.slot(k) == old(self).slot(k));
        }
        let already = match &slot {
            TaskSlot::Done(t) => t.get_finished_value(),
            _ => None,
        };
        match already {
            Some(out) => {
                self.tasks.set(ki, slot);
                proof {
                    assert((k.index as int) < old(self).tasks@.len());
                    assert(grown.tasks@ == old(self).tasks@);
                    assert(final(self).tasks@ =~= old(self).tasks@);
                    assert(forall|k2: DiceKey| #[trigger]
                        final(self).slot(k2) == old(self).slot(k2));
                }
                Ok(out)
            },
            None => {
                // this caller completes the promise
                self.events.started(k);
                let res = eval.evaluate(k);
                let ghost gres = res;
                let ghost pre_commit = *self;
                let cv = self.complete_projection(k, res);
                let ghost post_commit = *self;
                self.events.finished(k);
                let out = cv.dupe();
                let ghost gcv = cv;
                let mut t = DiceTask::new();
                t.finished(cv);
                self.tasks.set(ki, TaskSlot::Done(t));
                proof {
                    crate::history::lemma_history_same(out.history, gcv.history);
                    assert(out.value == gres.value);
                    assert(out.history.wf());
                    assert(forall|w: int|
                        #[trigger] out.history.verified_at(w) <==> old(self).v.0 <= w);
                    assert(projection_commit_post(pre_commit, post_commit, k, gres, gcv));
                    assert(old(self).state == pre_commit.state);
                    assert(final(self).state == post_commit.state);
                    if gres.value.valid && old(self).version_epoch == old(self).state.version_epoch {
                        let u = choose|u: DiceComputedValue|
                            #[trigger] update_post(
                                pre_commit.state.graph,
                                post_commit.state.graph,
                                VersionedGraphKey { v: pre_commit.v, k },
                                gres.value.value,
                                gres.deps@,
                                gres.storage,
                                u,
                            );
                        assert(update_post(
                            old(self).state.graph,
                            final(self).state.graph,
                            VersionedGraphKey { v: old(self).v, k },
                            gres.value.value,
                            gres.deps@,
                            gres.storage,
                            u,
                        ));
                    }
                    assert(projection_commit_post(*old(self), *final(self), k, gres, out));
                    assert(projection_completed(*old(self), *final(self), k, out));
                    assert(final(self).wf());
                    assert forall|k2: DiceKey| k2.index != k.index implies #[trigger] final(self).slot(k2) == old(self).slot(k2) by {
                        assert(final(self).slot(k2) == grown.slot(k2));
                        assert(grown.slot(k2) == old(self).slot(k2));
                    }
                }
                Ok(out)
            },
        }
    }

    /// The number of keys this engine's store holds, for introspection.
    pub fn len_for_introspection(&self) -> (r: usize)
        ensures
            r == crate::graph::count_nonempty(
                self.state.graph.nodes@,
                self.state.graph.nodes@.len() as int,
            ),
    {
        self.state.graph.key_count()
    }

    /// The number of keys whose computation is in flight right now.
    pub fn currently_running_key_count(&self) -> (r: usize)
        ensures
            r == count_live(self.tasks@, self.tasks@.len() as int),
    {
        let n = self.tasks.len();
        let mut cnt: usize = 0;
        let mut i: usize = 0;
        while i < n
            invariant
                n == self.tasks@.len(),
                0 <= i <= n,
                cnt <= i,
                cnt == count_live(self.tasks@, i as int),
            decreases n - i,
        {
            let live = match &self.tasks[i] {
                TaskSlot::Live => true,
                _ => false,
            };
            if live {
                cnt += 1;
            }
            i += 1;
        }
        cnt
    }
}

} // verus!
