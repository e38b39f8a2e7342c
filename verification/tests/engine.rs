//! Scenario tests: a small driver runs the engine's protocol loop the way
//! an executor would, with a table-driven evaluator.

use std::cell::Cell;
use std::cell::RefCell;

use dice::core_state::CoreState;
use dice::core_state::StateRequest;
use dice::evaluator::AsyncEvaluator;
use dice::evaluator::EvalStep;
use dice::evaluator::EvaluationResult;
use dice::evaluator::RecordedDeps;
use dice::events::ActivationData;
use dice::events::ActivationTracker;
use dice::events::DiceEvent;
use dice::graph::StorageType;
use dice::history::CellHistory;
use dice::incremental::IncrementalEngine;
use dice::incremental::RequestOutcome;
use dice::key::DiceKey;
use dice::key::DiceKeyIndex;
use dice::key::UserKey;
use dice::task::CancellableResult;
use dice::task::Cancelled;
use dice::task::DiceTask;
use dice::task::PreviouslyCancelledTask;
use dice::task::TerminationStatus;
use dice::value::DiceComputedValue;
use dice::value::DiceValue;
use dice::value::MaybeValidDiceValue;
use dice::versions::VersionEpoch;
use dice::versions::VersionNumber;

/// A table-driven evaluator: each key has a dependency list and a base
/// value; a key's value is its base plus the sum of its dependencies'
/// values. It counts how many evaluations of each key began, can mark one
/// key's result transient, and can request cancellation once, mid-evaluate.
struct TestEval {
    deps: Vec<Vec<DiceKey>>,
    base: RefCell<Vec<u64>>,
    starts: RefCell<Vec<u64>>,
    storage: StorageType,
    transient_key: Option<u32>,
    cancel_once: Cell<Option<u32>>,
}

impl TestEval {
    fn new(deps: Vec<Vec<DiceKey>>, base: Vec<u64>, storage: StorageType) -> TestEval {
        let n = deps.len();
        TestEval {
            deps,
            base: RefCell::new(base),
            starts: RefCell::new(vec![0; n]),
            storage,
            transient_key: None,
            cancel_once: Cell::new(None),
        }
    }

    fn starts_of(&self, k: DiceKey) -> u64 {
        self.starts.borrow()[k.index as usize]
    }

    fn set_base(&self, k: DiceKey, b: u64) {
        self.base.borrow_mut()[k.index as usize] = b;
    }
}

impl AsyncEvaluator for TestEval {
    fn evaluate_step(
        &self,
        key: DiceKey,
        fetched: &Vec<(DiceKey, MaybeValidDiceValue)>,
        cancellations: &mut dice::task::CancellationContext,
    ) -> CancellableResult<EvalStep> {
        let ki = key.index as usize;
        if fetched.is_empty() {
            self.starts.borrow_mut()[ki] += 1;
            if self.cancel_once.get() == Some(key.index) {
                self.cancel_once.set(None);
                cancellations.request_cancellation();
            }
        }
        let deps = &self.deps[ki];
        if fetched.len() < deps.len() {
            return Ok(EvalStep::Request(deps[fetched.len()]));
        }
        let mut total: u64 = self.base.borrow()[ki];
        for (_, v) in fetched.iter() {
            total += v.value.data;
        }
        let value = if self.transient_key == Some(key.index) {
            MaybeValidDiceValue::transient(DiceValue { data: total })
        } else {
            MaybeValidDiceValue::valid(DiceValue { data: total })
        };
        Ok(EvalStep::Finished(EvaluationResult {
            value,
            deps: Vec::new(),
            storage: self.storage,
            evaluation_data: ActivationData::Computed,
        }))
    }

    fn storage_type(&self, _key: DiceKey) -> StorageType {
        self.storage
    }
}

/// Runs one evaluation of `k` to completion: steps the evaluator,
/// computing each requested dependency through the engine, then hands the
/// outcome to the engine's commit path.
fn run_compute(
    engine: &mut IncrementalEngine,
    eval: &TestEval,
    k: DiceKey,
    mut task: DiceTask,
) -> Result<DiceComputedValue, Cancelled> {
    let mut fetched: Vec<(DiceKey, MaybeValidDiceValue)> = Vec::new();
    let mut recorded = RecordedDeps::new();
    loop {
        match eval.evaluate_step(k, &fetched, &mut task.cancellation) {
            Err(c) => return engine.compute(k, task, Err(c)),
            Ok(EvalStep::Request(d)) => {
                recorded.record(d);
                match drive(engine, eval, d) {
                    Ok(cv) => fetched.push((d, cv.value)),
                    Err(_) => return engine.compute(k, task, Err(Cancelled)),
                }
            }
            Ok(EvalStep::Finished(mut res)) => {
                res.deps = recorded.into_deps();
                return engine.compute(k, task, Ok(res));
            }
        }
    }
}

/// The protocol loop around the engine, as an executor would run it.
fn drive(
    engine: &mut IncrementalEngine,
    eval: &TestEval,
    k: DiceKey,
) -> Result<DiceComputedValue, Cancelled> {
    match engine.request(k) {
        RequestOutcome::Ready(cv) => Ok(cv),
        RequestOutcome::AlreadyInFlight => panic!("requested a key already in flight"),
        RequestOutcome::MustCompute(task) => run_compute(engine, eval, k, task),
        RequestOutcome::MustCheckDeps(task, mismatch) => {
            let mut ranges = Vec::new();
            for d in mismatch.deps_to_validate.iter() {
                // `deps_checked` demands interned keys, like the activation path
                assert!(
                    (d.index as usize) < engine.key_index.key_count(),
                    "a stored dependency was never interned"
                );
                match drive(engine, eval, *d) {
                    Ok(cv) => ranges.push(Ok(cv.history.get_verified_ranges())),
                    Err(c) => ranges.push(Err(c)),
                }
            }
            let storage = eval.storage_type(k);
            match engine.deps_checked(k, task, mismatch, &ranges, storage) {
                Ok(RequestOutcome::Ready(cv)) => Ok(cv),
                Ok(RequestOutcome::MustCompute(task)) => run_compute(engine, eval, k, task),
                Ok(_) => panic!("unexpected outcome after checking deps"),
                Err(c) => Err(c),
            }
        }
    }
}

/// An engine over three interned keys `a -> b -> c`, at the given version.
fn engine_abc(v: u64) -> (IncrementalEngine, DiceKey, DiceKey, DiceKey) {
    let mut key_index = DiceKeyIndex::new();
    let a = key_index.index(UserKey { kind: 1, payload: 0 });
    let b = key_index.index(UserKey { kind: 1, payload: 1 });
    let c = key_index.index(UserKey { kind: 1, payload: 2 });
    let state = CoreState::new(VersionEpoch(0));
    let engine = IncrementalEngine::new(
        state,
        key_index,
        VersionNumber::new(v),
        VersionEpoch(0),
        ActivationTracker::new(true),
    );
    (engine, a, b, c)
}

fn eval_abc(b: DiceKey, c: DiceKey, storage: StorageType) -> TestEval {
    TestEval::new(vec![vec![b], vec![c], vec![]], vec![100, 20, 3], storage)
}

fn next_version(engine: IncrementalEngine, v: u64) -> IncrementalEngine {
    let (state, key_index, tracker) = engine.into_parts();
    IncrementalEngine::new(state, key_index, VersionNumber::new(v), VersionEpoch(0), tracker)
}

fn started_keys(engine: &IncrementalEngine) -> Vec<u32> {
    engine
        .events
        .events
        .iter()
        .filter_map(|e| match e {
            DiceEvent::Started { k } => Some(k.index),
            _ => None,
        })
        .collect()
}

#[test]
fn cold_compute() {
    let (mut engine, a, b, c) = engine_abc(1);
    let eval = eval_abc(b, c, StorageType::Normal);
    let cv = drive(&mut engine, &eval, a).unwrap();
    // c = 3, b = 20 + 3, a = 100 + 23
    assert_eq!(cv.value.value.data, 123);
    assert!(cv.value.valid);
    assert_eq!(eval.starts_of(a), 1);
    assert_eq!(eval.starts_of(b), 1);
    assert_eq!(eval.starts_of(c), 1);
    // evaluations began in first-touch order: a, then b, then c
    assert_eq!(started_keys(&engine), vec![a.index, b.index, c.index]);
    // each key holds one entry, verified at 1, with the right deps
    for (k, deps) in [(a, vec![b]), (b, vec![c]), (c, vec![])] {
        let entries = &engine.state.graph.nodes[k.index as usize];
        assert_eq!(entries.len(), 1);
        assert!(entries[0].history.is_verified_at(VersionNumber(1)));
        assert_eq!(entries[0].deps, deps);
        assert_eq!(entries[0].history.verified, vec![VersionNumber(1)]);
    }
}

#[test]
fn unchanged_recompute() {
    let (mut engine, a, b, c) = engine_abc(1);
    let eval = eval_abc(b, c, StorageType::Normal);
    drive(&mut engine, &eval, a).unwrap();
    let mut engine = next_version(engine, 2);
    let cv = drive(&mut engine, &eval, a).unwrap();
    assert_eq!(cv.value.value.data, 123);
    // nothing was dirtied: zero evaluator calls, histories cover [1, 2]
    assert_eq!(eval.starts_of(a), 1);
    assert_eq!(eval.starts_of(b), 1);
    assert_eq!(eval.starts_of(c), 1);
    // the hit produced no evaluation or revalidation events at all
    assert!(engine.events.events.is_empty());
    for k in [a, b, c] {
        let entry = &engine.state.graph.nodes[k.index as usize][0];
        assert!(entry.history.is_verified_at(VersionNumber(1)));
        assert!(entry.history.is_verified_at(VersionNumber(2)));
    }
}

#[test]
fn partial_dirty() {
    let (mut engine, a, b, c) = engine_abc(1);
    let eval = eval_abc(b, c, StorageType::Normal);
    drive(&mut engine, &eval, a).unwrap();
    let (mut state, key_index, tracker) = engine.into_parts();
    // the transaction layer dirties the changed key and its dependents
    for k in [c, b, a] {
        state.process(StateRequest::DirtyKey { k, v: VersionNumber(2), force: false });
    }
    let mut engine =
        IncrementalEngine::new(state, key_index, VersionNumber::new(2), VersionEpoch(0), tracker);
    let cv = drive(&mut engine, &eval, a).unwrap();
    assert_eq!(cv.value.value.data, 123);
    // c re-evaluated to an equal value; b and a revalidated, not re-evaluated
    assert_eq!(eval.starts_of(c), 2);
    assert_eq!(eval.starts_of(b), 1);
    assert_eq!(eval.starts_of(a), 1);
    assert_eq!(started_keys(&engine), vec![c.index]);
    for k in [a, b, c] {
        let entry = &engine.state.graph.nodes[k.index as usize][0];
        assert!(entry.history.is_verified_at(VersionNumber(1)));
        assert!(entry.history.is_verified_at(VersionNumber(2)));
    }
    // the reuses were reported as such
    let reused: Vec<&dice::events::ActivationRecord> = engine
        .activation_tracker
        .activations
        .iter()
        .filter(|r| r.data == ActivationData::Reused)
        .collect();
    assert_eq!(reused.len(), 2);
}

#[test]
fn cascading_change() {
    let (mut engine, a, b, c) = engine_abc(1);
    let eval = eval_abc(b, c, StorageType::Normal);
    drive(&mut engine, &eval, a).unwrap();
    let (mut state, key_index, tracker) = engine.into_parts();
    eval.set_base(c, 4);
    state.process(StateRequest::DirtyKey { k: c, v: VersionNumber(2), force: true });
    for k in [b, a] {
        state.process(StateRequest::DirtyKey { k, v: VersionNumber(2), force: false });
    }
    let mut engine =
        IncrementalEngine::new(state, key_index, VersionNumber::new(2), VersionEpoch(0), tracker);
    let cv = drive(&mut engine, &eval, a).unwrap();
    // everything re-evaluated against the new value of c
    assert_eq!(cv.value.value.data, 124);
    assert_eq!(eval.starts_of(c), 2);
    assert_eq!(eval.starts_of(b), 2);
    assert_eq!(eval.starts_of(a), 2);
    // normal storage replaced the superseded entries
    for k in [a, b, c] {
        let entries = &engine.state.graph.nodes[k.index as usize];
        assert_eq!(entries.len(), 1);
        assert!(entries[0].history.is_verified_at(VersionNumber(2)));
        assert!(!entries[0].history.is_verified_at(VersionNumber(1)));
    }
}

#[test]
fn cascading_change_retained() {
    let (mut engine, a, b, c) = engine_abc(1);
    let eval = eval_abc(b, c, StorageType::Retain);
    drive(&mut engine, &eval, a).unwrap();
    let (mut state, key_index, tracker) = engine.into_parts();
    eval.set_base(c, 4);
    state.process(StateRequest::DirtyKey { k: c, v: VersionNumber(2), force: true });
    for k in [b, a] {
        state.process(StateRequest::DirtyKey { k, v: VersionNumber(2), force: false });
    }
    let mut engine =
        IncrementalEngine::new(state, key_index, VersionNumber::new(2), VersionEpoch(0), tracker);
    let cv = drive(&mut engine, &eval, a).unwrap();
    assert_eq!(cv.value.value.data, 124);
    // retained storage keeps the superseded entries for historical queries
    for (k, old_value) in [(a, 123), (b, 23), (c, 3)] {
        let entries = &engine.state.graph.nodes[k.index as usize];
        assert_eq!(entries.len(), 2);
        assert!(entries[0].history.is_verified_at(VersionNumber(1)));
        assert!(!entries[0].history.is_verified_at(VersionNumber(2)));
        assert_eq!(entries[0].value.data, old_value);
        assert!(entries[1].history.is_verified_at(VersionNumber(2)));
    }
}

#[test]
fn concurrent_dedup() {
    let (mut engine, a, b, c) = engine_abc(1);
    let eval = eval_abc(b, c, StorageType::Normal);
    let mut values: Vec<u64> = Vec::new();
    for _ in 0..100 {
        let cv = drive(&mut engine, &eval, a).unwrap();
        values.push(cv.value.value.data);
    }
    // one evaluator invocation per key in the closure, all values shared
    assert_eq!(eval.starts_of(a), 1);
    assert_eq!(eval.starts_of(b), 1);
    assert_eq!(eval.starts_of(c), 1);
    assert!(values.iter().all(|v| *v == 123));
    assert_eq!(started_keys(&engine), vec![a.index, b.index, c.index]);
}

#[test]
fn cancel_and_revive() {
    let (mut engine, a, b, c) = engine_abc(1);
    let eval = eval_abc(b, c, StorageType::Normal);
    // the evaluation of `a` observes a cancel request mid-evaluate and
    // loses the disable-cancellation race: nothing of `a` is committed
    eval.cancel_once.set(Some(a.index));
    let r = drive(&mut engine, &eval, a);
    assert!(r.is_err());
    assert_eq!(eval.starts_of(a), 1);
    assert_eq!(engine.state.graph.nodes[a.index as usize].len(), 0);
    // a new request consults the cancelled task and runs one fresh evaluation
    let cv = drive(&mut engine, &eval, a).unwrap();
    assert_eq!(cv.value.value.data, 123);
    assert_eq!(eval.starts_of(a), 2);
    // b and c were committed by the first run and are not re-evaluated
    assert_eq!(eval.starts_of(b), 1);
    assert_eq!(eval.starts_of(c), 1);
}

#[test]
fn revive_adopts_finished_value() {
    let (mut engine, a, b, c) = engine_abc(1);
    let eval = eval_abc(b, c, StorageType::Normal);
    // a predecessor task was cancelled after committing: it terminated
    // finished, and the new request adopts its value without evaluating
    let mut previous = DiceTask::new();
    previous.finished(DiceComputedValue::new(
        MaybeValidDiceValue::valid(DiceValue { data: 77 }),
        CellHistory::verified(VersionNumber(1)),
    ));
    let prev = PreviouslyCancelledTask { termination: TerminationStatus::Finished, previous };
    match engine.spawn_for_key(a, Some(prev)) {
        RequestOutcome::Ready(cv) => assert_eq!(cv.value.value.data, 77),
        other => panic!("expected an adopted value, got {:?}", other),
    }
    assert_eq!(eval.starts_of(a), 0);
    // later requesters share the adopted value too
    match engine.request(a) {
        RequestOutcome::Ready(cv) => assert_eq!(cv.value.value.data, 77),
        other => panic!("expected the shared value, got {:?}", other),
    }
    assert_eq!(eval.starts_of(a), 0);
}

#[test]
fn transient_value_not_cached() {
    let (mut engine, a, b, c) = engine_abc(1);
    let mut eval = eval_abc(b, c, StorageType::Normal);
    eval.transient_key = Some(c.index);
    let cv = drive(&mut engine, &eval, c).unwrap();
    assert!(!cv.value.valid);
    assert_eq!(cv.value.value.data, 3);
    // the transient value was surfaced but never committed
    assert_eq!(engine.state.graph.nodes.len(), 0);
    // a fresh transaction evaluates again
    let mut engine = next_version(engine, 2);
    drive(&mut engine, &eval, c).unwrap();
    assert_eq!(eval.starts_of(c), 2);
}

#[test]
fn stale_epoch_commit_dropped() {
    let (mut engine, a, b, c) = engine_abc(1);
    let eval = eval_abc(b, c, StorageType::Normal);
    // the state machine advanced its epoch after this engine was made:
    // the engine's commits are stale and must be dropped
    engine.state.advance_epoch();
    let r = drive(&mut engine, &eval, c);
    assert!(r.is_err());
    assert_eq!(engine.state.graph.nodes.len(), 0);
}
