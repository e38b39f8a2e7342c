//! Tests for the type-id keyed engine registry and the projection path.

use std::cell::Cell;

use dice::core_state::StateRequest;
use dice::evaluator::EvaluationResult;
use dice::evaluator::SyncEvaluator;
use dice::engine_map::DiceMap;
use dice::events::ActivationData;
use dice::events::DiceEvent;
use dice::graph::StorageType;
use dice::graph::VersionedGraphKey;
use dice::incremental::RequestOutcome;
use dice::key::DiceKey;
use dice::key::UserKey;
use dice::value::DiceValue;
use dice::value::MaybeValidDiceValue;
use dice::versions::VersionEpoch;
use dice::versions::VersionNumber;

#[test]
fn test_find_caches() {
    let mut map = DiceMap::new();
    let cache = map.find_cache(7, VersionNumber::new(0), VersionEpoch(0));
    assert_eq!(map.find_cache(7, VersionNumber::new(0), VersionEpoch(0)), cache);
    assert_eq!(map.engines().len(), 1);

    // inject a value for a key, then request it: the cached value is
    // served and no evaluator is ever consulted
    let engine = &mut map.engines[cache];
    let k = engine.key_index.index(UserKey { kind: 7, payload: 0 });
    engine.state.process(StateRequest::UpdateComputed {
        key: VersionedGraphKey::new(VersionNumber::new(0), k),
        epoch: VersionEpoch(0),
        storage: StorageType::Normal,
        value: DiceValue { data: 42 },
        deps: vec![],
    });
    match engine.request(k) {
        RequestOutcome::Ready(cv) => assert_eq!(cv.value.value.data, 42),
        other => panic!("value should be cached, not evaluated: {:?}", other),
    }
}

#[test]
fn registry_introspection_counts() {
    let mut map = DiceMap::new();
    let first = map.find_cache(1, VersionNumber::new(0), VersionEpoch(0));
    let second = map.find_cache(2, VersionNumber::new(0), VersionEpoch(0));
    assert_ne!(first, second);
    assert_eq!(map.key_count(), 0);
    assert_eq!(map.currently_running_key_count(), 0);

    let engine = &mut map.engines[first];
    let k = engine.key_index.index(UserKey { kind: 1, payload: 0 });
    engine.state.process(StateRequest::UpdateComputed {
        key: VersionedGraphKey::new(VersionNumber::new(0), k),
        epoch: VersionEpoch(0),
        storage: StorageType::Normal,
        value: DiceValue { data: 1 },
        deps: vec![],
    });
    assert_eq!(map.key_count(), 1);

    // leave one computation in flight in the second engine
    let engine = &mut map.engines[second];
    let k2 = engine.key_index.index(UserKey { kind: 2, payload: 0 });
    match engine.request(k2) {
        RequestOutcome::MustCompute(_task) => {}
        other => panic!("expected a fresh compute, got {:?}", other),
    }
    // a further requester of the live key attaches instead of spawning
    match engine.request(k2) {
        RequestOutcome::AlreadyInFlight => {}
        other => panic!("expected the in-flight task, got {:?}", other),
    }
    assert_eq!(map.currently_running_key_count(), 1);
}

/// A sync evaluator for projections, counting its invocations.
struct CountingProjection {
    calls: Cell<u64>,
    transient: bool,
}

impl SyncEvaluator for CountingProjection {
    fn evaluate(&self, _key: DiceKey) -> EvaluationResult {
        self.calls.set(self.calls.get() + 1);
        let value = if self.transient {
            MaybeValidDiceValue::transient(DiceValue { data: 5 })
        } else {
            MaybeValidDiceValue::valid(DiceValue { data: 5 })
        };
        EvaluationResult {
            value,
            deps: Vec::new(),
            storage: StorageType::Normal,
            evaluation_data: ActivationData::Computed,
        }
    }
}

#[test]
fn projection_is_idempotent() {
    let mut map = DiceMap::new();
    let cache = map.find_cache(9, VersionNumber::new(1), VersionEpoch(0));
    let engine = &mut map.engines[cache];
    let k = engine.key_index.index(UserKey { kind: 9, payload: 0 });
    let eval = CountingProjection { calls: Cell::new(0), transient: false };

    let first = engine.project_for_key(k, &eval).unwrap();
    let second = engine.project_for_key(k, &eval).unwrap();
    assert_eq!(first.value.value.data, 5);
    assert_eq!(second.value.value.data, 5);
    // the second call observed the completed promise: one evaluation only
    assert_eq!(eval.calls.get(), 1);
    let started: Vec<&DiceEvent> = engine
        .events
        .events
        .iter()
        .filter(|e| matches!(e, DiceEvent::Started { .. }))
        .collect();
    assert_eq!(started.len(), 1);
    // the projection committed its value: a plain request now hits the cache
    match engine.request(k) {
        RequestOutcome::Ready(cv) => assert_eq!(cv.value.value.data, 5),
        other => panic!("expected the cached value, got {:?}", other),
    }
}

#[test]
fn projection_returns_the_evaluated_value() {
    // a completing projection returns exactly what the evaluator produced
    let mut map = DiceMap::new();
    let cache = map.find_cache(9, VersionNumber::new(1), VersionEpoch(0));
    let engine = &mut map.engines[cache];
    let k = engine.key_index.index(UserKey { kind: 9, payload: 1 });
    let eval = CountingProjection { calls: Cell::new(0), transient: false };
    let cv = engine.project_for_key(k, &eval).unwrap();
    assert!(cv.value.valid);
    assert_eq!(cv.value.value.data, 5);
    assert!(cv.history.is_verified_at(VersionNumber(1)));
    assert!(!cv.history.is_verified_at(VersionNumber(0)));
    // the valid value was committed to the store
    assert_eq!(engine.state.graph.nodes[k.index as usize].len(), 1);
    assert_eq!(engine.state.graph.nodes[k.index as usize][0].value.data, 5);
}

#[test]
fn projection_transient_value_not_cached() {
    let mut map = DiceMap::new();
    let cache = map.find_cache(9, VersionNumber::new(1), VersionEpoch(0));
    let engine = &mut map.engines[cache];
    let k = engine.key_index.index(UserKey { kind: 9, payload: 2 });
    let eval = CountingProjection { calls: Cell::new(0), transient: true };
    let cv = engine.project_for_key(k, &eval).unwrap();
    // the transient value is surfaced, verified at this version alone,
    // and never committed
    assert!(!cv.value.valid);
    assert_eq!(cv.value.value.data, 5);
    assert_eq!(engine.state.graph.nodes.len(), 0);
    // awaiters of the same promise still share it
    let again = engine.project_for_key(k, &eval).unwrap();
    assert!(!again.value.valid);
    assert_eq!(eval.calls.get(), 1);
}

#[test]
fn projection_commit_honours_the_epoch_guard() {
    let mut map = DiceMap::new();
    let cache = map.find_cache(3, VersionNumber::new(1), VersionEpoch(0));
    let engine = &mut map.engines[cache];
    let k = engine.key_index.index(UserKey { kind: 3, payload: 0 });
    // the state advanced its epoch: this engine's projection commits are
    // dropped, though the value is still returned
    engine.state.advance_epoch();
    let res = EvaluationResult {
        value: MaybeValidDiceValue::valid(DiceValue { data: 8 }),
        deps: vec![],
        storage: StorageType::Normal,
        evaluation_data: ActivationData::Computed,
    };
    let cv = engine.complete_projection(k, res);
    assert_eq!(cv.value.value.data, 8);
    assert_eq!(engine.state.graph.nodes.len(), 0);
}
