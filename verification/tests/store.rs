//! Unit tests for the version algebra, cell histories, the versioned
//! graph, the state owner, and the small supporting pieces.

use dice::core_state::CoreState;
use dice::core_state::StateRequest;
use dice::core_state::StateResponse;
use dice::evaluator::RecordedDeps;
use dice::graph::StorageType;
use dice::graph::VersionedGraph;
use dice::graph::VersionedGraphKey;
use dice::graph::VersionedGraphResult;
use dice::history::CellHistory;
use dice::key::DiceKey;
use dice::key::DiceKeyIndex;
use dice::key::UserKey;
use dice::task::CancellationContext;
use dice::value::DiceValue;
use dice::versions::VersionEpoch;
use dice::versions::VersionNumber;
use dice::versions::VersionRange;
use dice::versions::VersionRanges;

fn vn(v: u64) -> VersionNumber {
    VersionNumber(v)
}

fn dk(i: u32) -> DiceKey {
    DiceKey { index: i }
}

fn rg(begin: u64, end: Option<u64>) -> VersionRange {
    VersionRange { begin: vn(begin), end: end.map(vn) }
}

#[test]
fn ranges_intersect_membership() {
    let a = VersionRanges::from_vec(vec![rg(1, Some(4)), rg(6, None)]);
    let b = VersionRanges::from_vec(vec![rg(2, Some(7))]);
    let i = a.intersect(&b);
    // expected: [2, 4) and [6, 7)
    assert!(!i.contains_version(vn(1)));
    assert!(i.contains_version(vn(2)));
    assert!(i.contains_version(vn(3)));
    assert!(!i.contains_version(vn(4)));
    assert!(!i.contains_version(vn(5)));
    assert!(i.contains_version(vn(6)));
    assert!(!i.contains_version(vn(7)));
    assert!(!i.is_empty());
}

#[test]
fn ranges_disjoint_intersection_is_empty() {
    let a = VersionRanges::from_vec(vec![rg(1, Some(3))]);
    let b = VersionRanges::from_vec(vec![rg(3, None)]);
    let i = a.intersect(&b);
    assert!(i.is_empty());
    assert!(VersionRanges::new().is_empty());
}

#[test]
fn history_runs_to_the_next_dirtying() {
    let mut h = CellHistory::verified(vn(1));
    h.mark_dirty(vn(3), false);
    h.mark_verified(vn(5));
    // verified on [1, 3) and from 5 on
    assert!(h.is_verified_at(vn(1)));
    assert!(h.is_verified_at(vn(2)));
    assert!(!h.is_verified_at(vn(3)));
    assert!(!h.is_verified_at(vn(4)));
    assert!(h.is_verified_at(vn(5)));
    assert!(h.is_verified_at(vn(100)));
    let r = h.get_verified_ranges();
    assert!(r.contains_version(vn(2)));
    assert!(!r.contains_version(vn(4)));
    assert!(r.contains_version(vn(7)));
}

#[test]
fn history_extends_over_untouched_versions() {
    // verified at 1 with nothing dirtied after: the whole interval holds
    let h = CellHistory::verified(vn(1));
    assert!(h.is_verified_at(vn(1)));
    assert!(h.is_verified_at(vn(2)));
    assert!(h.is_verified_at(vn(1000)));
    assert!(!h.is_verified_at(vn(0)));
}

#[test]
fn history_point_queries() {
    let mut h = CellHistory::verified(vn(2));
    h.mark_verified(vn(8));
    h.mark_dirty(vn(5), true);
    assert_eq!(h.first_dirty_after(vn(2)), Some(vn(5)));
    assert_eq!(h.first_dirty_after(vn(5)), None);
    assert_eq!(h.latest_verified_at_or_before(vn(7)), Some(vn(2)));
    assert_eq!(h.latest_verified_at_or_before(vn(9)), Some(vn(8)));
    assert_eq!(h.latest_verified_at_or_before(vn(1)), None);
    assert!(h.has_force_dirty_in(vn(2), vn(7)));
    assert!(!h.has_force_dirty_in(vn(5), vn(7)));
}

#[test]
fn graph_lookup_serves_three_outcomes() {
    let mut g = VersionedGraph::new();
    let k = dk(0);
    // nothing stored: compute
    assert!(matches!(g.lookup(VersionedGraphKey::new(vn(1), k)), VersionedGraphResult::Compute));
    let r = g.update_computed(
        VersionedGraphKey::new(vn(1), k),
        DiceValue { data: 7 },
        vec![dk(1)],
        StorageType::Normal,
    );
    assert!(r.history.is_verified_at(vn(1)));
    // a verifying history: match
    match g.lookup(VersionedGraphKey::new(vn(1), k)) {
        VersionedGraphResult::Match(cv) => {
            assert_eq!(cv.value.value.data, 7);
            assert!(cv.value.valid);
        }
        other => panic!("expected a match, got {:?}", other),
    }
    // dirtied: the prior entry borders the version, its deps are checked
    g.mark_dirty(k, vn(2), false);
    match g.lookup(VersionedGraphKey::new(vn(2), k)) {
        VersionedGraphResult::CheckDeps(m) => {
            assert_eq!(m.entry.data, 7);
            assert_eq!(m.deps_to_validate, vec![dk(1)]);
            assert!(m.verified_versions.contains_version(vn(1)));
            assert!(!m.verified_versions.contains_version(vn(2)));
        }
        other => panic!("expected a dependency check, got {:?}", other),
    }
    // forced dirtying: compute afresh
    g.mark_dirty(k, vn(3), true);
    assert!(matches!(g.lookup(VersionedGraphKey::new(vn(3), k)), VersionedGraphResult::Compute));
}

#[test]
fn graph_equal_commit_extends_history() {
    let mut g = VersionedGraph::new();
    let k = dk(0);
    g.update_computed(VersionedGraphKey::new(vn(1), k), DiceValue { data: 7 }, vec![], StorageType::Normal);
    g.mark_dirty(k, vn(2), false);
    let r = g.update_computed(
        VersionedGraphKey::new(vn(2), k),
        DiceValue { data: 7 },
        vec![],
        StorageType::Normal,
    );
    // the same value extends the entry instead of inserting a second one
    assert_eq!(g.nodes[0].len(), 1);
    assert!(r.history.is_verified_at(vn(1)));
    assert!(r.history.is_verified_at(vn(2)));
}

#[test]
fn graph_normal_storage_replaces() {
    let mut g = VersionedGraph::new();
    let k = dk(0);
    g.update_computed(VersionedGraphKey::new(vn(1), k), DiceValue { data: 7 }, vec![], StorageType::Normal);
    g.mark_dirty(k, vn(3), false);
    g.update_computed(VersionedGraphKey::new(vn(3), k), DiceValue { data: 9 }, vec![], StorageType::Normal);
    assert_eq!(g.nodes[0].len(), 1);
    match g.lookup(VersionedGraphKey::new(vn(3), k)) {
        VersionedGraphResult::Match(cv) => assert_eq!(cv.value.value.data, 9),
        other => panic!("expected a match, got {:?}", other),
    }
    // the superseded value is gone
    assert!(matches!(g.lookup(VersionedGraphKey::new(vn(1), k)), VersionedGraphResult::Compute));
}

#[test]
fn graph_retain_storage_keeps_old_versions() {
    let mut g = VersionedGraph::new();
    let k = dk(0);
    g.update_computed(VersionedGraphKey::new(vn(1), k), DiceValue { data: 7 }, vec![], StorageType::Retain);
    g.mark_dirty(k, vn(3), false);
    g.update_computed(VersionedGraphKey::new(vn(3), k), DiceValue { data: 9 }, vec![], StorageType::Retain);
    assert_eq!(g.nodes[0].len(), 2);
    match g.lookup(VersionedGraphKey::new(vn(1), k)) {
        VersionedGraphResult::Match(cv) => assert_eq!(cv.value.value.data, 7),
        other => panic!("expected the old value, got {:?}", other),
    }
    match g.lookup(VersionedGraphKey::new(vn(4), k)) {
        VersionedGraphResult::Match(cv) => assert_eq!(cv.value.value.data, 9),
        other => panic!("expected the new value, got {:?}", other),
    }
}

#[test]
fn state_drops_stale_epoch_commits() {
    let mut state = CoreState::new(VersionEpoch(1));
    let req = StateRequest::UpdateComputed {
        key: VersionedGraphKey::new(vn(1), dk(0)),
        epoch: VersionEpoch(0),
        storage: StorageType::Normal,
        value: DiceValue { data: 7 },
        deps: vec![],
    };
    match state.process(req) {
        StateResponse::UpdateComputed { result } => assert!(result.is_err()),
        other => panic!("wrong reply {:?}", other),
    }
    assert_eq!(state.graph.nodes.len(), 0);
    let req = StateRequest::UpdateComputed {
        key: VersionedGraphKey::new(vn(1), dk(0)),
        epoch: VersionEpoch(1),
        storage: StorageType::Normal,
        value: DiceValue { data: 7 },
        deps: vec![],
    };
    match state.process(req) {
        StateResponse::UpdateComputed { result } => assert!(result.is_ok()),
        other => panic!("wrong reply {:?}", other),
    }
    assert_eq!(state.graph.nodes[0].len(), 1);
}

#[test]
fn cancellation_is_a_race() {
    // the canceller wins: the commit path must abandon
    let mut ctx = CancellationContext::new();
    ctx.request_cancellation();
    assert!(ctx.is_cancellation_requested());
    assert!(ctx.try_to_disable_cancellation().is_none());
    // the commit path wins: a later cancel request is a no-op
    let mut ctx = CancellationContext::new();
    let guard = ctx.try_to_disable_cancellation();
    assert!(guard.is_some());
    ctx.request_cancellation();
    assert!(!ctx.is_cancellation_requested());
}

#[test]
fn key_interning_is_idempotent() {
    let mut idx = DiceKeyIndex::new();
    let a = idx.index(UserKey { kind: 1, payload: 10 });
    let b = idx.index(UserKey { kind: 2, payload: 10 });
    let a2 = idx.index(UserKey { kind: 1, payload: 10 });
    assert_eq!(a, a2);
    assert_ne!(a, b);
    assert_eq!(idx.key_count(), 2);
    assert_eq!(idx.get(a), UserKey { kind: 1, payload: 10 });
}

#[test]
fn deps_record_in_first_request_order() {
    let mut deps = RecordedDeps::new();
    deps.record(dk(5));
    deps.record(dk(3));
    deps.record(dk(5));
    deps.record(dk(3));
    deps.record(dk(7));
    assert_eq!(deps.into_deps(), vec![dk(5), dk(3), dk(7)]);
}
