//! The engine registry: maps each key type to the engine instance owning
//! its cache, and keeps the engines in one list for uniform introspection.
//!
//! Key types are identified by an integer type id; a lookup by type id is
//! a scan of a short table, and inserting under a missing id appends a
//! fresh engine. Introspection aggregates the per-engine key counts.

use vstd::prelude::*;

use crate::core_state::CoreState;
use crate::events::ActivationTracker;
use crate::graph::count_nonempty;
use crate::incremental::count_live;
use crate::incremental::IncrementalEngine;
use crate::key::DiceKeyIndex;
use crate::versions::VersionEpoch;
use crate::versions::VersionNumber;

verus! {

/// The keys an engine's store holds, summed over the first `n` engines.
pub open spec fn total_key_count(s: Seq<IncrementalEngine>, n: int) -> int
    decreases n,
{
    if n <= 0 {
        0
    } else {
        total_key_count(s, n - 1) + count_nonempty(
            s[n - 1].state.graph.nodes@,
            s[n - 1].state.graph.nodes@.len() as int,
        )
    }
}

/// The live tasks, summed over the first `n` engines.
pub open spec fn total_running_count(s: Seq<IncrementalEngine>, n: int) -> int
    decreases n,
{
    if n <= 0 {
        0
    } else {
        total_running_count(s, n - 1) + count_live(
            s[n - 1].tasks@,
            s[n - 1].tasks@.len() as int,
        )
    }
}

proof fn lemma_count_nonempty_nonneg(s: Seq<Vec<crate::graph::VersionedGraphNode>>, n: int)
    ensures
        count_nonempty(s, n) >= 0,
    decreases n,
{
    if n > 0 {
        lemma_count_nonempty_nonneg(s, n - 1);
    }
}

proof fn lemma_count_live_nonneg(s: Seq<crate::incremental::TaskSlot>, n: int)
    ensures
        count_live(s, n) >= 0,
    decreases n,
{
    if n > 0 {
        lemma_count_live_nonneg(s, n - 1);
    }
}

proof fn lemma_total_key_count_prefix(s: Seq<IncrementalEngine>, i: int, n: int)
    requires
        0 <= i <= n,
    ensures
        total_key_count(s, i) <= total_key_count(s, n),
    decreases n,
{
    if i < n {
        lemma_total_key_count_prefix(s, i, n - 1);
        lemma_count_nonempty_nonneg(
            s[n - 1].state.graph.nodes@,
            s[n - 1].state.graph.nodes@.len() as int,
        );
    }
}

proof fn lemma_total_running_count_prefix(s: Seq<IncrementalEngine>, i: int, n: int)
    requires
        0 <= i <= n,
    ensures
        total_running_count(s, i) <= total_running_count(s, n),
    decreases n,
{
    if i < n {
        lemma_total_running_count_prefix(s, i, n - 1);
        lemma_count_live_nonneg(s[n - 1].tasks@, s[n - 1].tasks@.len() as int);
    }
}

/// The shape of a freshly registered engine: it runs at version `v` under
/// epoch `version_epoch`, over a state of that same epoch with an empty
/// store, an empty key table, no task slots, no events, and a disabled
/// activation tracker with nothing recorded.
pub open spec fn fresh_engine(e: IncrementalEngine, v: VersionNumber, version_epoch: VersionEpoch) -> bool {
    &&& e.wf()
    &&& e.v == v
    &&& e.version_epoch == version_epoch
    &&& e.state.version_epoch == version_epoch
    &&& e.state.graph.nodes@.len() == 0
    &&& e.key_index.keys@.len() == 0
    &&& e.tasks@.len() == 0
    &&& e.events.events@.len() == 0
    &&& !e.activation_tracker.enabled
    &&& e.activation_tracker.activations@.len() == 0
    &&& e.cycles.events@.len() == 0
}

/// The registry: `type_ids[i]` owns `engines[i]`.
#[derive(Debug)]
pub struct DiceMap {
    pub type_ids: Vec<u64>,
    pub engines: Vec<IncrementalEngine>,
}

impl DiceMap {
    pub open spec fn wf(self) -> bool {
        &&& self.type_ids@.len() == self.engines@.len()
        &&& forall|i: int, j: int|
            0 <= i < j < self.type_ids@.len() ==> #[trigger] self.type_ids@[i] != #[trigger] self.type_ids@[j]
        &&& forall|i: int| 0 <= i < self.engines@.len() ==> (#[trigger] self.engines@[i]).wf()
    }

    pub fn new() -> (r: DiceMap)
        ensures
            r.wf(),
            r.engines@.len() == 0,
            r.type_ids@.len() == 0,
    {
        DiceMap { type_ids: Vec::new(), engines: Vec::new() }
    }

    /// The engine owning this key type's cache, if one was registered.
    pub fn find_cache_opt(&self, type_id: u64) -> (r: Option<usize>)
        requires
            self.type_ids@.len() == self.engines@.len(),
        ensures
            match r {
                Some(i) => i < self.engines@.len() && i < self.type_ids@.len()
                    && self.type_ids@[i as int] == type_id,
                None => forall|i: int|
                    0 <= i < self.type_ids@.len() ==> #[trigger] self.type_ids@[i] != type_id,
            },
    {
        let n = self.type_ids.len();
        let m = self.engines.len();
        let mut i: usize = 0;
        while i < n
            invariant
                n == self.type_ids@.len(),
                m == self.engines@.len(),
                n == m,
                0 <= i <= n,
                forall|l: int| 0 <= l < i ==> #[trigger] self.type_ids@[l] != type_id,
            decreases n - i,
        {
            if self.type_ids[i] == type_id {
                return Some(i);
            }
            i += 1;
        }
        None
    }

    /// The engine owning this key type's cache, registering a fresh one at
    /// this version and epoch when none exists yet. A second call with the
    /// same type id returns the same engine and registers nothing.
    pub fn find_cache(&mut self, type_id: u64, v: VersionNumber, version_epoch: VersionEpoch) -> (r:
        usize)
        requires
            old(self).wf(),
        ensures
            final(self).wf(),
            r < final(self).engines@.len(),
            final(self).type_ids@[r as int] == type_id,
            old(self).type_ids@.contains(type_id) ==> final(self).type_ids@ == old(self).type_ids@ && final(self).engines@ == old(self).engines@,
            !old(self).type_ids@.contains(type_id) ==> final(self).type_ids@ == old(self).type_ids@.push(type_id) && r == old(self).type_ids@.len() && final(self).engines@.len() == old(self).engines@.len() + 1 && (forall|i: int|
                0 <= i < old(self).engines@.len() ==> final(self).engines@[i] == old(self).engines@[i]) && fresh_engine(final(self).engines@[r as int], v, version_epoch),
    {
        match self.find_cache_opt(type_id) {
            Some(i) => {
                proof {
                    assert(self.type_ids@.contains(type_id));
                }
                i
            },
            None => {
                proof {
                    if self.type_ids@.contains(type_id) {
                        let l = choose|l: int|
                            0 <= l < self.type_ids@.len() && self.type_ids@[l] == type_id;
                    }
                }
                let r = self.engines.len();
                let engine = IncrementalEngine::new(
                    CoreState::new(version_epoch),
                    DiceKeyIndex::new(),
                    v,
                    version_epoch,
                    ActivationTracker::new(false),
                );
                self.type_ids.push(type_id);
                self.engines.push(engine);
                r
            },
        }
    }

    /// The registered engines, in registration order.
    pub fn engines(&self) -> (r: &Vec<IncrementalEngine>)
        ensures
            r == &self.engines,
    {
        &self.engines
    }

    /// The total number of keys held across all engines.
    pub fn key_count(&self) -> (r: usize)
        requires
            total_key_count(self.engines@, self.engines@.len() as int) <= usize::MAX,
        ensures
            r == total_key_count(self.engines@, self.engines@.len() as int),
    {
        let n = self.engines.len();
        let mut cnt: usize = 0;
        let mut i: usize = 0;
        while i < n
            invariant
                n == self.engines@.len(),
                total_key_count(self.engines@, n as int) <= usize::MAX,
                0 <= i <= n,
                cnt == total_key_count(self.engines@, i as int),
            decreases n - i,
        {
            let c = self.engines[i].len_for_introspection();
            proof {
                lemma_count_nonempty_nonneg(
                    self.engines@[i as int].state.graph.nodes@,
                    self.engines@[i as int].state.graph.nodes@.len() as int,
                );
                lemma_total_key_count_prefix(self.engines@, i + 1, n as int);
            }
            cnt += c;
            i += 1;
        }
        cnt
    }

    /// The total number of currently running keys across all engines.
    pub fn currently_running_key_count(&self) -> (r: usize)
        requires
            total_running_count(self.engines@, self.engines@.len() as int) <= usize::MAX,
        ensures
            r == total_running_count(self.engines@, self.engines@.len() as int),
    {
        let n = self.engines.len();
        let mut cnt: usize = 0;
        let mut i: usize = 0;
        while i < n
            invariant
                n == self.engines@.len(),
                total_running_count(self.engines@, n as int) <= usize::MAX,
                0 <= i <= n,
                cnt == total_running_count(self.engines@, i as int),
            decreases n - i,
        {
            let c = self.engines[i].currently_running_key_count();
            proof {
                lemma_count_live_nonneg(
                    self.engines@[i as int].tasks@,
                    self.engines@[i as int].tasks@.len() as int,
                );
                lemma_total_running_count_prefix(self.engines@, i + 1, n as int);
            }
            cnt += c;
            i += 1;
        }
        cnt
    }
}

} // verus!
