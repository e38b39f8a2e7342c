//! The evaluator surface: the traits users implement to compute a key's
//! value, the shape of one evaluation's outcome, and the dependency
//! recorder a driver tracks reads with.

use vstd::prelude::*;

use crate::events::ActivationData;
use crate::graph::StorageType;
use crate::key::DiceKey;
use crate::task::CancellableResult;
use crate::task::CancellationContext;
use crate::value::MaybeValidDiceValue;

verus! {

/// What one evaluation produced: the (possibly transient) value, the keys
/// read in first-request order, the storage class for the commit, and what
/// to report to an activation tracker.
#[derive(Debug)]
pub struct EvaluationResult {
    pub value: MaybeValidDiceValue,
    pub deps: Vec<DiceKey>,
    pub storage: StorageType,
    pub evaluation_data: ActivationData,
}

/// One step of a suspending evaluation: either the evaluator needs a
/// dependency's value next, or it finished.
#[derive(Debug)]
pub enum EvalStep {
    /// Compute this key and hand its value back in `fetched`.
    Request(DiceKey),
    /// The evaluation completed with this outcome.
    Finished(EvaluationResult),
}

/// A user evaluation that may suspend to request dependencies. The driver
/// runs it step by step: it calls `evaluate_step` with the dependency
/// values fetched so far (in the order the evaluator requested them),
/// computes the key of a `Request` through the engine, appends its value,
/// and repeats until `Finished` or cancellation. The engine promises
/// nothing of what an implementation returns: every contract downstream
/// holds whatever comes back.
pub trait AsyncEvaluator {
    /// Continues evaluating `key`, given the dependency values fetched so
    /// far; observes cooperative cancellation through `cancellations`.
    fn evaluate_step(
        &self,
        key: DiceKey,
        fetched: &Vec<(DiceKey, MaybeValidDiceValue)>,
        cancellations: &mut CancellationContext,
    ) -> CancellableResult<EvalStep>;

    /// The storage class for this key's commits.
    fn storage_type(&self, key: DiceKey) -> StorageType;
}

/// A non-suspending evaluation, used for projections: synchronous, purely
/// local derivations from already-computed values.
pub trait SyncEvaluator {
    fn evaluate(&self, key: DiceKey) -> EvaluationResult;
}

/// The dependency recorder of one evaluation: dependencies are stored in
/// the order first requested, and a repeated request collapses to the
/// first occurrence.
#[derive(Debug)]
pub struct RecordedDeps {
    pub deps: Vec<DiceKey>,
}

impl RecordedDeps {
    pub fn new() -> (r: RecordedDeps)
        ensures
            r.deps@.len() == 0,
    {
        RecordedDeps { deps: Vec::new() }
    }

    /// Records a dependency read.
    pub fn record(&mut self, k: DiceKey)
        ensures
            old(self).deps@.contains(k) ==> final(self).deps@ == old(self).deps@,
            !old(self).deps@.contains(k) ==> final(self).deps@ == old(self).deps@.push(k),
    {
        let n = self.deps.len();
        let mut i: usize = 0;
        while i < n
            invariant
                self.deps@ == old(self).deps@,
                n == self.deps@.len(),
                0 <= i <= n,
                forall|l: int| 0 <= l < i ==> self.deps@[l] != k,
            decreases n - i,
        {
            if self.deps[i].index == k.index {
                proof {
                    assert(self.deps@[i as int] == k);
                    assert(self.deps@.contains(k));
                }
                return ;
            }
            i += 1;
        }
        proof {
            if self.deps@.contains(k) {
                let l = choose|l: int| 0 <= l < self.deps@.len() && self.deps@[l] == k;
            }
        }
        self.deps.push(k);
    }

    /// Hands the recorded dependencies over for the commit.
    pub fn into_deps(self) -> (r: Vec<DiceKey>)
        ensures
            r@ == self.deps@,
    {
        self.deps
    }
}

} // verus!
