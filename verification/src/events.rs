//! Reporting surfaces: per-key events, activation records, and the keys the
//! engine reports to a cycle detector.
//!
//! Each surface records what the engine reported, in order, so that a
//! driver, a test, or an introspection pass can read the run back. That an
//! evaluation started or finished is observable here and nowhere else: the
//! engine's deduplication and reuse guarantees are stated over these logs.

use vstd::prelude::*;

use crate::key::DiceKey;
use crate::key::UserKey;

verus! {

/// A per-key event in the order the engine emitted it. `Started` is emitted
/// immediately before the user evaluator runs for a key, `Finished` when
/// its computation completed (committed, bypassed, or abandoned);
/// `CheckDepsStarted` and `CheckDepsFinished` bracket dependency
/// revalidation.
#[derive(Clone, Copy, PartialEq, Eq, Structural, Debug)]
pub enum DiceEvent {
    Started { k: DiceKey },
    Finished { k: DiceKey },
    CheckDepsStarted { k: DiceKey },
    CheckDepsFinished { k: DiceKey },
}

/// Records the events of one transaction, in order.
#[derive(Debug)]
pub struct DiceEventDispatcher {
    pub events: Vec<DiceEvent>,
}

impl DiceEventDispatcher {
    pub fn new() -> (r: DiceEventDispatcher)
        ensures
            r.events@.len() == 0,
    {
        DiceEventDispatcher { events: Vec::new() }
    }

    pub fn started(&mut self, k: DiceKey)
        ensures
            final(self).events@ == old(self).events@.push(DiceEvent::Started { k }),
    {
        self.events.push(DiceEvent::Started { k });
    }

    pub fn finished(&mut self, k: DiceKey)
        ensures
            final(self).events@ == old(self).events@.push(DiceEvent::Finished { k }),
    {
        self.events.push(DiceEvent::Finished { k });
    }

    pub fn check_deps_started(&mut self, k: DiceKey)
        ensures
            final(self).events@ == old(self).events@.push(DiceEvent::CheckDepsStarted { k }),
    {
        self.events.push(DiceEvent::CheckDepsStarted { k });
    }

    pub fn check_deps_finished(&mut self, k: DiceKey)
        ensures
            final(self).events@ == old(self).events@.push(DiceEvent::CheckDepsFinished { k }),
    {
        self.events.push(DiceEvent::CheckDepsFinished { k });
    }
}

/// Why a key became active: freshly computed, or reused after its
/// dependencies revalidated.
#[derive(Clone, Copy, PartialEq, Eq, Structural, Debug)]
pub enum ActivationData {
    Computed,
    Reused,
}

/// One activation: the key, the user keys of its dependencies in recorded
/// order, and whether it was computed or reused.
#[derive(Debug)]
pub struct ActivationRecord {
    pub key: UserKey,
    pub deps: Vec<UserKey>,
    pub data: ActivationData,
}

/// Receives activations. When disabled, reports are dropped, as when no
/// tracker is installed.
#[derive(Debug)]
pub struct ActivationTracker {
    pub enabled: bool,
    pub activations: Vec<ActivationRecord>,
}

impl ActivationTracker {
    pub fn new(enabled: bool) -> (r: ActivationTracker)
        ensures
            r.enabled == enabled,
            r.activations@.len() == 0,
    {
        ActivationTracker { enabled, activations: Vec::new() }
    }
}

/// What the engine reports to a user cycle detector: it names the keys; the
/// detection algorithm itself is the user's.
#[derive(Clone, Copy, PartialEq, Eq, Structural, Debug)]
pub enum CycleEvent {
    StartedComputing { k: DiceKey },
    SubRequest { k: DiceKey },
    FinishedComputing { k: DiceKey },
}

/// Records the keys reported for cycle detection, in order.
#[derive(Debug)]
pub struct UserCycleDetectorData {
    pub events: Vec<CycleEvent>,
}

impl UserCycleDetectorData {
    pub fn new() -> (r: UserCycleDetectorData)
        ensures
            r.events@.len() == 0,
    {
        UserCycleDetectorData { events: Vec::new() }
    }

    pub fn start_computing_key(&mut self, k: DiceKey)
        ensures
            final(self).events@ == old(self).events@.push(CycleEvent::StartedComputing { k }),
    {
        self.events.push(CycleEvent::StartedComputing { k });
    }

    pub fn subrequest(&mut self, k: DiceKey)
        ensures
            final(self).events@ == old(self).events@.push(CycleEvent::SubRequest { k }),
    {
        self.events.push(CycleEvent::SubRequest { k });
    }

    pub fn finished_computing_key(&mut self, k: DiceKey)
        ensures
            final(self).events@ == old(self).events@.push(CycleEvent::FinishedComputing { k }),
    {
        self.events.push(CycleEvent::FinishedComputing { k });
    }
}

} // verus!
