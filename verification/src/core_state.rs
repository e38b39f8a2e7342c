//! The state owner: every mutation of the versioned graph goes through it.
//!
//! In a running system this is a single-owner mailbox: readers and writers
//! post a request and await a one-shot reply, which serializes all writes
//! and leaves the graph an unshared resource. The requests, the replies and
//! the processing of one request are here; a driver supplies the mailbox
//! loop around `process`.
//!
//! The epoch tie-break also lives here: a commit carrying a stale version
//! epoch is dropped, because the task that sent it was cancelled.

use vstd::prelude::*;

use crate::graph::dirty_post;
use crate::graph::lookup_post;
use crate::graph::update_post;
use crate::graph::StorageType;
use crate::graph::VersionedGraph;
use crate::graph::VersionedGraphKey;
use crate::graph::VersionedGraphResult;
use crate::key::DiceKey;
use crate::task::CancellableResult;
use crate::task::Cancelled;
use crate::value::DiceComputedValue;
use crate::value::DiceValue;
use crate::versions::VersionEpoch;
use crate::versions::VersionNumber;

verus! {

/// A request posted to the state owner.
#[derive(Debug)]
pub enum StateRequest {
    /// What does the store hold for this key at this version?
    LookupKey { key: VersionedGraphKey },
    /// Commit a computed value; dropped when `epoch` is stale.
    UpdateComputed {
        key: VersionedGraphKey,
        epoch: VersionEpoch,
        storage: StorageType,
        value: DiceValue,
        deps: Vec<DiceKey>,
    },
    /// Dirty a key at a version; forced when the input itself changed.
    DirtyKey { k: DiceKey, v: VersionNumber, force: bool },
}

/// The reply to one request.
#[derive(Debug)]
pub enum StateResponse {
    LookupKey { result: VersionedGraphResult },
    UpdateComputed { result: CancellableResult<DiceComputedValue> },
    DirtyKey,
}

/// The state the owner serializes: the graph and the current version epoch.
#[derive(Debug)]
pub struct CoreState {
    pub version_epoch: VersionEpoch,
    pub graph: VersionedGraph,
}

impl CoreState {
    pub open spec fn wf(self) -> bool {
        self.graph.wf()
    }

    pub fn new(version_epoch: VersionEpoch) -> (r: CoreState)
        ensures
            r.wf(),
            r.version_epoch == version_epoch,
            r.graph.nodes@.len() == 0,
    {
        CoreState { version_epoch, graph: VersionedGraph::new() }
    }

    /// Advances the version epoch: commits from tasks of the old epoch are
    /// dropped from here on.
    pub fn advance_epoch(&mut self)
        requires
            old(self).version_epoch.0 < u64::MAX,
        ensures
            final(self).version_epoch.0 == old(self).version_epoch.0 + 1,
            final(self).graph == old(self).graph,
    {
        self.version_epoch = VersionEpoch(self.version_epoch.0 + 1);
    }

    /// Processes one request, serially.
    pub fn process(&mut self, req: StateRequest) -> (r: StateResponse)
        requires
            old(self).wf(),
        ensures
            final(self).wf(),
            final(self).version_epoch == old(self).version_epoch,
            match req {
                StateRequest::LookupKey { key } => {
                    &&& *final(self) == *old(self)
                    &&& r matches StateResponse::LookupKey { result } && lookup_post(
                        old(self).graph,
                        key,
                        result,
                    )
                },
                StateRequest::UpdateComputed { key, epoch, storage, value, deps } => {
                    &&& r matches StateResponse::UpdateComputed { result }
                    &&& match r {
                        StateResponse::UpdateComputed { result } => match result {
                            Ok(cv) => epoch == old(self).version_epoch && update_post(
                                old(self).graph,
                                final(self).graph,
                                key,
                                value,
                                deps@,
                                storage,
                                cv,
                            ),
                            Err(_) => epoch != old(self).version_epoch && *final(self) == *old(
                                self,
                            ),
                        },
                        _ => false,
                    }
                },
                StateRequest::DirtyKey { k, v, force } => {
                    &&& r is DirtyKey
                    &&& dirty_post(old(self).graph, final(self).graph, k, v, force)
                },
            },
    {
        match req {
            StateRequest::LookupKey { key } => {
                let result = self.graph.lookup(key);
                StateResponse::LookupKey { result }
            },
            StateRequest::UpdateComputed { key, epoch, storage, value, deps } => {
                if epoch.0 != self.version_epoch.0 {
                    // the writing task was cancelled under this epoch
                    StateResponse::UpdateComputed { result: Err(Cancelled) }
                } else {
                    let cv = self.graph.update_computed(key, value, deps, storage);
                    StateResponse::UpdateComputed { result: Ok(cv) }
                }
            },
            StateRequest::DirtyKey { k, v, force } => {
                self.graph.mark_dirty(k, v, force);
                StateResponse::DirtyKey
            },
        }
    }
}

} // verus!
