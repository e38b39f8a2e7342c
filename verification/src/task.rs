//! The task layer: one task per in-flight computation, its state machine,
//! and cooperative cancellation.
//!
//! Cancellation is a race the commit path must win or lose atomically: a
//! canceller may only take effect while the flag is still cancellable, and
//! the body must disable cancellation before any store write. A body that
//! finds cancellation already requested abandons the commit.

use vstd::prelude::*;

use crate::value::DiceComputedValue;

verus! {

/// Cooperative cancellation happened; awaiters treat it as "try again".
#[derive(Clone, Copy, PartialEq, Eq, Structural, Debug)]
pub struct Cancelled;

/// A result that may end in cooperative cancellation instead.
pub type CancellableResult<T> = Result<T, Cancelled>;

/// The cancellation flag of one task.
#[derive(Clone, Copy, PartialEq, Eq, Structural, Debug)]
pub enum CancellationStatus {
    /// No cancel request seen; a request would take effect.
    Cancellable,
    /// A cancel request arrived before the commit path disabled the flag.
    Requested,
    /// The commit path won the race: cancel requests are no-ops now.
    Disabled,
}

/// The cancellation context a task body observes.
#[derive(Clone, Copy, PartialEq, Eq, Structural, Debug)]
pub struct CancellationContext {
    pub status: CancellationStatus,
}

/// Witness that cancellation was disabled before the commit: while the
/// holder keeps it, the commit path runs to completion.
#[derive(Debug)]
pub struct DisableCancellationGuard {}

impl CancellationContext {
    pub fn new() -> (r: CancellationContext)
        ensures
            r.status == CancellationStatus::Cancellable,
    {
        CancellationContext { status: CancellationStatus::Cancellable }
    }

    /// A canceller asks the task to stop. Effective only while the flag is
    /// still cancellable: a canceller that loses the race against
    /// `try_to_disable_cancellation` changes nothing.
    pub fn request_cancellation(&mut self)
        ensures
            final(self).status == (if old(self).status is Disabled {
                CancellationStatus::Disabled
            } else {
                CancellationStatus::Requested
            }),
    {
        match self.status {
            CancellationStatus::Disabled => {},
            _ => {
                self.status = CancellationStatus::Requested;
            },
        }
    }

    /// Whether a cancel request is pending.
    pub fn is_cancellation_requested(&self) -> (r: bool)
        ensures
            r <==> self.status is Requested,
    {
        match self.status {
            CancellationStatus::Requested => true,
            _ => false,
        }
    }

    /// The commit path tries to win the race: `Some` guarantees no
    /// cancellation will be observed from here on; `None` means
    /// cancellation already happened and the body must abandon the commit.
    pub fn try_to_disable_cancellation(&mut self) -> (r: Option<DisableCancellationGuard>)
        ensures
            r is Some <==> !(old(self).status is Requested),
            r is Some ==> final(self).status == CancellationStatus::Disabled,
            r is None ==> *final(self) == *old(self),
    {
        match self.status {
            CancellationStatus::Requested => None,
            _ => {
                self.status = CancellationStatus::Disabled;
                Some(DisableCancellationGuard {})
            },
        }
    }
}

/// Where one task stands. Transitions are one-way, except that a task that
/// was checking dependencies may fall back to computing.
#[derive(Debug)]
pub enum DiceTaskState {
    Initial,
    Computing,
    CheckingDeps,
    Finished(DiceComputedValue),
    Cancelled,
}

/// One in-flight or finished computation of a key at some version epoch,
/// with its cancellation flag. The terminal states are `Finished`, whose
/// value every awaiter shares, and `Cancelled`.
#[derive(Debug)]
pub struct DiceTask {
    pub state: DiceTaskState,
    pub cancellation: CancellationContext,
}

impl DiceTask {
    pub open spec fn is_terminal(self) -> bool {
        self.state is Finished || self.state is Cancelled
    }

    pub fn new() -> (r: DiceTask)
        ensures
            r.state is Initial,
            r.cancellation.status == CancellationStatus::Cancellable,
    {
        DiceTask { state: DiceTaskState::Initial, cancellation: CancellationContext::new() }
    }

    pub fn computing(&mut self)
        requires
            old(self).state is Initial || old(self).state is CheckingDeps,
        ensures
            final(self).state is Computing,
            final(self).cancellation == old(self).cancellation,
    {
        self.state = DiceTaskState::Computing;
    }

    pub fn checking_deps(&mut self)
        requires
            old(self).state is Initial,
        ensures
            final(self).state is CheckingDeps,
            final(self).cancellation == old(self).cancellation,
    {
        self.state = DiceTaskState::CheckingDeps;
    }

    pub fn finished(&mut self, value: DiceComputedValue)
        requires
            !old(self).is_terminal(),
        ensures
            final(self).state == DiceTaskState::Finished(value),
            final(self).cancellation == old(self).cancellation,
    {
        self.state = DiceTaskState::Finished(value);
    }

    pub fn report_cancelled(&mut self)
        requires
            !(old(self).state is Finished),
        ensures
            final(self).state is Cancelled,
            final(self).cancellation == old(self).cancellation,
    {
        self.state = DiceTaskState::Cancelled;
    }

    /// The finished value, if the task reached it.
    pub fn get_finished_value(&self) -> (r: Option<DiceComputedValue>)
        ensures
            match self.state {
                DiceTaskState::Finished(v) => r matches Some(u) && crate::value::same_computed(
                    u,
                    v,
                ),
                _ => r is None,
            },
    {
        match &self.state {
            DiceTaskState::Finished(v) => Some(v.dupe()),
            _ => None,
        }
    }
}

/// How an awaited, cancelled task was seen to terminate.
#[derive(Clone, Copy, PartialEq, Eq, Structural, Debug)]
pub enum TerminationStatus {
    Finished,
    Cancelled,
}

/// A task that a canceller hit, handed to the next request for the same
/// key: the new request awaits its termination first, and if the task
/// finished despite the cancel, adopts its value instead of recomputing.
#[derive(Debug)]
pub struct PreviouslyCancelledTask {
    pub termination: TerminationStatus,
    pub previous: DiceTask,
}

impl PreviouslyCancelledTask {
    /// A termination signal never claims `Finished` of a task that did not
    /// finish.
    pub open spec fn wf(self) -> bool {
        self.termination is Finished ==> self.previous.state is Finished
    }
}

} // verus!
