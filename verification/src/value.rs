//! Values: what a computation produces, and computed values paired with
//! the history over which they are known to hold.

use vstd::prelude::*;

use crate::history::CellHistory;

verus! {

/// A user value, erased to a plain payload. Values are compared under the
/// user equivalence; here two values are equivalent exactly when their
/// payloads are equal.
#[derive(Clone, Copy, PartialEq, Eq, Structural, Debug)]
pub struct DiceValue {
    pub data: u64,
}

/// A value as the evaluator produced it: possibly transient. A transient
/// (invalid) value is surfaced to the immediate caller but never cached.
#[derive(Clone, Copy, PartialEq, Eq, Structural, Debug)]
pub struct MaybeValidDiceValue {
    pub value: DiceValue,
    pub valid: bool,
}

impl MaybeValidDiceValue {
    pub fn valid(value: DiceValue) -> (r: MaybeValidDiceValue)
        ensures
            r == (MaybeValidDiceValue { value, valid: true }),
    {
        MaybeValidDiceValue { value, valid: true }
    }

    pub fn transient(value: DiceValue) -> (r: MaybeValidDiceValue)
        ensures
            r == (MaybeValidDiceValue { value, valid: false }),
    {
        MaybeValidDiceValue { value, valid: false }
    }

    /// `Ok` with the value when it may be cached; `Err` with the same value
    /// when it is transient.
    pub fn into_valid_value(self) -> (r: Result<DiceValue, DiceValue>)
        ensures
            self.valid ==> r == Ok::<DiceValue, DiceValue>(self.value),
            !self.valid ==> r == Err::<DiceValue, DiceValue>(self.value),
    {
        if self.valid {
            Ok(self.value)
        } else {
            Err(self.value)
        }
    }
}

/// What a request returns: the value together with the history over which
/// it is known verified.
#[derive(Debug)]
pub struct DiceComputedValue {
    pub value: MaybeValidDiceValue,
    pub history: CellHistory,
}

/// Whether two computed values agree: same value, same history.
pub open spec fn same_computed(a: DiceComputedValue, b: DiceComputedValue) -> bool {
    &&& a.value == b.value
    &&& a.history.verified@ == b.history.verified@
    &&& a.history.dirtied@ == b.history.dirtied@
}

impl DiceComputedValue {
    pub fn new(value: MaybeValidDiceValue, history: CellHistory) -> (r: DiceComputedValue)
        ensures
            r.value == value,
            r.history == history,
    {
        DiceComputedValue { value, history }
    }

    /// An identical copy: awaiters of one computation all see the same
    /// committed value.
    pub fn dupe(&self) -> (r: DiceComputedValue)
        ensures
            same_computed(r, *self),
    {
        DiceComputedValue { value: self.value, history: self.history.dupe() }
    }
}

} // verus!
