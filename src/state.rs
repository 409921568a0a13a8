//! The computation state shared by the engines, and the capabilities through which
//! they persist it and report progress.

use vstd::prelude::*;
use crate::natural::Natural;
use crate::matrix::fib;

verus! {

/// A pair of consecutive Fibonacci values `(F(index), F(index + 1))`, as an engine
/// holds it and as a checkpoint records it.
#[derive(Clone, Debug)]
pub struct ComputationState {
    pub index: u64,
    pub a: Natural,
    pub b: Natural,
}

impl ComputationState {
    /// The state holds `F(index)` and `F(index + 1)`.
    pub open spec fn valid(&self) -> bool {
        self.a@ == fib(self.index as nat) && self.b@ == fib(self.index as nat + 1)
    }

    /// The state at index zero: `(F(0), F(1))`.
    pub fn initial() -> (r: ComputationState)
        ensures
            r.index == 0,
            r.a@ == 0,
            r.b@ == 1,
            r.valid(),
    {
        ComputationState { index: 0, a: Natural::zero(), b: Natural::one() }
    }

    /// A copy of this state.
    pub fn duplicate(&self) -> (r: ComputationState)
        ensures
            r.index == self.index,
            r.a@ == self.a@,
            r.b@ == self.b@,
    {
        ComputationState { index: self.index, a: self.a.duplicate(), b: self.b.duplicate() }
    }
}

/// No checkpoint, or one that holds what it claims.
pub open spec fn resume_sound(resume: Option<ComputationState>) -> bool {
    match resume {
        Some(s) => s.valid(),
        None => true,
    }
}

/// Durable storage for the latest checkpoint.
pub trait CheckpointStore {
    /// Whether this store's `last_saved` is modelled; a store that is not verified
    /// leaves it `false` and promises nothing.
    open spec fn models_record(&self) -> bool {
        false
    }

    /// The `(index, a, b)` of the record that the last successful save left.
    open spec fn last_saved(&self) -> Option<(nat, nat, nat)> {
        None
    }

    /// Overwrites the stored checkpoint with `state`; `false` when it could not be
    /// written, after which the computation cannot go on durably.
    fn save(&mut self, state: &ComputationState) -> (ok: bool)
        ensures
            final(self).models_record() == old(self).models_record(),
            ok && old(self).models_record() ==> final(self).last_saved() == Some(
                (state.index as nat, state.a@, state.b@),
            ),
    ;
}

/// A checkpoint store that keeps the latest record in memory.
pub struct MemoryStore {
    pub record: Option<ComputationState>,
}

impl MemoryStore {
    /// A store that holds no record yet.
    pub fn new() -> (r: MemoryStore)
        ensures
            r.record is None,
    {
        MemoryStore { record: None }
    }
}

impl CheckpointStore for MemoryStore {
    open spec fn models_record(&self) -> bool {
        true
    }

    open spec fn last_saved(&self) -> Option<(nat, nat, nat)> {
        match self.record {
            Some(s) => Some((s.index as nat, s.a@, s.b@)),
            None => None,
        }
    }

    fn save(&mut self, state: &ComputationState) -> (ok: bool) {
        self.record = Some(state.duplicate());
        true
    }
}

/// A shared record of the latest progress of a computation.
pub trait ProgressSink {
    /// Overwrites the record: the target `index`, the partial `result`, and
    /// `done` out of `total` steps of the writer's own share; `false` when the
    /// record could not be reached.
    fn update(&self, index: u64, result: &Natural, done: u64, total: u64) -> (ok: bool)
        requires
            0 < done <= total,
    ;
}

} // verus!
