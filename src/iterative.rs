//! The iterative engine: steps `(F(i), F(i+1))` one index at a time from a
//! resumable state, saving a checkpoint every `interval` steps and at the end.

use vstd::prelude::*;
use crate::matrix::fib;
use crate::state::{ComputationState, CheckpointStore, resume_sound};

verus! {

/// The pair reached from `(a, b)` after `steps` steps of `(a, b) -> (b, a + b)`.
pub open spec fn iterate(a: nat, b: nat, steps: nat) -> (nat, nat)
    decreases steps,
{
    if steps == 0 {
        (a, b)
    } else {
        let p = iterate(a, b, (steps - 1) as nat);
        (p.1, p.0 + p.1)
    }
}

/// Stepping from a true pair at `i` gives the true pair at `i + m`.
pub proof fn lemma_iterate_fib(i: nat, m: nat)
    ensures
        iterate(fib(i), fib(i + 1), m) == (fib(i + m), fib(i + m + 1)),
    decreases m,
{
    if m > 0 {
        lemma_iterate_fib(i, (m - 1) as nat);
        assert(fib(i + m + 1) == fib(i + m) + fib((i + m - 1) as nat));
    }
}

/// Resuming is the same as not stopping: from any true pair `(F(i), F(i+1))` with
/// `i <= target`, the engine ends on the pair it reaches from `(F(0), F(1))`.
pub proof fn resume_is_idempotent(i: nat, a: nat, b: nat, target: nat)
    requires
        a == fib(i),
        b == fib(i + 1),
        i <= target,
    ensures
        iterate(a, b, (target - i) as nat) == iterate(0, 1, target),
        iterate(a, b, (target - i) as nat) == (fib(target), fib(target + 1)),
{
    lemma_iterate_fib(i, (target - i) as nat);
    lemma_iterate_fib(0, target);
}

/// Where to start towards `target`: the loaded checkpoint if it does not pass
/// `target`, else the state at index zero.
pub fn resume_point(loaded: Option<ComputationState>, target: u64) -> (r: ComputationState)
    ensures
        r.index <= target,
        resume_sound(loaded) ==> r.valid(),
        match loaded {
            Some(s) => if s.index <= target {
                r.index == s.index && r.a@ == s.a@ && r.b@ == s.b@
            } else {
                r.index == 0
            },
            None => r.index == 0,
        },
{
    match loaded {
        Some(s) => {
            if s.index <= target {
                s
            } else {
                ComputationState::initial()
            }
        },
        None => ComputationState::initial(),
    }
}

/// Steps `start` to `target`, saving the state to `store` every `interval` steps
/// (never, for zero) and once more at the end; `None` once a save fails.
pub fn run_iterative<S: CheckpointStore>(
    start: ComputationState,
    target: u64,
    interval: u64,
    store: &mut S,
) -> (r: Option<ComputationState>)
    requires
        start.index <= target,
    ensures
        match r {
            Some(s) => s.index == target && (s.a@, s.b@) == iterate(
                start.a@,
                start.b@,
                (target - start.index) as nat,
            ) && (start.valid() ==> s.valid()) && (old(store).models_record()
                ==> final(store).last_saved() == Some((target as nat, s.a@, s.b@))),
            None => true,
        },
{
    let mut a = start.a;
    let mut b = start.b;
    let mut i: u64 = start.index;
    let mut since_save: u64 = 0;
    while i < target
        invariant
            start.index <= i <= target,
            store.models_record() == old(store).models_record(),
            (a@, b@) == iterate(start.a@, start.b@, (i - start.index) as nat),
        decreases target - i,
    {
        let next = a.add(&b);
        a = b;
        b = next;
        i = i + 1;
        if since_save < interval {
            since_save = since_save + 1;
        }
        if interval > 0 && since_save == interval {
            since_save = 0;
            let record = ComputationState { index: i, a: a.duplicate(), b: b.duplicate() };
            if !store.save(&record) {
                return None;
            }
        }
    }
    let done = ComputationState { index: i, a, b };
    if !store.save(&done) {
        return None;
    }
    proof {
        if start.valid() {
            lemma_iterate_fib(start.index as nat, (target - start.index) as nat);
        }
    }
    Some(done)
}

} // verus!
