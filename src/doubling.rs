//! Fast doubling: `F(2k)` and `F(2k+1)` from `F(k)` and `F(k+1)`, with the two
//! products of each level computed in parallel and each level checkpointed.

use vstd::prelude::*;
use crate::natural::Natural;
use crate::matrix::{fib, fib_prev, fib_block, mat_fib, mat_pow, mat_mul, power_adds, lemma_fib_power};
use crate::state::{ComputationState, CheckpointStore, resume_sound};
use vstd::arithmetic::mul::{lemma_mul_is_distributive_add, lemma_mul_is_commutative};

verus! {

proof fn lemma_fib_step(k: nat)
    ensures
        fib(k + 1) == fib(k) + fib_prev(k),
{
    if k > 0 {
        assert(fib(k + 1) == fib(k) + fib((k - 1) as nat));
    }
}

/// The doubling identities: for every `k`,
/// `F(2k) == F(k) * (2 F(k+1) - F(k))` and `F(2k+1) == F(k)^2 + F(k+1)^2`.
pub proof fn doubling_identities(k: nat)
    ensures
        fib(2 * k) == fib(k) * (2 * fib(k + 1) - fib(k)),
        fib(2 * k + 1) == fib(k) * fib(k) + fib(k + 1) * fib(k + 1),
        fib(k) <= 2 * fib(k + 1),
{
    power_adds(mat_fib(), k, k);
    lemma_fib_power(k);
    lemma_fib_power(k + k);
    lemma_fib_step(k);
    let x = fib(k) as int;
    let y = fib(k + 1) as int;
    let p = fib_prev(k) as int;
    assert(mat_mul(fib_block(k), fib_block(k)).b == y * x + x * p);
    assert(fib(2 * k) == y * x + x * p);
    lemma_mul_is_distributive_add(x, y, p);
    lemma_mul_is_commutative(x, y);
    assert(2 * y - x == y + p);
    assert(x * (2 * y - x) == x * (y + p));
}

/// The matrix engine and the doubling engine compute the same numbers: the
/// top-left cell of `[[1, 1], [1, 0]]^(n-1)`, which the matrix engine reads, and
/// the off-diagonal cell of `[[1, 1], [1, 0]]^n` are both `F(n)`, the first
/// component of the doubling engine's pair.
pub proof fn engines_agree(n: nat)
    requires
        n >= 1,
    ensures
        mat_pow(mat_fib(), (n - 1) as nat).a == fib(n),
        mat_pow(mat_fib(), n).b == fib(n),
{
    lemma_fib_power((n - 1) as nat);
    lemma_fib_power(n);
}

/// `a * (2b - a)`: the even term of a doubling step.
pub fn doubled_even(a: &Natural, b: &Natural) -> (r: Natural)
    requires
        a@ <= 2 * b@,
    ensures
        r@ == a@ * (2 * b@ - a@),
{
    let two_b = b.add(b);
    a.mul(&two_b.sub(a))
}

/// `a^2 + b^2`: the odd term of a doubling step.
pub fn doubled_odd(a: &Natural, b: &Natural) -> (r: Natural)
    ensures
        r@ == a@ * a@ + b@ * b@,
{
    a.mul(a).add(&b.mul(b))
}

/// Relies on rayon::join: it runs both closures, possibly in parallel, and returns
/// their two results in order.
#[verifier::external_body]
fn join_doubled(a: &Natural, b: &Natural) -> (r: (Natural, Natural))
    requires
        a@ <= 2 * b@,
    ensures
        r.0@ == a@ * (2 * b@ - a@),
        r.1@ == a@ * a@ + b@ * b@,
{
    rayon::join(|| doubled_even(a, b), || doubled_odd(a, b))
}

/// Why fast doubling stopped.
#[derive(Clone, Copy, Debug, PartialEq, Eq)]
pub enum DoublingError {
    /// A resume state reached on the way does not hold consecutive Fibonacci values.
    InconsistentResume,
    /// A level's checkpoint could not be saved.
    SaveFailed,
}

/// `(F(n), F(n+1))` by fast doubling.
///
/// A `resume` state whose index is reached on the way is taken as it stands.
/// Each level computed saves `{index: n, a: F(n), b: F(n+1)}` to `store`.
pub fn fib_pair<S: CheckpointStore>(n: u64, resume: &Option<ComputationState>, store: &mut S) -> (r:
    Result<(Natural, Natural), DoublingError>)
    ensures
        match r {
            Ok(p) => (resume_sound(*resume) ==> p.0@ == fib(n as nat) && p.1@ == fib(n as nat + 1))
                && (n != 0 && !(resume matches Some(s) && s.index == n) && old(store).models_record()
                ==> final(store).last_saved() == Some((n as nat, p.0@, p.1@))),
            Err(DoublingError::InconsistentResume) => !resume_sound(*resume),
            Err(DoublingError::SaveFailed) => true,
        },
        final(store).models_record() == old(store).models_record(),
        n == 0 ==> r is Ok,
        (resume matches Some(s) && s.index == n) ==> r is Ok,
    decreases n,
{
    match resume {
        Some(s) => {
            if s.index == n {
                return Ok((s.a.duplicate(), s.b.duplicate()));
            }
        },
        None => {},
    }
    if n == 0 {
        return Ok((Natural::zero(), Natural::one()));
    }
    let k: u64 = n / 2;
    let (a, b) = match fib_pair(k, resume, store) {
        Ok(p) => p,
        Err(e) => {
            return Err(e);
        },
    };
    let two_b = b.add(&b);
    if !a.le(&two_b) {
        proof {
            if resume_sound(*resume) {
                doubling_identities(k as nat);
            }
        }
        return Err(DoublingError::InconsistentResume);
    }
    let (c, d) = join_doubled(&a, &b);
    proof {
        if resume_sound(*resume) {
            doubling_identities(k as nat);
            assert(2 * (k as nat) + 1 + 1 == 2 * (k as nat + 1));
            if n % 2 == 0 {
                assert(n as nat == 2 * (k as nat));
            } else {
                assert(n as nat == 2 * (k as nat) + 1);
                assert(fib(n as nat + 1) == fib(n as nat) + fib((n - 1) as nat));
            }
        }
    }
    let pair = if n % 2 == 0 {
        (c, d)
    } else {
        let s = c.add(&d);
        (d, s)
    };
    let record = ComputationState { index: n, a: pair.0.duplicate(), b: pair.1.duplicate() };
    if !store.save(&record) {
        return Err(DoublingError::SaveFailed);
    }
    Ok(pair)
}

} // verus!
