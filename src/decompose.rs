//! Splitting one exponentiation of the Fibonacci matrix into per-worker shares,
//! running the shares in parallel, and folding the partial powers in worker order.

use vstd::prelude::*;
use rayon::iter::{IntoParallelRefIterator, ParallelIterator};
use crate::natural::Natural;
use crate::matrix::{Mat2, Matrix, fib, mat_fib, mat_identity, mat_mul, mat_pow, matrix_mult,
    power_adds, lemma_pow_square, lemma_pow_odd, lemma_mul_assoc, lemma_mul_identity, lemma_fib_power};
use crate::state::ProgressSink;

verus! {

/// The sum of the shares.
pub open spec fn share_sum(s: Seq<u64>) -> nat
    decreases s.len(),
{
    if s.len() == 0 {
        0
    } else {
        share_sum(s.drop_last()) + s.last() as nat
    }
}

/// The left-to-right product of the matrices.
pub open spec fn mat_product(s: Seq<Mat2>) -> Mat2
    decreases s.len(),
{
    if s.len() == 0 {
        mat_identity()
    } else {
        mat_mul(mat_product(s.drop_last()), s.last())
    }
}

/// Each worker's share of `n`: `n / workers` each, and the remainder
/// `n % workers` on top for worker zero.
pub fn split_exponent(n: u64, workers: usize) -> (r: Vec<u64>)
    requires
        workers >= 1,
    ensures
        r@.len() == workers,
        r@[0] == n / (workers as u64) + n % (workers as u64),
        forall|i: int| 1 <= i < r@.len() ==> r@[i] == n / (workers as u64),
        share_sum(r@) == n,
{
    let w: u64 = workers as u64;
    let q: u64 = n / w;
    let rem: u64 = n % w;
    proof {
        assert(n == q * w + rem) by (nonlinear_arith)
            requires q == n / w, rem == n % w, w >= 1;
        assert(q <= q * w) by (nonlinear_arith)
            requires w >= 1;
    }
    let mut r: Vec<u64> = Vec::new();
    r.push(q + rem);
    assert(share_sum(r@.drop_last()) == 0);
    assert(q * 1 == q);
    let mut i: usize = 1;
    while i < workers
        invariant
            1 <= i <= workers,
            w == workers as u64,
            n == q * w + rem,
            r@.len() == i,
            r@[0] == q + rem,
            forall|j: int| 1 <= j < r@.len() ==> r@[j] == q,
            share_sum(r@) == rem + q * i,
        decreases workers - i,
    {
        let ghost before = r@;
        r.push(q);
        proof {
            assert(r@.drop_last() =~= before);
            assert(q * (i + 1) == q * i + q) by (nonlinear_arith);
        }
        i = i + 1;
    }
    r
}

/// The product of powers of one matrix is its power to the sum of the exponents.
proof fn lemma_product_of_powers(parts: Seq<Mat2>, shares: Seq<u64>)
    requires
        parts.len() == shares.len(),
        forall|i: int| 0 <= i < parts.len() ==> parts[i] == mat_pow(mat_fib(), shares[i] as nat),
    ensures
        mat_product(parts) == mat_pow(mat_fib(), share_sum(shares)),
    decreases parts.len(),
{
    if parts.len() > 0 {
        let pl = parts.drop_last();
        let sl = shares.drop_last();
        lemma_product_of_powers(pl, sl);
        power_adds(mat_fib(), share_sum(sl), shares.last() as nat);
    }
}

/// Splitting the exponent never changes the result: for any shares that sum to
/// `n`, the worker-order product of their powers of `[[1, 1], [1, 0]]` is the
/// undivided power `[[1, 1], [1, 0]]^n`, whose top-right cell is `F(n)`, what the
/// matrix engine returns for `n`.
pub proof fn decomposition_preserves_power(n: nat, shares: Seq<u64>)
    requires
        share_sum(shares) == n,
    ensures
        mat_product(shares.map_values(|e: u64| mat_pow(mat_fib(), e as nat))) == mat_pow(mat_fib(), n),
        mat_product(shares.map_values(|e: u64| mat_pow(mat_fib(), e as nat))).b == fib(n),
{
    lemma_product_of_powers(shares.map_values(|e: u64| mat_pow(mat_fib(), e as nat)), shares);
    lemma_fib_power(n);
}

/// One worker's power of the Fibonacci matrix, by binary exponentiation,
/// reporting to `progress` after each squaring (the target `n`, the partial
/// top-left cell, and how much of `share` is consumed); `None` once a report fails.
pub fn worker_power<P: ProgressSink>(share: u64, n: u64, progress: &P) -> (r: Option<Matrix>)
    ensures
        match r {
            Some(m) => m@ == mat_pow(mat_fib(), share as nat),
            None => true,
        },
        share == 0 ==> (r matches Some(m) && m@ == mat_identity()),
{
    let mut result = Matrix::identity();
    let mut base = Matrix::fibonacci_matrix();
    let mut e: u64 = share;
    proof {
        lemma_mul_identity(mat_pow(mat_fib(), share as nat));
    }
    while e > 0
        invariant
            e <= share,
            share == 0 ==> result@ == mat_identity(),
            mat_mul(result@, mat_pow(base@, e as nat)) == mat_pow(mat_fib(), share as nat),
        decreases e,
    {
        let q: u64 = e / 2;
        proof {
            lemma_pow_square(base@, q as nat);
            if e % 2 == 1 {
                lemma_pow_odd(base@, q as nat);
                lemma_mul_assoc(result@, base@, mat_pow(mat_mul(base@, base@), q as nat));
                assert(e as nat == 2 * (q as nat) + 1);
            } else {
                assert(e as nat == 2 * (q as nat));
            }
        }
        if e % 2 == 1 {
            result = matrix_mult(&result, &base);
        }
        base = matrix_mult(&base, &base);
        e = q;
        if !progress.update(n, &result.m00, share - e, share) {
            return None;
        }
    }
    proof {
        lemma_mul_identity(result@);
    }
    Some(result)
}

/// Relies on rayon: `par_iter().map(..).collect()` into a `Vec` keeps the items in
/// the order of `shares`, one result for each share.
#[verifier::external_body]
fn run_workers<P: ProgressSink + Sync>(shares: &Vec<u64>, n: u64, progress: &P) -> (r: Vec<Option<Matrix>>)
    ensures
        r@.len() == shares@.len(),
        forall|i: int|
            0 <= i < r@.len() ==> match #[trigger] r@[i] {
                Some(m) => m@ == mat_pow(mat_fib(), shares@[i] as nat),
                None => true,
            },
        forall|i: int|
            0 <= i < r@.len() && shares@[i] == 0 ==> (#[trigger] r@[i] matches Some(m) && m@
                == mat_identity()),
{
    shares.par_iter().map(|e| worker_power(*e, n, progress)).collect()
}

/// The partial powers multiplied left to right, in worker order; `None` when a
/// worker stopped.
pub fn fold_partials(parts: &Vec<Option<Matrix>>) -> (r: Option<Matrix>)
    ensures
        match r {
            Some(m) => exists|ms: Seq<Mat2>|
                ms.len() == parts@.len() && m@ == mat_product(ms) && (forall|i: int|
                    0 <= i < ms.len() ==> (#[trigger] parts@[i] matches Some(p) && p@ == ms[i])),
            None => exists|i: int| 0 <= i < parts@.len() && #[trigger] parts@[i] is None,
        },
{
    let mut acc = Matrix::identity();
    let ghost mut ms: Seq<Mat2> = Seq::empty();
    let mut i: usize = 0;
    while i < parts.len()
        invariant
            i <= parts@.len(),
            ms.len() == i,
            acc@ == mat_product(ms),
            forall|j: int| 0 <= j < i ==> (#[trigger] parts@[j] matches Some(p) && p@ == ms[j]),
        decreases parts@.len() - i,
    {
        match &parts[i] {
            Some(p) => {
                acc = matrix_mult(&acc, p);
                proof {
                    let old_ms = ms;
                    ms = ms.push(p@);
                    assert(ms.drop_last() =~= old_ms);
                }
            },
            None => {
                return None;
            },
        }
        i = i + 1;
    }
    Some(acc)
}

/// `F(n)`: the top-right cell of `[[1, 1], [1, 0]]^n`, computed by `workers`
/// parallel shares of the exponent; `None` once a progress report fails.
pub fn parallel_fibonacci<P: ProgressSink + Sync>(n: u64, workers: usize, progress: &P) -> (r: Option<Natural>)
    requires
        workers >= 1,
    ensures
        match r {
            Some(v) => v@ == fib(n as nat),
            None => true,
        },
        n == 0 ==> r is Some,
{
    let shares = split_exponent(n, workers);
    let parts = run_workers(&shares, n, progress);
    match fold_partials(&parts) {
        Some(m) => {
            proof {
                let ms = choose|ms: Seq<Mat2>|
                    ms.len() == parts@.len() && m@ == mat_product(ms) && (forall|i: int|
                        0 <= i < ms.len() ==> (#[trigger] parts@[i] matches Some(p) && p@ == ms[i]));
                assert forall|i: int| 0 <= i < ms.len() implies ms[i] == mat_pow(mat_fib(), shares@[i] as nat) by {
                    assert(parts@[i] matches Some(p) && p@ == ms[i]);
                }
                lemma_product_of_powers(ms, shares@);
                lemma_fib_power(n as nat);
            }
            Some(m.m01)
        },
        None => {
            proof {
                if n == 0 {
                    let w = workers as u64;
                    assert(n / w == 0 && n % w == 0) by (nonlinear_arith)
                        requires n == 0, w >= 1;
                    assert forall|i: int| 0 <= i < parts@.len() implies #[trigger] parts@[i] is Some by {
                        assert(shares@[i] == 0);
                    }
                }
            }
            None
        },
    }
}

} // verus!
