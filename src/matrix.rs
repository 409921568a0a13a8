//! 2x2 matrices of naturals, binary exponentiation, and the Fibonacci numbers
//! read off powers of `[[1, 1], [1, 0]]`.

use vstd::prelude::*;
use crate::natural::Natural;
use vstd::arithmetic::mul::{
    lemma_mul_is_associative, lemma_mul_is_distributive_add,
    lemma_mul_is_distributive_add_other_way,
};

verus! {

/// The Fibonacci sequence: 0, 1, 1, 2, 3, 5, ...
pub open spec fn fib(n: nat) -> nat
    decreases n,
{
    if n == 0 {
        0
    } else if n == 1 {
        1
    } else {
        fib((n - 1) as nat) + fib((n - 2) as nat)
    }
}

/// The term before `fib(n)`, with `fib(-1) == 1`.
pub open spec fn fib_prev(n: nat) -> nat {
    if n == 0 {
        1
    } else {
        fib((n - 1) as nat)
    }
}

/// A 2x2 matrix of integers `[[a, b], [c, d]]`.
pub struct Mat2 {
    pub a: int,
    pub b: int,
    pub c: int,
    pub d: int,
}

pub open spec fn mat_identity() -> Mat2 {
    Mat2 { a: 1, b: 0, c: 0, d: 1 }
}

/// The Fibonacci matrix `[[1, 1], [1, 0]]`.
pub open spec fn mat_fib() -> Mat2 {
    Mat2 { a: 1, b: 1, c: 1, d: 0 }
}

/// The matrix product `x * y`.
pub open spec fn mat_mul(x: Mat2, y: Mat2) -> Mat2 {
    Mat2 {
        a: x.a * y.a + x.b * y.c,
        b: x.a * y.b + x.b * y.d,
        c: x.c * y.a + x.d * y.c,
        d: x.c * y.b + x.d * y.d,
    }
}

/// `m` raised to `e`.
pub open spec fn mat_pow(m: Mat2, e: nat) -> Mat2
    decreases e,
{
    if e == 0 {
        mat_identity()
    } else {
        mat_mul(mat_pow(m, (e - 1) as nat), m)
    }
}

/// The closed form of the Fibonacci matrix's powers.
pub open spec fn fib_block(n: nat) -> Mat2 {
    Mat2 { a: fib(n + 1) as int, b: fib(n) as int, c: fib(n) as int, d: fib_prev(n) as int }
}

proof fn lemma_dot_assoc(xa: int, xb: int, ya: int, yb: int, yc: int, yd: int, za: int, zc: int)
    ensures
        (xa * ya + xb * yc) * za + (xa * yb + xb * yd) * zc == xa * (ya * za + yb * zc) + xb * (
        yc * za + yd * zc),
{
    lemma_mul_is_distributive_add_other_way(za, xa * ya, xb * yc);
    lemma_mul_is_distributive_add_other_way(zc, xa * yb, xb * yd);
    lemma_mul_is_distributive_add(xa, ya * za, yb * zc);
    lemma_mul_is_distributive_add(xb, yc * za, yd * zc);
    lemma_mul_is_associative(xa, ya, za);
    lemma_mul_is_associative(xa, yb, zc);
    lemma_mul_is_associative(xb, yc, za);
    lemma_mul_is_associative(xb, yd, zc);
}

/// Matrix multiplication is associative.
pub proof fn lemma_mul_assoc(x: Mat2, y: Mat2, z: Mat2)
    ensures
        mat_mul(mat_mul(x, y), z) == mat_mul(x, mat_mul(y, z)),
{
    lemma_dot_assoc(x.a, x.b, y.a, y.b, y.c, y.d, z.a, z.c);
    lemma_dot_assoc(x.a, x.b, y.a, y.b, y.c, y.d, z.b, z.d);
    lemma_dot_assoc(x.c, x.d, y.a, y.b, y.c, y.d, z.a, z.c);
    lemma_dot_assoc(x.c, x.d, y.a, y.b, y.c, y.d, z.b, z.d);
}

/// The identity is neutral on both sides.
pub proof fn lemma_mul_identity(x: Mat2)
    ensures
        mat_mul(mat_identity(), x) == x,
        mat_mul(x, mat_identity()) == x,
{
}

/// Raising to a sum of exponents is the product of the two powers:
/// `m^(a + b) == m^a * m^b` for all naturals `a` and `b`.
pub proof fn power_adds(m: Mat2, a: nat, b: nat)
    ensures
        mat_pow(m, a + b) == mat_mul(mat_pow(m, a), mat_pow(m, b)),
    decreases b,
{
    if b == 0 {
        lemma_mul_identity(mat_pow(m, a));
    } else {
        let b1 = (b - 1) as nat;
        power_adds(m, a, b1);
        assert(mat_pow(m, a + b) == mat_mul(mat_pow(m, a + b1), m));
        lemma_mul_assoc(mat_pow(m, a), mat_pow(m, b1), m);
    }
}

/// Squaring the base doubles the exponent: `(m * m)^k == m^(2k)`.
pub proof fn lemma_pow_square(m: Mat2, k: nat)
    ensures
        mat_pow(mat_mul(m, m), k) == mat_pow(m, 2 * k),
    decreases k,
{
    if k > 0 {
        let k1 = (k - 1) as nat;
        lemma_pow_square(m, k1);
        lemma_mul_assoc(mat_pow(m, 2 * k1), m, m);
        assert(mat_pow(m, 2 * k1 + 1) == mat_mul(mat_pow(m, 2 * k1), m));
        assert(mat_pow(m, 2 * k1 + 2) == mat_mul(mat_pow(m, 2 * k1 + 1), m));
        assert(2 * k == 2 * k1 + 2);
    }
}

/// A power of two factors through the square: `m^(2q + 1) == m * (m * m)^q`.
pub proof fn lemma_pow_odd(m: Mat2, q: nat)
    ensures
        mat_pow(m, 2 * q + 1) == mat_mul(m, mat_pow(mat_mul(m, m), q)),
{
    power_adds(m, 1, 2 * q);
    lemma_pow_square(m, q);
    assert(mat_pow(m, 1) == mat_mul(mat_pow(m, 0), m));
    lemma_mul_identity(m);
    assert(1 + 2 * q == 2 * q + 1);
}

/// The powers of the Fibonacci matrix hold consecutive Fibonacci numbers:
/// `[[1, 1], [1, 0]]^n == [[F(n+1), F(n)], [F(n), F(n-1)]]`.
pub proof fn lemma_fib_power(n: nat)
    ensures
        mat_pow(mat_fib(), n) == fib_block(n),
    decreases n,
{
    if n > 0 {
        let n1 = (n - 1) as nat;
        lemma_fib_power(n1);
        assert(fib(n1 + 2) == fib(n1 + 1) + fib(n1));
        if n1 > 0 {
            assert(fib(n1 + 1) == fib(n1) + fib((n1 - 1) as nat));
        }
    }
}

/// A 2x2 matrix of naturals `[[m00, m01], [m10, m11]]`.
#[derive(Clone, Debug)]
pub struct Matrix {
    pub m00: Natural,
    pub m01: Natural,
    pub m10: Natural,
    pub m11: Natural,
}

impl View for Matrix {
    type V = Mat2;

    open spec fn view(&self) -> Mat2 {
        Mat2 { a: self.m00@ as int, b: self.m01@ as int, c: self.m10@ as int, d: self.m11@ as int }
    }
}

impl Matrix {
    /// The identity matrix.
    pub fn identity() -> (r: Matrix)
        ensures
            r@ == mat_identity(),
    {
        Matrix { m00: Natural::one(), m01: Natural::zero(), m10: Natural::zero(), m11: Natural::one() }
    }

    /// The Fibonacci matrix `[[1, 1], [1, 0]]`.
    pub fn fibonacci_matrix() -> (r: Matrix)
        ensures
            r@ == mat_fib(),
    {
        Matrix { m00: Natural::one(), m01: Natural::one(), m10: Natural::one(), m11: Natural::zero() }
    }

    /// A copy of this matrix.
    pub fn duplicate(&self) -> (r: Matrix)
        ensures
            r@ == self@,
    {
        Matrix {
            m00: self.m00.duplicate(),
            m01: self.m01.duplicate(),
            m10: self.m10.duplicate(),
            m11: self.m11.duplicate(),
        }
    }
}

/// The matrix product `a * b`.
pub fn matrix_mult(a: &Matrix, b: &Matrix) -> (r: Matrix)
    ensures
        r@ == mat_mul(a@, b@),
{
    Matrix {
        m00: a.m00.mul(&b.m00).add(&a.m01.mul(&b.m10)),
        m01: a.m00.mul(&b.m01).add(&a.m01.mul(&b.m11)),
        m10: a.m10.mul(&b.m00).add(&a.m11.mul(&b.m10)),
        m11: a.m10.mul(&b.m01).add(&a.m11.mul(&b.m11)),
    }
}

/// `matrix` raised to `exp`, by binary exponentiation.
pub fn matrix_pow(matrix: &Matrix, exp: u64) -> (r: Matrix)
    ensures
        r@ == mat_pow(matrix@, exp as nat),
{
    let mut result = Matrix::identity();
    let mut base = matrix.duplicate();
    let mut e: u64 = exp;
    proof {
        lemma_mul_identity(mat_pow(matrix@, exp as nat));
    }
    while e > 0
        invariant
            mat_mul(result@, mat_pow(base@, e as nat)) == mat_pow(matrix@, exp as nat),
        decreases e,
    {
        let q: u64 = e / 2;
        proof {
            lemma_pow_square(base@, q as nat);
            if e % 2 == 1 {
                lemma_pow_odd(base@, q as nat);
                lemma_mul_assoc(result@, base@, mat_pow(mat_mul(base@, base@), q as nat));
                assert(e as nat == 2 * (q as nat) + 1);
            } else {
                assert(e as nat == 2 * (q as nat));
            }
        }
        if e % 2 == 1 {
            result = matrix_mult(&result, &base);
        }
        base = matrix_mult(&base, &base);
        e = q;
    }
    proof {
        lemma_mul_identity(result@);
    }
    result
}

/// The `n`-th Fibonacci number, read off a power of the Fibonacci matrix.
pub fn fibonacci(n: u64) -> (r: Natural)
    ensures
        r@ == fib(n as nat),
{
    if n == 0 {
        return Natural::zero();
    }
    if n == 1 {
        return Natural::one();
    }
    let fib_matrix = Matrix::fibonacci_matrix();
    let result_matrix = matrix_pow(&fib_matrix, n - 1);
    proof {
        lemma_fib_power((n - 1) as nat);
    }
    result_matrix.m00
}

} // verus!
