//! Arbitrary-precision naturals, held as little-endian base-2^32 limbs.
//! All arithmetic is carried out by `num_bigint::BigUint`.

use vstd::prelude::*;
use num_bigint::BigUint;

verus! {

/// Value of little-endian base-2^32 limbs.
pub open spec fn limbs_value(s: Seq<u32>) -> nat
    decreases s.len(),
{
    if s.len() == 0 {
        0
    } else {
        s[0] as nat + 4294967296 * limbs_value(s.drop_first())
    }
}

/// Value of big-endian decimal digit values.
pub open spec fn decimal_value(s: Seq<u8>) -> nat
    decreases s.len(),
{
    if s.len() == 0 {
        0
    } else {
        decimal_value(s.drop_last()) * 10 + s.last() as nat
    }
}

/// The decimal digit values of `v`, most significant first, without leading zeros
/// (`[0]` for zero).
pub open spec fn decimal_of(v: nat) -> Seq<u8>
    decreases v,
{
    if v < 10 {
        seq![v as u8]
    } else {
        decimal_of(v / 10).push((v % 10) as u8)
    }
}

/// `decimal_of` gives at least one digit, each below ten, and reads back as `v`.
pub proof fn lemma_decimal_of(v: nat)
    ensures
        decimal_of(v).len() > 0,
        all_decimal(decimal_of(v)),
        decimal_value(decimal_of(v)) == v,
    decreases v,
{
    if v >= 10 {
        lemma_decimal_of(v / 10);
        let d = decimal_of(v);
        assert(d.drop_last() == decimal_of(v / 10));
        assert(v == (v / 10) * 10 + v % 10);
    } else {
        assert(decimal_of(v).drop_last().len() == 0);
        assert(decimal_value(decimal_of(v).drop_last()) == 0);
    }
}

/// Every entry is a decimal digit value.
pub open spec fn all_decimal(s: Seq<u8>) -> bool {
    forall|i: int| 0 <= i < s.len() ==> s[i] < 10
}

/// A natural number of any size.
#[derive(Clone, Debug)]
pub struct Natural {
    /// Base-2^32 limbs, least significant first.
    pub limbs: Vec<u32>,
}

impl View for Natural {
    type V = nat;

    open spec fn view(&self) -> nat {
        limbs_value(self.limbs@)
    }
}

/// Relies on num-bigint: `BigUint::new` reads limbs least significant first, `+` adds,
/// and `to_u32_digits` gives the limbs of the sum in the same order.
#[verifier::external_body]
fn limbs_add(a: &Vec<u32>, b: &Vec<u32>) -> (r: Vec<u32>)
    ensures
        limbs_value(r@) == limbs_value(a@) + limbs_value(b@),
{
    (BigUint::new(a.clone()) + BigUint::new(b.clone())).to_u32_digits()
}

/// Relies on num-bigint: `BigUint::new` reads limbs least significant first, `*`
/// multiplies, and `to_u32_digits` gives the limbs of the product in the same order.
#[verifier::external_body]
fn limbs_mul(a: &Vec<u32>, b: &Vec<u32>) -> (r: Vec<u32>)
    ensures
        limbs_value(r@) == limbs_value(a@) * limbs_value(b@),
{
    (BigUint::new(a.clone()) * BigUint::new(b.clone())).to_u32_digits()
}

/// Relies on num-bigint: `-` on `BigUint` subtracts, and panics only when the
/// right operand is the larger, which `requires` excludes.
#[verifier::external_body]
fn limbs_sub(a: &Vec<u32>, b: &Vec<u32>) -> (r: Vec<u32>)
    requires
        limbs_value(b@) <= limbs_value(a@),
    ensures
        limbs_value(r@) == limbs_value(a@) - limbs_value(b@),
{
    (BigUint::new(a.clone()) - BigUint::new(b.clone())).to_u32_digits()
}

/// Relies on num-bigint: `BigUint`'s `Ord` is the numeric order.
#[verifier::external_body]
fn limbs_le(a: &Vec<u32>, b: &Vec<u32>) -> (r: bool)
    ensures
        r == (limbs_value(a@) <= limbs_value(b@)),
{
    BigUint::new(a.clone()) <= BigUint::new(b.clone())
}

/// Relies on num-bigint: `BigUint::to_radix_be(10)` gives the decimal digit values,
/// most significant first, with no leading zero (`[0]` for zero).
#[verifier::external_body]
fn limbs_to_decimal(a: &Vec<u32>) -> (r: Vec<u8>)
    ensures
        r@ == decimal_of(limbs_value(a@)),
{
    BigUint::new(a.clone()).to_radix_be(10)
}

/// Relies on num-bigint: `BigUint::from_radix_be(d, 10)` reads decimal digit values,
/// most significant first, and is `Some` when every value is below ten.
#[verifier::external_body]
fn limbs_from_decimal(d: &Vec<u8>) -> (r: Vec<u32>)
    requires
        all_decimal(d@),
    ensures
        limbs_value(r@) == decimal_value(d@),
{
    match BigUint::from_radix_be(d.as_slice(), 10) {
        Some(v) => v.to_u32_digits(),
        None => Vec::new(),
    }
}

impl Natural {
    /// Zero.
    pub fn zero() -> (r: Natural)
        ensures
            r@ == 0,
    {
        Natural { limbs: Vec::new() }
    }

    /// One.
    pub fn one() -> (r: Natural)
        ensures
            r@ == 1,
    {
        let r = Natural { limbs: vec![1u32] };
        assert(limbs_value(r.limbs@.drop_first()) == 0);
        r
    }

    /// The natural with the value of `n`.
    pub fn from_u64(n: u64) -> (r: Natural)
        ensures
            r@ == n as nat,
    {
        let lo: u64 = n % 4294967296;
        let hi: u64 = n / 4294967296;
        let r = Natural { limbs: vec![lo as u32, hi as u32] };
        assert(limbs_value(r.limbs@.drop_first().drop_first()) == 0);
        assert(limbs_value(r.limbs@.drop_first()) == hi);
        assert(n == lo + 4294967296 * hi) by (nonlinear_arith)
            requires lo == n % 4294967296, hi == n / 4294967296;
        r
    }

    /// A copy of this value.
    pub fn duplicate(&self) -> (r: Natural)
        ensures
            r@ == self@,
    {
        let limbs = self.limbs.clone();
        assert(limbs@ == self.limbs@);
        Natural { limbs }
    }

    /// The sum `self + o`.
    pub fn add(&self, o: &Natural) -> (r: Natural)
        ensures
            r@ == self@ + o@,
    {
        Natural { limbs: limbs_add(&self.limbs, &o.limbs) }
    }

    /// The product `self * o`.
    pub fn mul(&self, o: &Natural) -> (r: Natural)
        ensures
            r@ == self@ * o@,
    {
        Natural { limbs: limbs_mul(&self.limbs, &o.limbs) }
    }

    /// The difference `self - o`, for `o <= self`.
    pub fn sub(&self, o: &Natural) -> (r: Natural)
        requires
            o@ <= self@,
        ensures
            r@ == self@ - o@,
    {
        Natural { limbs: limbs_sub(&self.limbs, &o.limbs) }
    }

    /// Whether `self <= o`.
    pub fn le(&self, o: &Natural) -> (r: bool)
        ensures
            r == (self@ <= o@),
    {
        limbs_le(&self.limbs, &o.limbs)
    }

    /// Whether the two values are equal.
    pub fn equals(&self, o: &Natural) -> (r: bool)
        ensures
            r == (self@ == o@),
    {
        self.le(o) && o.le(self)
    }

    /// Decimal digit values, most significant first; `[0]` for zero.
    pub fn to_decimal_digits(&self) -> (r: Vec<u8>)
        ensures
            r@ == decimal_of(self@),
            r@.len() > 0,
            all_decimal(r@),
            decimal_value(r@) == self@,
    {
        proof {
            lemma_decimal_of(self@);
        }
        limbs_to_decimal(&self.limbs)
    }

    /// The decimal form as ASCII text, most significant digit first.
    pub fn to_decimal(&self) -> (r: Vec<u8>)
        ensures
            r@ == decimal_of(self@).map_values(|d: u8| (d + 48) as u8),
    {
        let d = self.to_decimal_digits();
        let mut r: Vec<u8> = Vec::new();
        let mut i: usize = 0;
        while i < d.len()
            invariant
                i <= d@.len(),
                all_decimal(d@),
                r@ == d@.subrange(0, i as int).map_values(|x: u8| (x + 48) as u8),
            decreases d@.len() - i,
        {
            r.push(d[i] + 48);
            i = i + 1;
            assert(r@ =~= d@.subrange(0, i as int).map_values(|x: u8| (x + 48) as u8));
        }
        assert(d@.subrange(0, d@.len() as int) =~= d@);
        r
    }

    /// The natural whose decimal digit values, most significant first, are `d`.
    pub fn from_decimal_digits(d: &Vec<u8>) -> (r: Natural)
        requires
            all_decimal(d@),
        ensures
            r@ == decimal_value(d@),
    {
        Natural { limbs: limbs_from_decimal(d) }
    }
}

} // verus!
