//! The checkpoint record: a computation state as text of three lines,
//! `index=<decimal>`, `a=<decimal>` and `b=<decimal>`, each ended by a newline.

use vstd::prelude::*;
use crate::natural::{Natural, decimal_of, decimal_value, all_decimal, lemma_decimal_of};
use crate::state::ComputationState;

verus! {

/// ASCII text of decimal digit values.
pub open spec fn ascii_digits(d: Seq<u8>) -> Seq<u8> {
    d.map_values(|x: u8| (x + 48) as u8)
}

pub open spec fn is_digit_char(c: u8) -> bool {
    48 <= c <= 57
}

/// `index=`
pub open spec fn index_key() -> Seq<u8> {
    seq![105u8, 110u8, 100u8, 101u8, 120u8, 61u8]
}

/// A newline, then `a=`.
pub open spec fn a_key() -> Seq<u8> {
    seq![10u8, 97u8, 61u8]
}

/// A newline, then `b=`.
pub open spec fn b_key() -> Seq<u8> {
    seq![10u8, 98u8, 61u8]
}

/// The record text for the digit values of the three fields.
#[verifier::opaque]
pub open spec fn record_layout(t: (Seq<u8>, Seq<u8>, Seq<u8>)) -> Seq<u8> {
    index_key() + ascii_digits(t.0) + a_key() + ascii_digits(t.1) + b_key() + ascii_digits(t.2)
        + seq![10u8]
}

/// `bytes` is a record whose fields have the digit values `t`, and whose index
/// fits in 64 bits.
pub open spec fn is_record(bytes: Seq<u8>, t: (Seq<u8>, Seq<u8>, Seq<u8>)) -> bool {
    &&& t.0.len() > 0
    &&& t.1.len() > 0
    &&& t.2.len() > 0
    &&& all_decimal(t.0)
    &&& all_decimal(t.1)
    &&& all_decimal(t.2)
    &&& decimal_value(t.0) <= u64::MAX
    &&& bytes == record_layout(t)
}

/// The values `(index, a, b)` that `bytes` records, if it is a record.
pub open spec fn parse_record(bytes: Seq<u8>) -> Option<(nat, nat, nat)> {
    if exists|t: (Seq<u8>, Seq<u8>, Seq<u8>)| is_record(bytes, t) {
        let t = choose|t: (Seq<u8>, Seq<u8>, Seq<u8>)| is_record(bytes, t);
        Some((decimal_value(t.0), decimal_value(t.1), decimal_value(t.2)))
    } else {
        None
    }
}

/// The record of index `i` and values `a`, `b`, in shortest decimal.
pub open spec fn encoding(i: nat, a: nat, b: nat) -> Seq<u8> {
    record_layout((decimal_of(i), decimal_of(a), decimal_of(b)))
}

/// Where each part of a record stands.
proof fn lemma_record_positions(bytes: Seq<u8>, t: (Seq<u8>, Seq<u8>, Seq<u8>))
    requires
        is_record(bytes, t),
    ensures
        bytes.len() == 13 + (t.0.len() as int) + (t.1.len() as int) + (t.2.len() as int),
        bytes.subrange(0, 6) == index_key(),
        bytes.subrange(6, 6 + (t.0.len() as int)) == ascii_digits(t.0),
        bytes.subrange(6 + (t.0.len() as int), 9 + (t.0.len() as int)) == a_key(),
        bytes.subrange(9 + (t.0.len() as int), 9 + (t.0.len() as int) + (t.1.len() as int)) == ascii_digits(t.1),
        bytes.subrange(9 + (t.0.len() as int) + (t.1.len() as int), 12 + (t.0.len() as int) + (t.1.len() as int)) == b_key(),
        bytes.subrange(12 + (t.0.len() as int) + (t.1.len() as int), 12 + (t.0.len() as int) + (t.1.len() as int) + (t.2.len() as int))
            == ascii_digits(t.2),
        bytes[12 + (t.0.len() as int) + (t.1.len() as int) + (t.2.len() as int)] == 10,
        bytes[6 + (t.0.len() as int)] == 10,
        bytes[9 + (t.0.len() as int) + (t.1.len() as int)] == 10,
{
    let l0 = (t.0.len() as int);
    let l1 = (t.1.len() as int);
    let l2 = (t.2.len() as int);
    let s1 = index_key() + ascii_digits(t.0);
    let s2 = s1 + a_key();
    let s3 = s2 + ascii_digits(t.1);
    let s4 = s3 + b_key();
    let s5 = s4 + ascii_digits(t.2);
    reveal(record_layout);
    assert(bytes == s5 + seq![10u8]);
    assert(bytes.subrange(0, 6) =~= index_key());
    assert(bytes.subrange(6, 6 + l0) =~= ascii_digits(t.0));
    assert(bytes.subrange(6 + l0, 9 + l0) =~= a_key());
    assert(bytes.subrange(9 + l0, 9 + l0 + l1) =~= ascii_digits(t.1));
    assert(bytes.subrange(9 + l0 + l1, 12 + l0 + l1) =~= b_key());
    assert(bytes.subrange(12 + l0 + l1, 12 + l0 + l1 + l2) =~= ascii_digits(t.2));
    assert(bytes[6 + l0] == bytes.subrange(6 + l0, 9 + l0)[0]);
    assert(bytes[9 + l0 + l1] == bytes.subrange(9 + l0 + l1, 12 + l0 + l1)[0]);
}

/// Decimal text is a digit string of one set of digit values.
proof fn lemma_ascii_injective(x: Seq<u8>, y: Seq<u8>)
    requires
        all_decimal(x),
        all_decimal(y),
        ascii_digits(x) == ascii_digits(y),
    ensures
        x == y,
{
    assert(x.len() == ascii_digits(x).len());
    assert forall|k: int| 0 <= k < x.len() implies x[k] == y[k] by {
        assert(x[k] < 10 && y[k] < 10);
        assert(ascii_digits(x)[k] == (x[k] + 48) as u8);
        assert(ascii_digits(y)[k] == (y[k] + 48) as u8);
    }
    assert(x =~= y);
}

/// A digit run that ends at a newline has one length.
proof fn lemma_run_length(bytes: Seq<u8>, start: int, x: Seq<u8>, y: Seq<u8>)
    requires
        0 <= start,
        start + x.len() < bytes.len(),
        start + y.len() < bytes.len(),
        all_decimal(x),
        all_decimal(y),
        bytes.subrange(start, start + x.len()) == ascii_digits(x),
        bytes.subrange(start, start + y.len()) == ascii_digits(y),
        bytes[start + x.len()] == 10,
        bytes[start + y.len()] == 10,
    ensures
        x.len() == y.len(),
{
    if x.len() < y.len() {
        let k = x.len() as int;
        assert(bytes.subrange(start, start + y.len())[k] == ascii_digits(y)[k]);
    }
    if y.len() < x.len() {
        let k = y.len() as int;
        assert(bytes.subrange(start, start + x.len())[k] == ascii_digits(x)[k]);
    }
}

/// A text is a record of at most one set of digit strings.
proof fn lemma_record_unique(bytes: Seq<u8>, t: (Seq<u8>, Seq<u8>, Seq<u8>), u: (Seq<u8>, Seq<u8>, Seq<u8>))
    requires
        is_record(bytes, t),
        is_record(bytes, u),
    ensures
        t == u,
{
    lemma_record_positions(bytes, t);
    lemma_record_positions(bytes, u);
    let t0 = (t.0.len() as int);
    let t1 = (t.1.len() as int);
    assert(bytes[6 + t0] == bytes.subrange(6 + t0, 9 + t0)[0]);
    assert(bytes[6 + (u.0.len() as int)] == bytes.subrange(6 + (u.0.len() as int), 9 + (u.0.len() as int))[0]);
    lemma_run_length(bytes, 6, t.0, u.0);
    lemma_ascii_injective(t.0, u.0);
    assert(bytes[9 + t0 + t1] == bytes.subrange(9 + t0 + t1, 12 + t0 + t1)[0]);
    assert(bytes[9 + t0 + (u.1.len() as int)] == bytes.subrange(9 + t0 + (u.1.len() as int), 12 + t0 + (u.1.len() as int))[0]);
    lemma_run_length(bytes, 9 + t0, t.1, u.1);
    lemma_ascii_injective(t.1, u.1);
    lemma_ascii_injective(t.2, u.2);
}

/// A record reads back as what it was written from: for every index `i` that
/// fits in 64 bits and all `a`, `b`, the text written for `(i, a, b)` parses
/// as `(i, a, b)`.
pub proof fn checkpoint_round_trip(i: nat, a: nat, b: nat)
    requires
        i <= u64::MAX,
    ensures
        parse_record(encoding(i, a, b)) == Some((i, a, b)),
{
    lemma_decimal_of(i);
    lemma_decimal_of(a);
    lemma_decimal_of(b);
    let bytes = encoding(i, a, b);
    let t = (decimal_of(i), decimal_of(a), decimal_of(b));
    assert(is_record(bytes, t));
    let u = choose|u: (Seq<u8>, Seq<u8>, Seq<u8>)| is_record(bytes, u);
    lemma_record_unique(bytes, t, u);
}

/// A maximal run of digit characters that covers a digit string ending at a
/// newline is exactly that string.
proof fn lemma_run_ends(bytes: Seq<u8>, start: int, d: Seq<u8>, end: int)
    requires
        0 <= start <= end <= bytes.len(),
        start + d.len() < bytes.len(),
        all_decimal(d),
        bytes.subrange(start, start + d.len()) == ascii_digits(d),
        bytes[start + d.len()] == 10,
        forall|k: int| start <= k < end ==> is_digit_char(bytes[k]),
        end < bytes.len() ==> !is_digit_char(bytes[end]),
    ensures
        end == start + d.len(),
{
    if end < start + d.len() {
        assert(bytes.subrange(start, start + d.len())[end - start] == ascii_digits(d)[end - start]);
        assert(d[end - start] < 10);
    }
    if end > start + d.len() {
        assert(is_digit_char(bytes[start + d.len()]));
    }
}

/// A decimal prefix is worth at most the whole.
proof fn lemma_decimal_prefix(s: Seq<u8>, i: int)
    requires
        0 <= i <= s.len(),
    ensures
        decimal_value(s.subrange(0, i)) <= decimal_value(s),
    decreases s.len() - i,
{
    if i < s.len() {
        let t = s.drop_last();
        lemma_decimal_prefix(t, i);
        assert(t.subrange(0, i) =~= s.subrange(0, i));
    } else {
        assert(s.subrange(0, i) =~= s);
    }
}

/// Parts found in their places make a record, and the only one.
proof fn lemma_assembled(b: Seq<u8>, t: (Seq<u8>, Seq<u8>, Seq<u8>), e1: int, e2: int, e3: int)
    requires
        6 < e1,
        e1 + 3 < e2,
        e2 + 3 < e3,
        b.len() == e3 + 1,
        b[e3] == 10,
        b.subrange(0, 6) == index_key(),
        b.subrange(6, e1) == ascii_digits(t.0),
        b.subrange(e1, e1 + 3) == a_key(),
        b.subrange(e1 + 3, e2) == ascii_digits(t.1),
        b.subrange(e2, e2 + 3) == b_key(),
        b.subrange(e2 + 3, e3) == ascii_digits(t.2),
        all_decimal(t.0),
        all_decimal(t.1),
        all_decimal(t.2),
        decimal_value(t.0) <= u64::MAX,
    ensures
        parse_record(b) == Some((decimal_value(t.0), decimal_value(t.1), decimal_value(t.2))),
{
    reveal(record_layout);
    assert(b.subrange(0, e1) =~= index_key() + ascii_digits(t.0));
    assert(b.subrange(0, e1 + 3) =~= b.subrange(0, e1) + a_key());
    assert(b.subrange(0, e2) =~= b.subrange(0, e1 + 3) + ascii_digits(t.1));
    assert(b.subrange(0, e2 + 3) =~= b.subrange(0, e2) + b_key());
    assert(b.subrange(0, e3) =~= b.subrange(0, e2 + 3) + ascii_digits(t.2));
    assert(b =~= b.subrange(0, e3) + seq![10u8]);
    assert(is_record(b, t));
    let u = choose|u: (Seq<u8>, Seq<u8>, Seq<u8>)| is_record(b, u);
    lemma_record_unique(b, t, u);
}

/// Whether `key` stands in `bytes` at `pos`.
fn key_at(bytes: &[u8], pos: usize, key: &Vec<u8>) -> (r: bool)
    ensures
        r == (pos + key@.len() <= bytes@.len() && bytes@.subrange(pos as int, pos + key@.len())
            == key@),
{
    if pos > bytes.len() || key.len() > bytes.len() - pos {
        return false;
    }
    let n = bytes.len();
    let mut k: usize = 0;
    while k < key.len()
        invariant
            n == bytes@.len(),
            pos + key@.len() <= bytes@.len(),
            k <= key@.len(),
            forall|j: int| 0 <= j < k ==> bytes@[pos + j] == key@[j],
        decreases key@.len() - k,
    {
        if bytes[pos + k] != key[k] {
            assert(bytes@.subrange(pos as int, pos + key@.len())[k as int] != key@[k as int]);
            return false;
        }
        k = k + 1;
    }
    assert(bytes@.subrange(pos as int, pos + key@.len()) =~= key@);
    true
}

/// The end of the run of digit characters that starts at `pos`.
fn digit_run(bytes: &[u8], pos: usize) -> (end: usize)
    requires
        pos <= bytes@.len(),
    ensures
        pos <= end <= bytes@.len(),
        forall|k: int| pos <= k < end ==> is_digit_char(bytes@[k]),
        end < bytes@.len() ==> !is_digit_char(bytes@[end as int]),
{
    let mut end = pos;
    while end < bytes.len() && 48 <= bytes[end] && bytes[end] <= 57
        invariant
            pos <= end <= bytes@.len(),
            forall|k: int| pos <= k < end ==> is_digit_char(bytes@[k]),
        decreases bytes@.len() - end,
    {
        end = end + 1;
    }
    end
}

/// The digit values of the digit characters in `from..to`.
fn digit_values(bytes: &[u8], from: usize, to: usize) -> (r: Vec<u8>)
    requires
        from <= to <= bytes@.len(),
        forall|k: int| from <= k < to ==> is_digit_char(bytes@[k]),
    ensures
        all_decimal(r@),
        r@.len() == to - from,
        ascii_digits(r@) == bytes@.subrange(from as int, to as int),
{
    let mut r: Vec<u8> = Vec::new();
    let mut k: usize = from;
    while k < to
        invariant
            from <= k <= to,
            to <= bytes@.len(),
            forall|j: int| from <= j < to ==> is_digit_char(bytes@[j]),
            r@.len() == k - from,
            forall|j: int| 0 <= j < r@.len() ==> r@[j] < 10 && r@[j] + 48 == bytes@[from + j],
        decreases to - k,
    {
        r.push(bytes[k] - 48);
        k = k + 1;
    }
    assert(ascii_digits(r@) =~= bytes@.subrange(from as int, to as int));
    r
}

/// The value of decimal digit values, if it fits in 64 bits.
fn parse_u64(d: &Vec<u8>) -> (r: Option<u64>)
    requires
        all_decimal(d@),
    ensures
        match r {
            Some(v) => v == decimal_value(d@),
            None => decimal_value(d@) > u64::MAX,
        },
{
    let mut v: u64 = 0;
    let mut i: usize = 0;
    assert(d@.subrange(0, 0).len() == 0);
    while i < d.len()
        invariant
            i <= d@.len(),
            all_decimal(d@),
            v == decimal_value(d@.subrange(0, i as int)),
        decreases d@.len() - i,
    {
        let digit = d[i] as u64;
        assert(d@.subrange(0, i + 1).drop_last() =~= d@.subrange(0, i as int));
        if v > (u64::MAX - digit) / 10 {
            proof {
                assert(v * 10 + digit > u64::MAX) by (nonlinear_arith)
                    requires v > (u64::MAX - digit) / 10, digit < 10;
                lemma_decimal_prefix(d@, i + 1);
            }
            return None;
        }
        assert(v * 10 + digit <= u64::MAX) by (nonlinear_arith)
            requires v <= (u64::MAX - digit) / 10, digit < 10;
        v = v * 10 + digit;
        i = i + 1;
    }
    assert(d@.subrange(0, d@.len() as int) =~= d@);
    Some(v)
}

/// The bytes of `d` as ASCII decimal text, appended to `out`.
fn push_ascii(out: &mut Vec<u8>, d: &Vec<u8>)
    requires
        all_decimal(d@),
    ensures
        final(out)@ == old(out)@ + ascii_digits(d@),
{
    let mut k: usize = 0;
    while k < d.len()
        invariant
            k <= d@.len(),
            all_decimal(d@),
            out@ == old(out)@ + ascii_digits(d@.subrange(0, k as int)),
        decreases d@.len() - k,
    {
        out.push(d[k] + 48);
        k = k + 1;
        assert(ascii_digits(d@.subrange(0, k as int)) =~= ascii_digits(d@.subrange(0, k - 1)).push(
            (d@[k - 1] + 48) as u8,
        ));
    }
    assert(d@.subrange(0, d@.len() as int) =~= d@);
}

/// The checkpoint record of `state`, in shortest decimal.
pub fn encode_state(state: &ComputationState) -> (r: Vec<u8>)
    ensures
        r@ == encoding(state.index as nat, state.a@, state.b@),
{
    let di = Natural::from_u64(state.index).to_decimal_digits();
    let da = state.a.to_decimal_digits();
    let db = state.b.to_decimal_digits();
    let mut r: Vec<u8> = vec![105u8, 110u8, 100u8, 101u8, 120u8, 61u8];
    assert(r@ =~= index_key());
    push_ascii(&mut r, &di);
    r.push(10u8);
    r.push(97u8);
    r.push(61u8);
    let ghost r1 = index_key() + ascii_digits(di@);
    assert(r@ =~= r1 + a_key());
    push_ascii(&mut r, &da);
    r.push(10u8);
    r.push(98u8);
    r.push(61u8);
    let ghost r2 = r1 + a_key() + ascii_digits(da@);
    assert(r@ =~= r2 + b_key());
    push_ascii(&mut r, &db);
    r.push(10u8);
    proof {
        reveal(record_layout);
        let r3 = r2 + b_key() + ascii_digits(db@);
        assert(r@ =~= r3 + seq![10u8]);
    }
    r
}

/// The state that `bytes` records; `None` when `bytes` is not a record, or its
/// index does not fit in 64 bits.
pub fn decode_state(bytes: &[u8]) -> (r: Option<ComputationState>)
    ensures
        match r {
            Some(s) => parse_record(bytes@) == Some((s.index as nat, s.a@, s.b@)),
            None => parse_record(bytes@) is None,
        },
{
    let ghost has = exists|t: (Seq<u8>, Seq<u8>, Seq<u8>)| is_record(bytes@, t);
    let ghost w = choose|t: (Seq<u8>, Seq<u8>, Seq<u8>)| is_record(bytes@, t);
    proof {
        if has {
            lemma_record_positions(bytes@, w);
        }
    }
    let n = bytes.len();
    let key_index: Vec<u8> = vec![105u8, 110u8, 100u8, 101u8, 120u8, 61u8];
    let key_a: Vec<u8> = vec![10u8, 97u8, 61u8];
    let key_b: Vec<u8> = vec![10u8, 98u8, 61u8];
    assert(key_index@ =~= index_key());
    assert(key_a@ =~= a_key());
    assert(key_b@ =~= b_key());
    if !key_at(bytes, 0, &key_index) {
        return None;
    }
    let index_end = digit_run(bytes, 6);
    proof {
        if has {
            lemma_run_ends(bytes@, 6, w.0, index_end as int);
        }
    }
    if index_end == 6 || !key_at(bytes, index_end, &key_a) {
        return None;
    }
    let a_start = index_end + 3;
    let a_end = digit_run(bytes, a_start);
    proof {
        if has {
            lemma_run_ends(bytes@, a_start as int, w.1, a_end as int);
        }
    }
    if a_end == a_start || !key_at(bytes, a_end, &key_b) {
        return None;
    }
    let b_start = a_end + 3;
    let b_end = digit_run(bytes, b_start);
    proof {
        if has {
            lemma_run_ends(bytes@, b_start as int, w.2, b_end as int);
        }
    }
    if b_end == b_start || b_end >= n || n - 1 != b_end || bytes[b_end] != 10 {
        return None;
    }
    let di = digit_values(bytes, 6, index_end);
    let da = digit_values(bytes, a_start, a_end);
    let db = digit_values(bytes, b_start, b_end);
    let ghost t = (di@, da@, db@);
    proof {
        if has {
            lemma_ascii_injective(di@, w.0);
            assert(b_end as int == b_start + w.2.len());
        }
    }
    let index = match parse_u64(&di) {
        Some(v) => v,
        None => {
            return None;
        },
    };
    proof {
        lemma_assembled(bytes@, t, index_end as int, a_end as int, b_end as int);
    }
    let a = Natural::from_decimal_digits(&da);
    let b = Natural::from_decimal_digits(&db);
    Some(ComputationState { index, a, b })
}

} // verus!
