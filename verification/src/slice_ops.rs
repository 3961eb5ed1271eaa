//! Inner products over the proof field.
//!
//! The inner product of two committed columns underlies every algebraic
//! check of the query protocol. When the two sequences differ in length the
//! shorter one is implicitly zero extended: the extra elements of the longer
//! sequence contribute nothing. That is a declared policy, not truncation.

use vstd::prelude::*;
use vstd::seq_lib::{commutative_foldr, lemma_fold_right_permutation};
use vstd::arithmetic::div_mod::{lemma_add_mod_noop, lemma_add_mod_noop_right, lemma_mod_bound, lemma_small_mod};
use crate::field::{fadd, fmul, freduce, modulus, FieldElement};
use crate::hash::{field_embed_of, hash_to_field};

verus! {

/// Below this many elements the fused multiply-accumulate stays sequential.
pub const PARALLEL_MIN_LEN: usize = 64;

/// Every element of the sequence is a canonical field element.
pub open spec fn field_seq_inv(s: Seq<FieldElement>) -> bool {
    forall|i: int| 0 <= i < s.len() ==> (#[trigger] s[i]).inv()
}

/// The mathematical values of a sequence of field elements.
pub open spec fn field_vals(s: Seq<FieldElement>) -> Seq<int> {
    Seq::new(s.len(), |i: int| s[i].val())
}

/// The field embeddings of a sequence of signed integers.
pub open spec fn i128_embeds(s: Seq<i128>) -> Seq<int> {
    Seq::new(s.len(), |i: int| freduce(s[i] as int))
}

/// The field embeddings of a sequence of byte strings, via hash-to-field.
pub open spec fn byte_embeds(s: Seq<Vec<u8>>) -> Seq<int> {
    Seq::new(s.len(), |i: int| field_embed_of(s[i]@))
}

/// The inner product of `x[lo..hi]` and `y[lo..hi]` in the proof field.
pub open spec fn ip_range_spec(x: Seq<int>, y: Seq<int>, lo: int, hi: int) -> int
    decreases hi - lo,
{
    if lo >= hi {
        0
    } else {
        fadd(ip_range_spec(x, y, lo, hi - 1), fmul(x[hi - 1], y[hi - 1]))
    }
}

/// The inner product of two sequences, the shorter zero extended.
pub open spec fn inner_product_spec(x: Seq<int>, y: Seq<int>) -> int {
    ip_range_spec(x, y, 0, if x.len() <= y.len() { x.len() as int } else { y.len() as int })
}

/// A range inner product is a canonical field element.
pub proof fn lemma_ip_range_bound(x: Seq<int>, y: Seq<int>, lo: int, hi: int)
    ensures
        0 <= ip_range_spec(x, y, lo, hi) < modulus(),
    decreases hi - lo,
{
    if lo >= hi {
    } else {
        lemma_ip_range_bound(x, y, lo, hi - 1);
        lemma_mod_bound(
            ip_range_spec(x, y, lo, hi - 1) + fmul(x[hi - 1], y[hi - 1]),
            modulus(),
        );
    }
}

/// A range inner product splits at any midpoint.
pub proof fn lemma_ip_range_split(x: Seq<int>, y: Seq<int>, lo: int, mid: int, hi: int)
    requires
        lo <= mid <= hi,
    ensures
        ip_range_spec(x, y, lo, hi) == fadd(
            ip_range_spec(x, y, lo, mid),
            ip_range_spec(x, y, mid, hi),
        ),
    decreases hi - mid,
{
    if mid == hi {
        lemma_ip_range_bound(x, y, lo, hi);
        lemma_small_mod(ip_range_spec(x, y, lo, hi) as nat, modulus() as nat);
    } else {
        lemma_ip_range_split(x, y, lo, mid, hi - 1);
        let a = ip_range_spec(x, y, lo, mid);
        let b = ip_range_spec(x, y, mid, hi - 1);
        let m = fmul(x[hi - 1], y[hi - 1]);
        // ip(lo,hi) == fadd(fadd(a, b), m) == fadd(a, fadd(b, m)) == fadd(a, ip(mid,hi))
        lemma_add_mod_noop_right(a + b, m, modulus());
        lemma_add_mod_noop_right(a, b + m, modulus());
        assert(fadd(fadd(a, b), m) == (a + b + m) % modulus());
        assert(fadd(a, fadd(b, m)) == (a + b + m) % modulus());
    }
}

/// The sequential fused multiply-accumulate over an index range.
pub fn ip_range(a: &Vec<FieldElement>, b: &Vec<FieldElement>, lo: usize, hi: usize) -> (r:
    FieldElement)
    requires
        field_seq_inv(a@),
        field_seq_inv(b@),
        lo <= hi,
        hi <= a@.len(),
        hi <= b@.len(),
    ensures
        r.inv(),
        r.val() == ip_range_spec(field_vals(a@), field_vals(b@), lo as int, hi as int),
{
    let mut acc = FieldElement::zero();
    let mut i: usize = lo;
    while i < hi
        invariant
            field_seq_inv(a@),
            field_seq_inv(b@),
            lo <= i <= hi,
            hi <= a@.len(),
            hi <= b@.len(),
            acc.inv(),
            acc.val() == ip_range_spec(field_vals(a@), field_vals(b@), lo as int, i as int),
        decreases hi - i,
    {
        acc = acc.add(a[i].mul(b[i]));
        proof {
            lemma_ip_range_bound(field_vals(a@), field_vals(b@), lo as int, i as int);
            lemma_small_mod(
                ip_range_spec(field_vals(a@), field_vals(b@), lo as int, i as int) as nat,
                modulus() as nat,
            );
        }
        i = i + 1;
    }
    acc
}

/// Relies on `rayon::join`: it runs both closures to completion, possibly on
/// worker threads, and returns their two results unchanged. Each closure
/// only calls the verified sequential kernel `ip_range` on its half.
#[verifier::external_body]
fn par_join_ranges(a: &Vec<FieldElement>, b: &Vec<FieldElement>, mid: usize, hi: usize) -> (r: (
    FieldElement,
    FieldElement,
))
    requires
        field_seq_inv(a@),
        field_seq_inv(b@),
        mid <= hi,
        hi <= a@.len(),
        hi <= b@.len(),
    ensures
        r.0.inv(),
        r.1.inv(),
        r.0.val() == ip_range_spec(field_vals(a@), field_vals(b@), 0, mid as int),
        r.1.val() == ip_range_spec(field_vals(a@), field_vals(b@), mid as int, hi as int),
{
    rayon::join(|| ip_range(a, b, 0, mid), || ip_range(a, b, mid, hi))
}

/// The inner product of two field-element columns, with the evaluation
/// strategy chosen by the caller. Both strategies return the same value,
/// bit for bit: the result equals `inner_product_spec` either way.
pub fn inner_product_with_strategy(
    a: &Vec<FieldElement>,
    b: &Vec<FieldElement>,
    parallel: bool,
) -> (r: FieldElement)
    requires
        field_seq_inv(a@),
        field_seq_inv(b@),
    ensures
        r.inv(),
        r.val() == inner_product_spec(field_vals(a@), field_vals(b@)),
{
    let n: usize = if a.len() <= b.len() {
        a.len()
    } else {
        b.len()
    };
    if parallel && n >= 2 {
        let mid = n / 2;
        let (left, right) = par_join_ranges(a, b, mid, n);
        proof {
            lemma_ip_range_split(field_vals(a@), field_vals(b@), 0, mid as int, n as int);
            lemma_ip_range_bound(field_vals(a@), field_vals(b@), 0, mid as int);
            lemma_ip_range_bound(field_vals(a@), field_vals(b@), mid as int, n as int);
        }
        left.add(right)
    } else {
        ip_range(a, b, 0, n)
    }
}

/// The inner product of two field-element columns: `a[0]*b[0] + a[1]*b[1] + ...`
/// in the proof field, the shorter column zero extended. Large inputs use the
/// parallel strategy; the result is identical either way.
pub fn inner_product(a: &Vec<FieldElement>, b: &Vec<FieldElement>) -> (r: FieldElement)
    requires
        field_seq_inv(a@),
        field_seq_inv(b@),
    ensures
        r.inv(),
        r.val() == inner_product_spec(field_vals(a@), field_vals(b@)),
{
    let parallel = a.len() >= PARALLEL_MIN_LEN && b.len() >= PARALLEL_MIN_LEN;
    inner_product_with_strategy(a, b, parallel)
}

/// The inner product of a signed-integer column against a field-element
/// column: each integer is first embedded into the field.
pub fn inner_product_ref_cast(a: &Vec<i128>, b: &Vec<FieldElement>) -> (r: FieldElement)
    requires
        field_seq_inv(b@),
    ensures
        r.inv(),
        r.val() == inner_product_spec(i128_embeds(a@), field_vals(b@)),
{
    let mut cast: Vec<FieldElement> = Vec::new();
    let mut i: usize = 0;
    while i < a.len()
        invariant
            i <= a@.len(),
            cast@.len() == i,
            field_seq_inv(cast@),
            forall|j: int| 0 <= j < i ==> field_vals(cast@)[j] == i128_embeds(a@)[j],
        decreases a@.len() - i,
    {
        cast.push(FieldElement::from_i128(a[i]));
        i = i + 1;
    }
    let r = inner_product(&cast, b);
    proof {
        assert(field_vals(cast@) =~= i128_embeds(a@));
    }
    r
}

/// The inner product of a byte-string column against a field-element column.
/// Each byte string is embedded into the field through the hash backend
/// first, because the same bytes may carry different legitimate embeddings
/// in other contexts; byte columns must not be treated as numeric columns.
pub fn inner_product_with_bytes(a: &Vec<Vec<u8>>, b: &Vec<FieldElement>) -> (r: FieldElement)
    requires
        field_seq_inv(b@),
    ensures
        r.inv(),
        r.val() == inner_product_spec(byte_embeds(a@), field_vals(b@)),
{
    let mut cast: Vec<FieldElement> = Vec::new();
    let mut i: usize = 0;
    while i < a.len()
        invariant
            i <= a@.len(),
            cast@.len() == i,
            field_seq_inv(cast@),
            forall|j: int| 0 <= j < i ==> field_vals(cast@)[j] == byte_embeds(a@)[j],
        decreases a@.len() - i,
    {
        cast.push(hash_to_field(&a[i]));
        i = i + 1;
    }
    let r = inner_product(&cast, b);
    proof {
        assert(field_vals(cast@) =~= byte_embeds(a@));
    }
    r
}

/// One multiply-accumulate step of the fold that an inner product is.
pub open spec fn ip_step() -> spec_fn((int, int), int) -> int {
    |pr: (int, int), acc: int| fadd(acc, fmul(pr.0, pr.1))
}

/// The multiply-accumulate step commutes, so an inner product may fold its
/// terms in any order.
pub proof fn lemma_ip_step_commutative()
    ensures
        commutative_foldr(ip_step()),
{
    let f = ip_step();
    assert forall|x: (int, int), y: (int, int), v: int| #[trigger] f(x, f(y, v)) == f(
        y,
        f(x, v),
    ) by {
        let mx = fmul(x.0, x.1);
        let my = fmul(y.0, y.1);
        lemma_add_mod_noop_right(v + my, mx, modulus());
        lemma_add_mod_noop_right(v + mx, my, modulus());
        assert(f(x, f(y, v)) == (v + my + mx) % modulus());
        assert(f(y, f(x, v)) == (v + mx + my) % modulus());
    }
}

/// A range inner product equals the fold of the zipped pair sequence.
pub proof fn lemma_ip_eq_fold(z: Seq<(int, int)>, x: Seq<int>, y: Seq<int>, hi: int)
    requires
        0 <= hi <= z.len(),
        forall|i: int| 0 <= i < hi ==> (#[trigger] z[i]).0 == x[i] && z[i].1 == y[i],
    ensures
        z.subrange(0, hi).fold_right(ip_step(), 0) == ip_range_spec(x, y, 0, hi),
    decreases hi,
{
    lemma_ip_step_commutative();
    if hi == 0 {
        assert(z.subrange(0, 0).fold_right(ip_step(), 0) == 0);
    } else {
        let pre = z.subrange(0, hi);
        let f = ip_step();
        assert(pre.drop_last() =~= z.subrange(0, hi - 1));
        // fold(pre, 0) == fold(pre.drop_last(), f(pre.last(), 0))
        //              == f(pre.last(), fold(pre.drop_last(), 0))
        z.subrange(0, hi - 1).lemma_fold_right_commute_one(pre.last(), f, 0);
        lemma_ip_eq_fold(z, x, y, hi - 1);
        let prev = ip_range_spec(x, y, 0, hi - 1);
        lemma_ip_range_bound(x, y, 0, hi);
        assert(f(pre.last(), prev) == fadd(prev, fmul(x[hi - 1], y[hi - 1])));
    }
}

/// Reordering both sequences identically leaves the inner product unchanged.
///
/// "Reordered identically" is stated as: the sequences of index-aligned
/// pairs are permutations of one another (equal multisets). Both pairs of
/// sequences must be equal in length pairwise.
pub proof fn lemma_inner_product_reorder(x: Seq<int>, y: Seq<int>, x2: Seq<int>, y2: Seq<int>)
    requires
        x.len() == y.len(),
        x2.len() == y2.len(),
        x.zip_with(y).to_multiset() == x2.zip_with(y2).to_multiset(),
    ensures
        inner_product_spec(x, y) == inner_product_spec(x2, y2),
{
    let z = x.zip_with(y);
    let z2 = x2.zip_with(y2);
    lemma_ip_step_commutative();
    assert(z.subrange(0, z.len() as int) =~= z);
    assert(z2.subrange(0, z2.len() as int) =~= z2);
    lemma_ip_eq_fold(z, x, y, z.len() as int);
    lemma_ip_eq_fold(z2, x2, y2, z2.len() as int);
    lemma_fold_right_permutation(z, z2, ip_step(), 0);
}

} // verus!
