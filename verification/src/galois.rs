use vstd::prelude::*;

verus! {

/// Double a field element of GF(256) under the primitive polynomial
/// x^8 + x^4 + x^3 + x^2 + 1.
pub open spec fn spec_gf_double(a: u8) -> u8 {
    if a < 128 {
        (2 * a) as u8
    } else {
        ((2 * (a - 128)) as u8) ^ 0x1D
    }
}

pub fn gf_double(a: u8) -> (r: u8)
    ensures
        r == spec_gf_double(a),
{
    if a < 128 {
        2 * a
    } else {
        (2 * (a - 128)) ^ 0x1D
    }
}

/// Product in GF(256), by shift-and-add over the bits of `b`.
pub open spec fn spec_gf_mul(a: u8, b: u8) -> u8
    decreases b,
{
    if b == 0 {
        0
    } else {
        (if b % 2 == 1 {
            a
        } else {
            0
        }) ^ spec_gf_mul(spec_gf_double(a), b / 2)
    }
}

pub fn gf_mul(a: u8, b: u8) -> (r: u8)
    ensures
        r == spec_gf_mul(a, b),
    decreases b,
{
    if b == 0 {
        0
    } else {
        let low: u8 = if b % 2 == 1 {
            a
        } else {
            0
        };
        low ^ gf_mul(gf_double(a), b / 2)
    }
}

/// Power in GF(256).
pub open spec fn spec_gf_pow(a: u8, e: u32) -> u8
    decreases e,
{
    if e == 0 {
        1
    } else {
        spec_gf_mul(a, spec_gf_pow(a, (e - 1) as u32))
    }
}

pub fn gf_pow(a: u8, e: u32) -> (r: u8)
    ensures
        r == spec_gf_pow(a, e),
    decreases e,
{
    if e == 0 {
        1
    } else {
        gf_mul(a, gf_pow(a, e - 1))
    }
}

/// Multiplicative inverse of a nonzero element, as the 254th power.
pub fn gf_inv(a: u8) -> (r: u8)
    requires
        a != 0,
    ensures
        r == spec_gf_pow(a, 254),
{
    gf_pow(a, 254)
}

/// Value of the polynomial whose coefficients are `p`, highest power first,
/// at the point `x` (Horner evaluation).
pub open spec fn spec_poly_eval(p: Seq<u8>, x: u8) -> u8
    decreases p.len(),
{
    if p.len() == 0 {
        0
    } else {
        spec_gf_mul(spec_poly_eval(p.drop_last(), x), x) ^ p.last()
    }
}

pub fn poly_eval(p: &Vec<u8>, x: u8) -> (r: u8)
    ensures
        r == spec_poly_eval(p@, x),
{
    let mut acc: u8 = 0;
    let mut k: usize = 0;
    while k < p.len()
        invariant
            k <= p.len(),
            acc == spec_poly_eval(p@.take(k as int), x),
        decreases p.len() - k,
    {
        acc = gf_mul(acc, x) ^ p[k];
        proof {
            assert(p@.take(k + 1).drop_last() =~= p@.take(k as int));
            assert(p@.take(k + 1).last() == p@[k as int]);
        }
        k += 1;
    }
    proof {
        assert(p@.take(p@.len() as int) =~= p@);
    }
    acc
}

/// The `i`-th syndrome of a codeword: its value at the `i`-th power of the
/// field generator.
pub open spec fn spec_syndrome(c: Seq<u8>, i: int) -> u8 {
    spec_poly_eval(c, spec_gf_pow(2, i as u32))
}

/// All `npar` parity syndromes of `c` vanish: `c` is a valid codeword.
pub open spec fn spec_syndromes_zero(c: Seq<u8>, npar: int) -> bool {
    forall|i: int| 0 <= i < npar ==> spec_syndrome(c, i) == 0
}

/// Compute the first `count` syndromes of a block.
pub fn syndromes(block: &Vec<u8>, count: u8) -> (r: Vec<u8>)
    ensures
        r@.len() == count,
        forall|i: int| 0 <= i < count ==> r@[i] == spec_syndrome(block@, i),
{
    let mut r: Vec<u8> = Vec::new();
    let mut i: u8 = 0;
    while i < count
        invariant
            i <= count,
            r@.len() == i,
            forall|j: int| 0 <= j < i ==> r@[j] == spec_syndrome(block@, j),
        decreases count - i,
    {
        let s = poly_eval(block, gf_pow(2, i as u32));
        r.push(s);
        i += 1;
    }
    r
}

/// Number of positions where two equal-length sequences differ.
pub open spec fn spec_diff_count(a: Seq<u8>, b: Seq<u8>) -> int
    decreases a.len(),
{
    if a.len() == 0 {
        0
    } else {
        spec_diff_count(a.drop_last(), b.drop_last()) + (if a.last() == b.last() {
            0int
        } else {
            1int
        })
    }
}

pub fn count_diffs(a: &Vec<u8>, b: &Vec<u8>) -> (r: usize)
    requires
        a@.len() == b@.len(),
    ensures
        r == spec_diff_count(a@, b@),
{
    let mut r: usize = 0;
    let mut k: usize = 0;
    proof {
        lemma_diff_count_bound(a@.take(0), b@.take(0));
    }
    while k < a.len()
        invariant
            a@.len() == b@.len(),
            k <= a.len(),
            r == spec_diff_count(a@.take(k as int), b@.take(k as int)),
            r <= k,
        decreases a.len() - k,
    {
        proof {
            assert(a@.take(k + 1).drop_last() =~= a@.take(k as int));
            assert(b@.take(k + 1).drop_last() =~= b@.take(k as int));
        }
        if a[k] != b[k] {
            r += 1;
        }
        k += 1;
    }
    proof {
        assert(a@.take(a@.len() as int) =~= a@);
        assert(b@.take(b@.len() as int) =~= b@);
    }
    r
}

proof fn lemma_diff_count_bound(a: Seq<u8>, b: Seq<u8>)
    ensures
        0 <= spec_diff_count(a, b) <= a.len(),
    decreases a.len(),
{
    if a.len() > 0 {
        lemma_diff_count_bound(a.drop_last(), b.drop_last());
    }
}

} // verus!
