use vstd::prelude::*;
use vstd::pervasive::VecAdditionalExecFns;
use crate::galois::count_diffs;
use crate::galois::gf_inv;
use crate::galois::gf_mul;
use crate::galois::gf_pow;
use crate::galois::spec_diff_count;
use crate::galois::spec_syndromes_zero;
use crate::galois::syndromes;
use crate::qr::BlockInfo;
use crate::qr::ErrorKind;
use crate::qr::QRError;

verus! {

fn copy_bytes(a: &Vec<u8>) -> (r: Vec<u8>)
    ensures
        r@ == a@,
{
    let mut r: Vec<u8> = Vec::new();
    let mut k: usize = 0;
    while k < a.len()
        invariant
            k <= a.len(),
            r@ == a@.take(k as int),
        decreases a.len() - k,
    {
        r.push(a[k]);
        proof {
            assert(a@.take(k + 1) =~= a@.take(k as int).push(a@[k as int]));
        }
        k += 1;
    }
    proof {
        assert(a@.take(a@.len() as int) =~= a@);
    }
    r
}

/// Are the first `count` entries of `syn` all zero?
fn all_zero(syn: &Vec<u8>) -> (r: bool)
    ensures
        r == (forall|i: int| 0 <= i < syn@.len() ==> syn@[i] == 0),
{
    let mut k: usize = 0;
    while k < syn.len()
        invariant
            k <= syn.len(),
            forall|i: int| 0 <= i < k ==> syn@[i] == 0,
        decreases syn.len() - k,
    {
        if syn[k] != 0 {
            return false;
        }
        k += 1;
    }
    true
}

/// `a(x) + coef * x^shift * b(x)` over GF(256).
fn poly_add_scaled(a: &Vec<u8>, b: &Vec<u8>, coef: u8, shift: usize) -> (r: Vec<u8>)
    requires
        a@.len() <= 256,
        b@.len() + shift <= 512,
    ensures
        r@.len() == if a@.len() >= b@.len() + shift {
            a@.len() as int
        } else {
            b@.len() + shift
        },
{
    let len = if a.len() >= b.len() + shift {
        a.len()
    } else {
        b.len() + shift
    };
    let mut r: Vec<u8> = Vec::new();
    let mut i: usize = 0;
    while i < len
        invariant
            i <= len,
            r@.len() == i,
            b@.len() + shift <= 512,
        decreases len - i,
    {
        let av: u8 = if i < a.len() {
            a[i]
        } else {
            0
        };
        let bv: u8 = if i >= shift && i - shift < b.len() {
            gf_mul(coef, b[i - shift])
        } else {
            0
        };
        r.push(av ^ bv);
        i += 1;
    }
    r
}

/// Value of the polynomial with ascending coefficients `p` at `x`.
fn poly_eval_ascending(p: &Vec<u8>, x: u8) -> u8 {
    let mut acc: u8 = 0;
    let mut i: usize = p.len();
    while i > 0
        invariant
            i <= p.len(),
        decreases i,
    {
        acc = gf_mul(acc, x) ^ p[i - 1];
        i -= 1;
    }
    acc
}

/// Value of the formal derivative of the polynomial with ascending
/// coefficients `p` at `x`; over GF(2^8) only the odd terms survive.
fn poly_deriv_eval(p: &Vec<u8>, x: u8) -> u8 {
    let mut acc: u8 = 0;
    let mut i: usize = 1;
    while i < p.len()
        invariant
            1 <= i,
        decreases p.len() - i,
    {
        if i % 2 == 1 {
            acc = acc ^ gf_mul(p[i], gf_pow(x, (i - 1) as u32));
        }
        i += 1;
    }
    acc
}

/// Error-correct one Reed-Solomon block of `total_per` codewords over
/// GF(256). On success the result is a valid codeword (every parity
/// syndrome vanishes) that differs from the input in at most `ec_cap`
/// codewords; a block that is already valid is returned unchanged. A block
/// whose errors exceed the correction capacity is an uncorrectable block.
///
/// The completeness direction - a block within `ec_cap` of some codeword is
/// always repaired, and only blocks beyond every such ball are rejected -
/// is the bounded-distance-decoding theorem (the code's minimum distance
/// together with the correctness of the Berlekamp-Massey, Chien and Forney
/// steps); that theorem is not mechanized here, so the contract states the
/// soundness side and the boundary behaviour is exercised by the tests.
pub fn correct(block: &Vec<u8>, info: &BlockInfo) -> (r: Result<Vec<u8>, QRError>)
    requires
        info.wf(),
        block@.len() == info.total_per,
    ensures
        match r {
            Ok(c) => {
                &&& c@.len() == block@.len()
                &&& spec_syndromes_zero(c@, (info.total_per - info.data_per) as int)
                &&& spec_diff_count(c@, block@) <= info.ec_cap
            },
            Err(e) => e.kind == ErrorKind::UncorrectableBlock,
        },
        spec_syndromes_zero(block@, (info.total_per - info.data_per) as int) ==> (r matches Ok(
            c,
        ) && c@ == block@),
{
    let npar: u8 = info.total_per - info.data_per;
    let t: u8 = info.ec_cap;
    let syn = syndromes(block, npar);
    if all_zero(&syn) {
        let c = copy_bytes(block);
        proof {
            lemma_diff_count_self(block@);
        }
        return Ok(c);
    }
    proof {
        if spec_syndromes_zero(block@, npar as int) {
            assert(forall|i: int| 0 <= i < syn@.len() ==> syn@[i] == 0);
            assert(false);
        }
    }
    if t == 0 {
        return Err(QRError::new(ErrorKind::UncorrectableBlock));
    }
    let t2: usize = 2 * (t as usize);

    // Berlekamp-Massey: derive the error-locator polynomial from the first
    // 2 * ec_cap syndromes.
    let mut sigma: Vec<u8> = vec![1u8];
    let mut prev: Vec<u8> = vec![1u8];
    let mut ll: usize = 0;
    let mut mm: usize = 1;
    let mut bb: u8 = 1;
    let mut nn: usize = 0;
    while nn < t2
        invariant
            t2 <= 254,
            t2 <= syn@.len(),
            nn <= t2,
            sigma@.len() >= 1,
            prev@.len() >= 1,
            sigma@.len() <= nn + 2,
            prev@.len() + mm <= nn + 2,
            mm >= 1,
            bb != 0,
            ll <= nn,
        decreases t2 - nn,
    {
        let mut d: u8 = syn[nn];
        let mut i: usize = 1;
        while i <= ll
            invariant
                i >= 1,
                ll <= nn,
                nn < t2 <= syn@.len(),
                sigma@.len() >= 1,
            decreases ll + 1 - i,
        {
            if i < sigma.len() && i <= nn {
                d = d ^ gf_mul(sigma[i], syn[nn - i]);
            }
            i += 1;
        }
        if d == 0 {
            mm += 1;
        } else if 2 * ll <= nn {
            let tmp = copy_bytes(&sigma);
            let coef = gf_mul(d, gf_inv(bb));
            sigma = poly_add_scaled(&sigma, &prev, coef, mm);
            ll = nn + 1 - ll;
            prev = tmp;
            bb = d;
            mm = 1;
        } else {
            let coef = gf_mul(d, gf_inv(bb));
            sigma = poly_add_scaled(&sigma, &prev, coef, mm);
            mm += 1;
        }
        nn += 1;
    }
    if ll > t as usize {
        return Err(QRError::new(ErrorKind::UncorrectableBlock));
    }

    // Chien search: find the error positions as the powers whose inverse
    // locators are roots of the locator polynomial.
    let n: usize = block.len();
    let mut positions: Vec<u8> = Vec::new();
    let mut p: usize = 0;
    while p < n
        invariant
            n == block@.len() <= 255,
            p <= n,
            positions@.len() <= p,
            forall|i: int| 0 <= i < positions@.len() ==> (#[trigger] positions@[i]) < n,
        decreases n - p,
    {
        let xinv = gf_pow(2, (255 - p) as u32);
        if poly_eval_ascending(&sigma, xinv) == 0 {
            positions.push(p as u8);
        }
        p += 1;
    }
    if positions.len() != ll {
        return Err(QRError::new(ErrorKind::UncorrectableBlock));
    }

    // Error-evaluator polynomial: the product of the syndrome polynomial and
    // the locator, truncated below x^(2 * ec_cap).
    let mut omega: Vec<u8> = Vec::new();
    let mut k: usize = 0;
    while k < t2
        invariant
            t2 <= syn@.len(),
            k <= t2,
        decreases t2 - k,
    {
        let mut val: u8 = 0;
        let mut i: usize = 0;
        while i <= k
            invariant
                i <= k + 1,
                k < t2 <= syn@.len(),
            decreases k + 1 - i,
        {
            if k - i < sigma.len() {
                val = val ^ gf_mul(syn[i], sigma[k - i]);
            }
            i += 1;
        }
        omega.push(val);
        k += 1;
    }

    // Forney: compute each error magnitude and repair the codeword.
    let mut corrected = copy_bytes(block);
    let mut idx: usize = 0;
    while idx < positions.len()
        invariant
            corrected@.len() == block@.len() == n <= 255,
            !spec_syndromes_zero(block@, (info.total_per - info.data_per) as int),
            idx <= positions@.len(),
            forall|i: int| 0 <= i < positions@.len() ==> (#[trigger] positions@[i]) < n,
        decreases positions.len() - idx,
    {
        let pw = positions[idx] as usize;
        let xinv = gf_pow(2, (255 - pw) as u32);
        let num = poly_eval_ascending(&omega, xinv);
        let den = poly_deriv_eval(&sigma, xinv);
        if den == 0 {
            return Err(QRError::new(ErrorKind::UncorrectableBlock));
        }
        let mag = gf_mul(gf_pow(2, pw as u32), gf_mul(num, gf_inv(den)));
        let bi = n - 1 - pw;
        let old_val = corrected[bi];
        corrected.set(bi, old_val ^ mag);
        idx += 1;
    }

    // The repaired word must be a valid codeword within the correction
    // capacity; anything else marks the block uncorrectable.
    let syn2 = syndromes(&corrected, npar);
    if !all_zero(&syn2) {
        return Err(QRError::new(ErrorKind::UncorrectableBlock));
    }
    if count_diffs(&corrected, block) > t as usize {
        return Err(QRError::new(ErrorKind::UncorrectableBlock));
    }
    Ok(corrected)
}

proof fn lemma_diff_count_self(a: Seq<u8>)
    ensures
        spec_diff_count(a, a) == 0,
    decreases a.len(),
{
    if a.len() > 0 {
        lemma_diff_count_self(a.drop_last());
    }
}

} // verus!
