//! Barrett reduction (Handbook of Applied Cryptography, algorithm 14.42) on the
//! curve's big numbers.
use vstd::prelude::*;
use vstd::arithmetic::power2::*;
use vstd::arithmetic::div_mod::*;
use amcl::bn254::big::BIG;
use amcl::bn254::dbig::DBIG;
use amcl::rand::RAND;
use rand::RngCore;
use sha3::digest::{ExtendableOutput, Input, XofReader};
use sha3::Shake256;
use crate::bignum::{
    limbs_small, limb_bits, limbs_normal, limbs_value, lemma_limbs_split, lemma_limbs_zero, big_shr,
    big_nbits, big_shl, dbig_shl, dbig_div, dbig_bits,
    big_comp, big_from_low_limbs, big_minus, big_mod2m, big_mul, big_norm, big_normal, big_value,
    dbig_copy, dbig_normal, dbig_shr, dbig_value, lemma_big_bounds, lemma_dbig_bounds, lemma_limbs_sub,
    lemma_low_copy, big_bits,
};

verus! {

/// The quotient estimate `q3 = floor(floor(x / 2^(k-1)) * u / 2^(k+1))`.
pub open spec fn barrett_quotient(x: int, k: nat, u: int) -> int {
    ((x / (pow2((k - 1) as nat) as int)) * u) / (pow2(k + 1) as int)
}

/// What the reduction computes: `x - q3 * m` taken modulo `2^(k+2)`, then brought below `m`.
/// (One bit more than `2^(k+1)`: with radix two, `x - q3 * m` may reach `3 m`, which can
/// exceed `2^(k+1)` but never `2^(k+2)`.)
pub open spec fn barrett_result(x: int, m: int, k: nat, u: int) -> int {
    ((x - barrett_quotient(x, k, u) * m) % (pow2(k + 2) as int)) % m
}

/// `(k, u, v)` are the parameters of the modulus `m`: `k` is its bit length,
/// `u = floor(2^(2k) / m)` and `v = 2^(k+1)`.
pub open spec fn barrett_params_of(m: int, k: nat, u: int, v: int) -> bool {
    &&& k >= 1
    &&& pow2((k - 1) as nat) <= m < pow2(k)
    &&& u == (pow2(2 * k) as int) / m
    &&& v == pow2(k + 1)
}

proof fn lemma_div_below(x: int, a: int, b: int)
    requires
        0 <= x < a * b,
        b > 0,
    ensures
        0 <= x / b < a,
{
    lemma_fundamental_div_mod(x, b);
    lemma_div_pos_is_pos(x, b);
    let q = x / b;
    if q >= a {
        assert(b * q >= b * a) by (nonlinear_arith)
            requires
                q >= a,
                b > 0,
        ;
        lemma_mod_pos_bound(x, b);
        assert(a * b == b * a) by (nonlinear_arith);
    }
}

/// The quotient estimate falls short of `floor(x / m)` by at most two:
/// `0 <= x - q3 * m < 3 m`.
pub proof fn lemma_barrett_quotient_bounds(x: int, m: int, k: nat, u: int)
    requires
        k >= 1,
        pow2((k - 1) as nat) <= m < pow2(k),
        u == (pow2(2 * k) as int) / m,
        0 <= x < pow2(2 * k),
    ensures
        0 <= x - barrett_quotient(x, k, u) * m < 3 * m,
{
    let p = pow2((k - 1) as nat) as int;
    let q = pow2(k + 1) as int;
    lemma_pow2_pos((k - 1) as nat);
    lemma_pow2_pos(k + 1);
    lemma_pow2_adds((k - 1) as nat, k + 1);
    assert(((k - 1) as nat + k + 1) as nat == 2 * k);
    assert(p * q == pow2(2 * k));
    let a = x / p;
    let alpha = x % p;
    lemma_fundamental_div_mod(x, p);
    lemma_mod_pos_bound(x, p);
    let beta = (p * q) % m;
    lemma_fundamental_div_mod(p * q, m);
    lemma_mod_pos_bound(p * q, m);
    assert(u == (p * q) / m);
    lemma_div_pos_is_pos(x, p);
    lemma_div_pos_is_pos(p * q, m);
    assert(a * u >= 0) by (nonlinear_arith)
        requires
            a >= 0,
            u >= 0,
    ;
    let q3 = (a * u) / q;
    let gamma = (a * u) % q;
    lemma_fundamental_div_mod(a * u, q);
    lemma_mod_pos_bound(a * u, q);
    assert(q3 == barrett_quotient(x, k, u));
    assert(q * (x - q3 * m) == q * alpha + a * beta + m * gamma) by (nonlinear_arith)
        requires
            x == p * a + alpha,
            p * q == m * u + beta,
            a * u == q * q3 + gamma,
    ;
    lemma_div_below(x, q, p);
    assert(q * alpha < q * m) by (nonlinear_arith)
        requires
            0 <= alpha < p,
            p <= m,
            q > 0,
    ;
    assert(a * beta < q * m) by (nonlinear_arith)
        requires
            0 <= a < q,
            0 <= beta < m,
    ;
    assert(m * gamma < m * q) by (nonlinear_arith)
        requires
            0 <= gamma < q,
            m > 0,
    ;
    assert(q * alpha + a * beta + m * gamma >= 0) by (nonlinear_arith)
        requires
            q > 0,
            alpha >= 0,
            a >= 0,
            beta >= 0,
            gamma >= 0,
            m > 0,
    ;
    assert(0 <= x - q3 * m < 3 * m) by (nonlinear_arith)
        requires
            q * (x - q3 * m) >= 0,
            q * (x - q3 * m) < 3 * (q * m),
            q > 0,
    ;
}

/// Barrett reduction gives `x mod m` for every `x < 2^(2k)`: the remainder estimate
/// `x - q3 * m` lies in `[0, 3m)`, below `2^(k+2)`, so it is recovered from its low bits.
pub proof fn lemma_barrett_exact(x: int, m: int, k: nat, u: int)
    requires
        k >= 1,
        pow2((k - 1) as nat) <= m < pow2(k),
        u == (pow2(2 * k) as int) / m,
        0 <= x < pow2(2 * k),
    ensures
        barrett_result(x, m, k, u) == x % m,
{
    lemma_barrett_quotient_bounds(x, m, k, u);
    let q3 = barrett_quotient(x, k, u);
    let d = x - q3 * m;
    lemma_pow2_adds(k, 2);
    lemma2_to64();
    assert(pow2(k + 2) == pow2(k) * 4);
    lemma_small_mod(d as nat, pow2(k + 2));
    lemma_pow2_pos((k - 1) as nat);
    assert(d == m * (-q3) + x) by (nonlinear_arith)
        requires
            d == x - q3 * m,
    ;
    lemma_mod_multiples_vanish(-q3, x, m);
}

proof fn lemma_sub_mod(a: int, b: int, q: int)
    requires
        q > 0,
    ensures
        (a % q - b % q) % q == (a - b) % q,
{
    lemma_fundamental_div_mod(a, q);
    lemma_fundamental_div_mod(b, q);
    let (qa, qb) = (a / q, b / q);
    assert(a - b == q * (qa - qb) + (a % q - b % q)) by (nonlinear_arith)
        requires
            a == q * qa + a % q,
            b == q * qb + b % q,
    ;
    lemma_mod_multiples_vanish(qa - qb, a % q - b % q, q);
}

pub open spec fn limbs_within(b: BIG, bound: int) -> bool {
    forall|i: int| 0 <= i < 5 ==> -bound < #[trigger] b.w[i] < bound
}

proof fn lemma_normal_within(b: BIG)
    requires
        big_normal(b),
    ensures
        limbs_within(b, 0x100_0000_0000_0000),
{
    lemma2_to64_rest();
    assert forall|i: int| 0 <= i < 5 implies -0x100_0000_0000_0000 < #[trigger] b.w[i] < 0x100_0000_0000_0000 by {
        assert(0 <= b.w@[i] < pow2(limb_bits()));
    }
}

/// Limb bounds that keep a subtraction and the carrying after it free of overflow.
proof fn lemma_minus_bounds(a: BIG, b: BIG, bound: int)
    requires
        limbs_within(a, bound),
        limbs_within(b, bound),
        0 < bound <= 0x1000_0000_0000_0000,
    ensures
        forall|i: int| 0 <= i < 5 ==> i64::MIN <= #[trigger] a.w[i] - b.w[i] <= i64::MAX,
        forall|c: BIG| (forall|i: int| 0 <= i < 5 ==> #[trigger] c.w[i] == a.w[i] - b.w[i]) ==> limbs_within(c, 2 * bound) && limbs_small(c.w@),
{
    assert forall|i: int| 0 <= i < 5 implies i64::MIN <= #[trigger] a.w[i] - b.w[i] <= i64::MAX by {
        assert(-bound < a.w[i] < bound);
        assert(-bound < b.w[i] < bound);
    }
    assert forall|c: BIG| (forall|i: int| 0 <= i < 5 ==> #[trigger] c.w[i] == a.w[i] - b.w[i]) implies limbs_within(c, 2 * bound) && limbs_small(c.w@) by {
        assert forall|i: int| 0 <= i < 5 implies -2 * bound < #[trigger] c.w[i] < 2 * bound by {
            assert(-bound < a.w[i] < bound);
            assert(-bound < b.w[i] < bound);
            assert(c.w[i] == a.w[i] - b.w[i]);
        }
        assert forall|i: int| 0 <= i < c.w@.len() implies -0x4000_0000_0000_0000 < #[trigger] c.w@[i] < 0x4000_0000_0000_0000 by {
            assert(-2 * bound < c.w[i] < 2 * bound);
        }
    }
}

/// The steps after the quotient estimate, shared by both reductions: from
/// `r1 = x mod 2^(k+2)` and `q3`, the value `((x - q3 m) mod 2^(k+2)) mod m`.
fn barrett_finish(r1: &BIG, q3: &BIG, modulus: &BIG, k: usize, v: &BIG) -> (r: BIG)
    requires
        big_normal(*r1),
        big_normal(*q3),
        big_normal(*modulus),
        big_normal(*v),
        1 <= k < 278,
        big_value(*modulus) > 0,
        big_value(*v) == pow2((k + 1) as nat),
        big_value(*r1) < pow2((k + 2) as nat),
    ensures
        big_normal(r),
        big_value(r) == ((big_value(*r1) - big_value(*q3) * big_value(*modulus)) % (pow2(
            (k + 2) as nat,
        ) as int)) % big_value(*modulus),
        big_value(r) < big_value(*modulus),
{
    let ghost qq = pow2((k + 2) as nat) as int;
    let ghost m = big_value(*modulus);
    proof {
        lemma_pow2_pos((k + 2) as nat);
        lemma_big_bounds(*r1);
        lemma_big_bounds(*q3);
        lemma_big_bounds(*modulus);
    }
    // r2 = (q3 * modulus) mod 2^(k+2)
    let q3m = big_mul(q3, modulus);
    let mut r2 = big_from_low_limbs(&q3m);
    proof {
        lemma_low_copy(q3m, r2);
        lemma_pow2_adds((k + 2) as nat, (278 - k) as nat);
        lemma_pow2_pos((278 - k) as nat);
        lemma_mod_mod(dbig_value(q3m), qq, pow2((278 - k) as nat) as int);
    }
    big_mod2m(&mut r2, k + 2);
    assert(big_value(r2) == (big_value(*q3) * m) % qq);
    proof {
        lemma_mod_pos_bound(big_value(*q3) * m, qq);
        lemma_small_mod(big_value(*r1) as nat, qq as nat);
        lemma_sub_mod(big_value(*r1), big_value(*q3) * m, qq);
    }
    let ghost d = big_value(*r1) - big_value(r2);
    // w = 2v = 2^(k+2)
    let mut w = *v;
    proof {
        lemma_pow2_adds((k + 1) as nat, 1);
        lemma2_to64();
        lemma_pow2_strictly_increases((k + 2) as nat, big_bits());
    }
    big_shl(&mut w, 1);
    // r = r1 - r2, or r1 - r2 + w when that is negative
    let mut r = if big_comp(r1, &r2) < 0 {
        proof {
            lemma_normal_within(*r1);
            lemma_normal_within(r2);
            lemma_normal_within(w);
            lemma_minus_bounds(r2, *r1, 0x100_0000_0000_0000);
        }
        let diff = big_minus(&r2, r1);
        proof {
            assert(limbs_within(w, 0x200_0000_0000_0000));
            lemma_minus_bounds(w, diff, 0x200_0000_0000_0000);
        }
        let s = big_minus(&w, &diff);
        proof {
            lemma_limbs_sub(r2.w@, r1.w@, diff.w@);
            lemma_limbs_sub(w.w@, diff.w@, s.w@);
            lemma_mod_add_multiples_vanish(d, qq);
            lemma_small_mod((d + qq) as nat, qq as nat);
        }
        s
    } else {
        proof {
            lemma_normal_within(*r1);
            lemma_normal_within(r2);
            lemma_minus_bounds(*r1, r2, 0x100_0000_0000_0000);
        }
        let s = big_minus(r1, &r2);
        proof {
            lemma_limbs_sub(r1.w@, r2.w@, s.w@);
            lemma_small_mod(d as nat, qq as nat);
        }
        s
    };
    proof {
        lemma_pow2_strictly_increases((k + 2) as nat, big_bits());
    }
    big_norm(&mut r);
    let ghost r0 = big_value(r);
    assert(r0 == d % qq);
    while big_comp(&r, modulus) >= 0
        invariant
            big_normal(r),
            big_normal(*modulus),
            m == big_value(*modulus),
            m > 0,
            0 <= big_value(r) <= r0,
            r0 < pow2(big_bits()),
            big_value(r) % m == r0 % m,
        decreases big_value(r),
    {
        proof {
            lemma_normal_within(r);
            lemma_normal_within(*modulus);
            lemma_minus_bounds(r, *modulus, 0x100_0000_0000_0000);
        }
        let s = big_minus(&r, modulus);
        proof {
            lemma_limbs_sub(r.w@, modulus.w@, s.w@);
            lemma_mod_sub_multiples_vanish(big_value(r), m);
        }
        r = s;
        big_norm(&mut r);
    }
    proof {
        lemma_small_mod(big_value(r) as nat, m as nat);
    }
    r
}

/// Reduces a double-width `x` modulo `modulus`, given the parameters that
/// `barrett_reduction_params` computes for it.
pub fn barrett_reduction(x: &DBIG, modulus: &BIG, k: usize, u: &BIG, v: &BIG) -> (r: BIG)
    requires
        dbig_normal(*x),
        big_normal(*modulus),
        big_normal(*u),
        big_normal(*v),
        k < 278,
        barrett_params_of(big_value(*modulus), k as nat, big_value(*u), big_value(*v)),
        dbig_value(*x) < pow2(2 * k as nat),
    ensures
        big_normal(r),
        big_value(r) == barrett_result(dbig_value(*x), big_value(*modulus), k as nat, big_value(*u)),
        big_value(r) == dbig_value(*x) % big_value(*modulus),
        big_value(r) < big_value(*modulus),
{
    let ghost xv = dbig_value(*x);
    let ghost p = pow2((k - 1) as nat) as int;
    let ghost qq = pow2((k + 1) as nat) as int;
    let ghost ww = pow2((k + 2) as nat) as int;
    proof {
        lemma_dbig_bounds(*x);
        lemma_pow2_pos((k - 1) as nat);
        lemma_pow2_pos((k + 1) as nat);
        lemma_pow2_adds((k - 1) as nat, (k + 1) as nat);
        assert(((k - 1) as nat + (k + 1) as nat) as nat == 2 * k as nat);
        lemma_div_below(xv, qq, p);
        lemma_pow2_strictly_increases((k + 1) as nat, big_bits());
        lemma_pow2_subtracts((k - 1) as nat, 2 * k as nat);
        assert((2 * k as nat - (k - 1) as nat) as nat == (k + 1) as nat);
        lemma_div_is_ordered_by_denominator(
            pow2(2 * k as nat) as int,
            p,
            big_value(*modulus),
        );
    }
    // q1 = floor(x / 2^(k-1)), which fits in a BIG
    let mut q1d = dbig_copy(x);
    dbig_shr(&mut q1d, k - 1);
    let q1 = big_from_low_limbs(&q1d);
    proof {
        lemma_low_copy(q1d, q1);
    }
    let q3 = barrett_estimate(&q1, u, k);
    // r1 = x mod 2^(k+2)
    let mut r1 = big_from_low_limbs(x);
    proof {
        lemma_low_copy(*x, r1);
        lemma_pow2_adds((k + 2) as nat, (278 - k) as nat);
        lemma_pow2_pos((278 - k) as nat);
        lemma_mod_mod(xv, ww, pow2((278 - k) as nat) as int);
    }
    big_mod2m(&mut r1, k + 2);
    proof {
        lemma_pow2_pos((k + 2) as nat);
        lemma_mod_pos_bound(xv, ww);
        lemma_sub_mod(xv, big_value(q3) * big_value(*modulus), ww);
        lemma_sub_mod(big_value(r1), big_value(q3) * big_value(*modulus), ww);
        lemma_small_mod(big_value(r1) as nat, ww as nat);
        lemma_barrett_exact(xv, big_value(*modulus), k as nat, big_value(*u));
        assert(big_value(q1) == xv / p);
        assert(big_value(q3) == barrett_quotient(xv, k as nat, big_value(*u)));
    }
    barrett_finish(&r1, &q3, modulus, k, v)
}

/// `q3 = floor(q1 * u / 2^(k+1))` for `q1 < 2^(k+1)`; it fits in a BIG.
fn barrett_estimate(q1: &BIG, u: &BIG, k: usize) -> (q3: BIG)
    requires
        big_normal(*q1),
        big_normal(*u),
        1 <= k < 279,
        big_value(*q1) < pow2((k + 1) as nat),
        big_value(*u) <= pow2((k + 1) as nat),
    ensures
        big_normal(q3),
        big_value(q3) == (big_value(*q1) * big_value(*u)) / (pow2((k + 1) as nat) as int),
        big_value(q3) < pow2((k + 1) as nat),
{
    let ghost qq = pow2((k + 1) as nat) as int;
    let q2 = big_mul(q1, u);
    proof {
        lemma_pow2_pos((k + 1) as nat);
        lemma_big_bounds(*q1);
        lemma_big_bounds(*u);
        assert(big_value(*q1) * big_value(*u) < qq * qq) by (nonlinear_arith)
            requires
                0 <= big_value(*q1) < qq,
                0 <= big_value(*u) <= qq,
        ;
        lemma_div_below(dbig_value(q2), qq, qq);
        lemma_pow2_strictly_increases((k + 1) as nat, big_bits());
    }
    let mut q3d = dbig_copy(&q2);
    dbig_shr(&mut q3d, k + 1);
    let q3 = big_from_low_limbs(&q3d);
    proof {
        lemma_low_copy(q3d, q3);
    }
    q3
}

/// Barrett reduction of a single-width `x`, with the same parameters as `barrett_reduction`.
pub fn __barrett_reduction__(x: &BIG, modulus: &BIG, k: usize, u: &BIG, v: &BIG) -> (r: BIG)
    requires
        big_normal(*x),
        big_normal(*modulus),
        big_normal(*u),
        big_normal(*v),
        k < 278,
        barrett_params_of(big_value(*modulus), k as nat, big_value(*u), big_value(*v)),
        big_value(*x) < pow2(2 * k as nat),
    ensures
        big_normal(r),
        big_value(r) == barrett_result(big_value(*x), big_value(*modulus), k as nat, big_value(*u)),
        big_value(r) == big_value(*x) % big_value(*modulus),
        big_value(r) < big_value(*modulus),
{
    let ghost xv = big_value(*x);
    let ghost p = pow2((k - 1) as nat) as int;
    let ghost qq = pow2((k + 1) as nat) as int;
    let ghost ww = pow2((k + 2) as nat) as int;
    proof {
        lemma_big_bounds(*x);
        lemma_pow2_pos((k - 1) as nat);
        lemma_pow2_pos((k + 1) as nat);
        lemma_pow2_adds((k - 1) as nat, (k + 1) as nat);
        assert(((k - 1) as nat + (k + 1) as nat) as nat == 2 * k as nat);
        lemma_div_below(xv, qq, p);
        lemma_pow2_subtracts((k - 1) as nat, 2 * k as nat);
        assert((2 * k as nat - (k - 1) as nat) as nat == (k + 1) as nat);
        lemma_div_is_ordered_by_denominator(pow2(2 * k as nat) as int, p, big_value(*modulus));
    }
    // q1 = floor(x / 2^(k-1))
    let mut q1 = *x;
    big_shr(&mut q1, k - 1);
    let q3 = barrett_estimate(&q1, u, k);
    // r1 = x mod 2^(k+2)
    let mut r1 = *x;
    big_mod2m(&mut r1, k + 2);
    proof {
        lemma_pow2_pos((k + 2) as nat);
        lemma_mod_pos_bound(xv, ww);
        lemma_sub_mod(xv, big_value(q3) * big_value(*modulus), ww);
        lemma_sub_mod(big_value(r1), big_value(q3) * big_value(*modulus), ww);
        lemma_small_mod(big_value(r1) as nat, ww as nat);
        lemma_barrett_exact(xv, big_value(*modulus), k as nat, big_value(*u));
    }
    barrett_finish(&r1, &q3, modulus, k, v)
}

/// For a modulus of bit length `k`, returns `(k, u, v)` with `u = floor(2^(2k) / modulus)`
/// and `v = 2^(k+1)`.
pub fn barrett_reduction_params(modulus: &BIG) -> (r: (usize, BIG, BIG))
    requires
        big_normal(*modulus),
        0 < big_value(*modulus) < pow2(276),
    ensures
        r.0 < 278,
        big_normal(r.1),
        big_normal(r.2),
        barrett_params_of(big_value(*modulus), r.0 as nat, big_value(r.1), big_value(r.2)),
{
    let ghost m = big_value(*modulus);
    let k = big_nbits(modulus);
    proof {
        if k >= 277 {
            lemma_pow2_strictly_increases(276, (k - 1) as nat);
        }
        lemma_pow2_pos((k - 1) as nat);
        lemma2_to64_rest();
    }
    // u = floor(2^(2k) / modulus), the power built by two shifts of k
    let mut ud = DBIG { w: [1, 0, 0, 0, 0, 0, 0, 0, 0, 0] };
    proof {
        lemma_one_value(ud.w@);
        lemma_pow2_strictly_increases(k as nat, dbig_bits());
        lemma_pow2_adds(k as nat, k as nat);
        assert((k + k) as nat == 2 * k as nat);
        lemma_pow2_strictly_increases(2 * k as nat, 559);
        lemma_pow2_strictly_increases(2 * k as nat, dbig_bits());
    }
    dbig_shl(&mut ud, k);
    assert(dbig_value(ud) * pow2(k as nat) == pow2(2 * k as nat));
    dbig_shl(&mut ud, k);
    proof {
        lemma_pow2_subtracts((k - 1) as nat, 2 * k as nat);
        assert((2 * k as nat - (k - 1) as nat) as nat == (k + 1) as nat);
        lemma_div_is_ordered_by_denominator(pow2(2 * k as nat) as int, pow2((k - 1) as nat) as int, m);
        lemma_pow2_strictly_increases((k + 1) as nat, 278);
    }
    let u = dbig_div(&mut ud, modulus);
    // v = 2^(k+1)
    let mut v = BIG { w: [1, 0, 0, 0, 0] };
    proof {
        lemma_one_value(v.w@);
        lemma_pow2_strictly_increases((k + 1) as nat, big_bits());
    }
    big_shl(&mut v, k + 1);
    (k, u, v)
}

/// The limbs `[1, 0, ..., 0]` are normal and hold the value one.
proof fn lemma_one_value(s: Seq<i64>)
    requires
        s.len() >= 1,
        s[0] == 1,
        forall|i: int| 1 <= i < s.len() ==> #[trigger] s[i] == 0,
    ensures
        limbs_normal(s),
        limbs_value(s) == 1,
{
    lemma2_to64_rest();
    lemma_limbs_split(s, 1);
    let hi = s.skip(1);
    assert(limbs_normal(hi));
    lemma_limbs_zero(hi);
    assert(limbs_value(hi) == 0);
    assert(s.take(1).drop_first().len() == 0);
    assert(limbs_value(s.take(1)) == 1);
    lemma2_to64();
    assert(pow2(limb_bits() * 1) * 0 == 0);
}

/// Bytes of a base-field element of the curve.
pub const FIELD_ORDER_ELEMENT_SIZE: usize = 32;

/// The first `n` bytes of the SHAKE256 output for `msg`.
pub uninterp spec fn shake256_prefix(msg: Seq<u8>, n: nat) -> Seq<u8>;

/// Relies on sha3's `Shake256`: absorbs `msg`, then reads 32 bytes of output.
#[verifier::external_body]
fn shake256_32(msg: &[u8]) -> (r: [u8; FIELD_ORDER_ELEMENT_SIZE])
    ensures
        r@ == shake256_prefix(msg@, FIELD_ORDER_ELEMENT_SIZE as nat),
{
    let mut hasher = Shake256::default();
    hasher.input(msg);
    let mut h = [0u8; FIELD_ORDER_ELEMENT_SIZE];
    hasher.xof_result().read(&mut h);
    h
}

/// Hash message and return output of size equal to curve modulus. Uses SHAKE to hash the message.
pub fn hash_msg(msg: &[u8]) -> (r: [u8; FIELD_ORDER_ELEMENT_SIZE])
    ensures
        r@ == shake256_prefix(msg@, FIELD_ORDER_ELEMENT_SIZE as nat),
{
    shake256_32(msg)
}

/// Relies on rand's `thread_rng` and `RngCore::fill_bytes`: the buffer is overwritten
/// with bytes from the thread's generator, its length kept.
#[verifier::external_body]
fn fill_with_entropy(buf: &mut Vec<u8>)
    ensures
        final(buf)@.len() == old(buf)@.len(),
{
    rand::thread_rng().fill_bytes(buf.as_mut_slice())
}

/// The generator amcl's `RAND::new`, `RAND::clean` and `RAND::seed` leave when seeded
/// with the bytes `entropy`.
pub uninterp spec fn rand_seeded_with(entropy: Seq<u8>) -> RAND;

/// Relies on amcl's `RAND::new`, `RAND::clean` and `RAND::seed(entropy.len(), entropy)`:
/// a fresh generator, cleared, then seeded from the SHA-256 digest of the bytes; the
/// state depends on the bytes alone.
#[verifier::external_body]
fn seeded_rand(entropy: &[u8]) -> (r: RAND)
    ensures
        r == rand_seeded_with(entropy@),
{
    let mut r = RAND::new();
    r.clean();
    r.seed(entropy.len(), entropy);
    r
}

/// A generator seeded with `entropy_size` bytes drawn from the thread's generator.
pub fn get_seeded_rng(entropy_size: usize) -> (r: RAND)
    ensures
        exists|e: Seq<u8>| e.len() == entropy_size && r == rand_seeded_with(e),
{
    let mut entropy: Vec<u8> = vec![0u8; entropy_size];
    fill_with_entropy(&mut entropy);
    get_rand(entropy.as_slice())
}

/// A generator seeded with the given entropy: equal entropy gives equal generators.
pub fn get_rand(entropy: &[u8]) -> (r: RAND)
    ensures
        r == rand_seeded_with(entropy@),
{
    seeded_rand(entropy)
}

} // verus!
