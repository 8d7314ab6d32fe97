//! Multi-limb integers of the curve's big-number type, and their value model.
//!
//! A `BIG` holds five signed 64-bit limbs in radix 2^56; a `DBIG` holds ten.
//! Its value is `sum w[i] * 2^(56 i)`. It is "normal" when every limb lies in
//! `[0, 2^56)`, and then the value lies in `[0, 2^(56 n))`.
use vstd::prelude::*;
use vstd::arithmetic::power2::*;
use vstd::arithmetic::div_mod::*;
use vstd::arithmetic::mul::*;
use amcl::bn254::big::BIG;
use amcl::bn254::dbig::DBIG;
use amcl::rand::RAND;

verus! {

#[verifier::external_type_specification]
pub struct ExBig(BIG);

#[verifier::external_type_specification]
pub struct ExDbig(DBIG);

#[verifier::external_type_specification]
#[verifier::external_body]
pub struct ExRand(RAND);

/// Bits per limb.
pub open spec fn limb_bits() -> nat {
    56
}

/// Bits of the value range of a normal `BIG`.
pub open spec fn big_bits() -> nat {
    280
}

/// Bits of the value range of a normal `DBIG`.
pub open spec fn dbig_bits() -> nat {
    560
}

pub open spec fn limbs_value(s: Seq<i64>) -> int
    decreases s.len(),
{
    if s.len() == 0 {
        0
    } else {
        s[0] + pow2(limb_bits()) * limbs_value(s.drop_first())
    }
}

pub open spec fn limbs_normal(s: Seq<i64>) -> bool {
    forall|i: int| 0 <= i < s.len() ==> 0 <= #[trigger] s[i] < pow2(limb_bits())
}

/// Limbs small enough that carrying through them cannot overflow a limb.
pub open spec fn limbs_small(s: Seq<i64>) -> bool {
    forall|i: int| 0 <= i < s.len() ==> -0x4000_0000_0000_0000 < #[trigger] s[i] < 0x4000_0000_0000_0000
}

pub open spec fn big_value(b: BIG) -> int {
    limbs_value(b.w@)
}

pub open spec fn big_normal(b: BIG) -> bool {
    limbs_normal(b.w@)
}

pub open spec fn dbig_value(d: DBIG) -> int {
    limbs_value(d.w@)
}

pub open spec fn dbig_normal(d: DBIG) -> bool {
    limbs_normal(d.w@)
}

proof fn lemma_limbs_normal_tail(s: Seq<i64>)
    requires
        limbs_normal(s),
        s.len() > 0,
    ensures
        limbs_normal(s.drop_first()),
{
    let t = s.drop_first();
    assert forall|i: int| 0 <= i < t.len() implies 0 <= #[trigger] t[i] < pow2(limb_bits()) by {
        assert(t[i] == s[i + 1]);
    }
}

pub proof fn lemma_limbs_bounds(s: Seq<i64>)
    requires
        limbs_normal(s),
    ensures
        0 <= limbs_value(s) < pow2(limb_bits() * s.len()),
    decreases s.len(),
{
    if s.len() == 0 {
        lemma2_to64();
        assert(limb_bits() * s.len() == 0);
    } else {
        let t = s.drop_first();
        lemma_limbs_normal_tail(s);
        lemma_limbs_bounds(t);
        let b = pow2(limb_bits()) as int;
        let v = limbs_value(t);
        let p = pow2(limb_bits() * t.len()) as int;
        assert(limbs_value(s) == s[0] + b * v);
        assert(limb_bits() * s.len() == limb_bits() + limb_bits() * t.len()) by (nonlinear_arith)
            requires
                s.len() == t.len() + 1,
        ;
        lemma_pow2_adds(limb_bits(), limb_bits() * t.len());
        assert(pow2(limb_bits() * s.len()) == b * p);
        lemma_pow2_pos(limb_bits());
        assert(0 <= s[0] < b);
        assert(s[0] + b * v < b * p) by (nonlinear_arith)
            requires
                0 <= s[0] < b,
                0 <= v < p,
        ;
        assert(0 <= s[0] + b * v) by (nonlinear_arith)
            requires
                0 <= s[0] < b,
                0 <= v,
                b > 0,
        ;
    }
}

pub proof fn lemma_limbs_split(s: Seq<i64>, n: int)
    requires
        0 <= n <= s.len(),
    ensures
        limbs_value(s) == limbs_value(s.take(n)) + pow2(limb_bits() * n as nat) * limbs_value(
            s.skip(n),
        ),
    decreases n,
{
    if n == 0 {
        assert(s.skip(0) =~= s);
        assert(s.take(0).len() == 0);
        assert(limbs_value(s.take(0)) == 0);
        lemma2_to64();
        assert(limb_bits() * n as nat == 0);
    } else {
        let t = s.drop_first();
        lemma_limbs_split(t, n - 1);
        let lo = s.take(n);
        assert(lo.drop_first() =~= t.take(n - 1));
        assert(lo[0] == s[0]);
        assert(s.skip(n) =~= t.skip(n - 1));
        let b = pow2(limb_bits()) as int;
        let p = pow2(limb_bits() * (n - 1) as nat) as int;
        assert(limb_bits() * n as nat == limb_bits() + limb_bits() * (n - 1) as nat) by (
        nonlinear_arith)
            requires
                n >= 1,
        ;
        lemma_pow2_adds(limb_bits(), limb_bits() * (n - 1) as nat);
        let a = limbs_value(t.take(n - 1));
        let c = limbs_value(t.skip(n - 1));
        assert(limbs_value(lo) == s[0] + b * a);
        assert(limbs_value(s) == s[0] + b * (a + p * c));
        assert(b * (a + p * c) == b * a + (b * p) * c) by (nonlinear_arith);
    }
}

/// The value of the low `n` limbs of a normal number is its value modulo `2^(56 n)`.
pub proof fn lemma_limbs_low(s: Seq<i64>, n: int)
    requires
        0 <= n <= s.len(),
        limbs_normal(s),
    ensures
        limbs_value(s.take(n)) == limbs_value(s) % (pow2(limb_bits() * n as nat) as int),
        limbs_value(s) < pow2(limb_bits() * n as nat) ==> limbs_value(s.take(n)) == limbs_value(s),
{
    lemma_limbs_split(s, n);
    let lo = s.take(n);
    let hi = s.skip(n);
    assert(limbs_normal(lo)) by {
        assert forall|i: int| 0 <= i < lo.len() implies 0 <= #[trigger] lo[i] < pow2(limb_bits()) by {
            assert(lo[i] == s[i]);
        }
    }
    assert(limbs_normal(hi)) by {
        assert forall|i: int| 0 <= i < hi.len() implies 0 <= #[trigger] hi[i] < pow2(limb_bits()) by {
            assert(hi[i] == s[i + n]);
        }
    }
    lemma_limbs_bounds(lo);
    lemma_limbs_bounds(hi);
    assert(lo.len() == n);
    let p = pow2(limb_bits() * n as nat) as int;
    let vl = limbs_value(lo);
    let vh = limbs_value(hi);
    lemma_pow2_pos(limb_bits() * n as nat);
    assert(limbs_value(s) == vh * p + vl) by (nonlinear_arith)
        requires
            limbs_value(s) == vl + p * vh,
    ;
    lemma_fundamental_div_mod_converse(limbs_value(s), p, vh, vl);
    if limbs_value(s) < p {
        assert(vh == 0) by {
            if vh > 0 {
                assert(p * vh >= p) by (nonlinear_arith)
                    requires
                        vh >= 1,
                        p > 0,
                ;
            }
        }
        assert(p * vh == 0) by (nonlinear_arith)
            requires
                vh == 0,
        ;
    }
}

/// Limb-wise differences give the difference of the values.
pub proof fn lemma_limbs_sub(a: Seq<i64>, b: Seq<i64>, c: Seq<i64>)
    requires
        a.len() == b.len() == c.len(),
        forall|i: int| 0 <= i < c.len() ==> #[trigger] c[i] == a[i] - b[i],
    ensures
        limbs_value(c) == limbs_value(a) - limbs_value(b),
    decreases c.len(),
{
    if c.len() > 0 {
        let (a1, b1, c1) = (a.drop_first(), b.drop_first(), c.drop_first());
        assert forall|i: int| 0 <= i < c1.len() implies #[trigger] c1[i] == a1[i] - b1[i] by {
            assert(c1[i] == c[i + 1]);
            assert(a1[i] == a[i + 1]);
            assert(b1[i] == b[i + 1]);
        }
        lemma_limbs_sub(a1, b1, c1);
        assert(c[0] == a[0] - b[0]);
        let p = pow2(limb_bits()) as int;
        assert(p * limbs_value(c1) == p * limbs_value(a1) - p * limbs_value(b1)) by (
        nonlinear_arith)
            requires
                limbs_value(c1) == limbs_value(a1) - limbs_value(b1),
        ;
    }
}

/// A normal number is zero exactly when all of its limbs are.
pub proof fn lemma_limbs_zero(s: Seq<i64>)
    requires
        limbs_normal(s),
    ensures
        (limbs_value(s) == 0) <==> (forall|i: int| 0 <= i < s.len() ==> #[trigger] s[i] == 0),
    decreases s.len(),
{
    if s.len() > 0 {
        let t = s.drop_first();
        lemma_limbs_normal_tail(s);
        lemma_limbs_zero(t);
        lemma_limbs_bounds(t);
        lemma_pow2_pos(limb_bits());
        let p = pow2(limb_bits()) as int;
        let v = limbs_value(t);
        assert(limbs_value(s) == s[0] + p * v);
        assert(0 <= s[0]);
        let all_zero = forall|i: int| 0 <= i < s.len() ==> #[trigger] s[i] == 0;
        let tail_zero = forall|i: int| 0 <= i < t.len() ==> #[trigger] t[i] == 0;
        assert(all_zero <==> (s[0] == 0 && tail_zero)) by {
            if all_zero {
                assert forall|i: int| 0 <= i < t.len() implies #[trigger] t[i] == 0 by {
                    assert(t[i] == s[i + 1]);
                }
            }
            if s[0] == 0 && tail_zero {
                assert forall|i: int| 0 <= i < s.len() implies #[trigger] s[i] == 0 by {
                    if i > 0 {
                        assert(s[i] == t[i - 1]);
                    }
                }
            }
        }
        assert((s[0] + p * v == 0) <==> (s[0] == 0 && v == 0)) by {
            if v == 0 {
                assert(p * v == 0) by (nonlinear_arith)
                    requires
                        v == 0,
                ;
            }
            if v > 0 {
                assert(p * v > 0) by (nonlinear_arith)
                    requires
                        p > 0,
                        v > 0,
                ;
            }
        }
    }
}

/// The big-number value as the number it is meant to be, for normal `BIG`s.
pub proof fn lemma_big_bounds(b: BIG)
    requires
        big_normal(b),
    ensures
        0 <= big_value(b) < pow2(big_bits()),
{
    lemma_limbs_bounds(b.w@);
}

pub proof fn lemma_dbig_bounds(d: DBIG)
    requires
        dbig_normal(d),
    ensures
        0 <= dbig_value(d) < pow2(dbig_bits()),
{
    lemma_limbs_bounds(d.w@);
}

/// A `BIG` made of the low five limbs of a normal `DBIG` holds its value modulo `2^280`.
pub proof fn lemma_low_copy(d: DBIG, r: BIG)
    requires
        dbig_normal(d),
        forall|i: int| 0 <= i < 5 ==> #[trigger] r.w[i] == d.w[i],
    ensures
        big_normal(r),
        big_value(r) == dbig_value(d) % (pow2(big_bits()) as int),
        dbig_value(d) < pow2(big_bits()) ==> big_value(r) == dbig_value(d),
{
    assert(r.w@ =~= d.w@.take(5));
    lemma_limbs_low(d.w@, 5);
    assert(limb_bits() * 5 == big_bits());
}

// ---------------------------------------------------------------------------
// The calls into the big-number type of amcl.
// ---------------------------------------------------------------------------

/// Relies on amcl's `BIG::norm`: carries are moved up so that the low limbs lie
/// in `[0, 2^56)`; the value is unchanged, and a value in range leaves a normal number.
#[verifier::external_body]
pub(crate) fn big_norm(b: &mut BIG)
    requires
        limbs_small(old(b).w@),
    ensures
        big_value(*final(b)) == big_value(*old(b)),
        0 <= big_value(*old(b)) < pow2(big_bits()) ==> big_normal(*final(b)),
{
    b.norm();
}

/// Relies on amcl's `BIG::fshr`: a shift right by fewer bits than a limb holds;
/// it returns the bits shifted out.
#[verifier::external_body]
pub(crate) fn big_fshr(b: &mut BIG, k: usize) -> (r: isize)
    requires
        big_normal(*old(b)),
        1 <= k < 56,
    ensures
        big_normal(*final(b)),
        big_value(*final(b)) == big_value(*old(b)) / (pow2(k as nat) as int),
        r == big_value(*old(b)) % (pow2(k as nat) as int),
{
    b.fshr(k)
}

/// Relies on amcl's `BIG::shr`: a shift right by `k` bits.
#[verifier::external_body]
pub(crate) fn big_shr(b: &mut BIG, k: usize)
    requires
        big_normal(*old(b)),
        k < 280,
    ensures
        big_normal(*final(b)),
        big_value(*final(b)) == big_value(*old(b)) / (pow2(k as nat) as int),
{
    b.shr(k)
}

/// Relies on amcl's `BIG::shl`: a shift left by `k` bits, where the result fits.
#[verifier::external_body]
pub(crate) fn big_shl(b: &mut BIG, k: usize)
    requires
        big_normal(*old(b)),
        k < 280,
        big_value(*old(b)) * pow2(k as nat) < pow2(big_bits()),
    ensures
        big_normal(*final(b)),
        big_value(*final(b)) == big_value(*old(b)) * pow2(k as nat),
{
    b.shl(k)
}

/// Relies on amcl's `BIG::mod2m`: reduction modulo `2^m` by clearing the high bits.
#[verifier::external_body]
pub(crate) fn big_mod2m(b: &mut BIG, m: usize)
    requires
        big_normal(*old(b)),
        m < 280,
    ensures
        big_normal(*final(b)),
        big_value(*final(b)) == big_value(*old(b)) % (pow2(m as nat) as int),
{
    b.mod2m(m)
}

/// Relies on amcl's `BIG::comp`: the sign of `a - b` for normal numbers.
#[verifier::external_body]
pub(crate) fn big_comp(a: &BIG, b: &BIG) -> (r: isize)
    requires
        big_normal(*a),
        big_normal(*b),
    ensures
        r == (if big_value(*a) < big_value(*b) {
            -1int
        } else if big_value(*a) == big_value(*b) {
            0int
        } else {
            1int
        }),
{
    BIG::comp(a, b)
}

/// The limb-wise difference, without carrying (what amcl's `BIG::minus` computes).
pub(crate) fn big_minus(a: &BIG, b: &BIG) -> (r: BIG)
    requires
        forall|i: int| 0 <= i < 5 ==> i64::MIN <= #[trigger] a.w[i] - b.w[i] <= i64::MAX,
    ensures
        forall|i: int| 0 <= i < 5 ==> #[trigger] r.w[i] == a.w[i] - b.w[i],
{
    assert(i64::MIN <= a.w[0] - b.w[0] <= i64::MAX);
    assert(i64::MIN <= a.w[1] - b.w[1] <= i64::MAX);
    assert(i64::MIN <= a.w[2] - b.w[2] <= i64::MAX);
    assert(i64::MIN <= a.w[3] - b.w[3] <= i64::MAX);
    assert(i64::MIN <= a.w[4] - b.w[4] <= i64::MAX);
    BIG {
        w: [a.w[0] - b.w[0], a.w[1] - b.w[1], a.w[2] - b.w[2], a.w[3] - b.w[3], a.w[4] - b.w[4]],
    }
}

/// Relies on amcl's `BIG::mul`: the full product of two normal numbers.
#[verifier::external_body]
pub(crate) fn big_mul(a: &BIG, b: &BIG) -> (r: DBIG)
    requires
        big_normal(*a),
        big_normal(*b),
    ensures
        dbig_normal(r),
        dbig_value(r) == big_value(*a) * big_value(*b),
{
    BIG::mul(a, b)
}

/// The low five limbs of a `DBIG` (what amcl's `BIG::new_dcopy` computes).
pub(crate) fn big_from_low_limbs(d: &DBIG) -> (r: BIG)
    ensures
        forall|i: int| 0 <= i < 5 ==> #[trigger] r.w[i] == d.w[i],
{
    BIG { w: [d.w[0], d.w[1], d.w[2], d.w[3], d.w[4]] }
}

/// Whether every limb is zero (what amcl's `BIG::iszilch` computes).
pub(crate) fn big_is_zero(b: &BIG) -> (r: bool)
    ensures
        r == (forall|i: int| 0 <= i < 5 ==> #[trigger] b.w[i] == 0),
{
    let r = b.w[0] == 0 && b.w[1] == 0 && b.w[2] == 0 && b.w[3] == 0 && b.w[4] == 0;
    assert(r ==> forall|i: int| 0 <= i < 5 ==> #[trigger] b.w[i] == 0) by {
        if r {
            assert forall|i: int| 0 <= i < 5 implies #[trigger] b.w[i] == 0 by {
                assert(i == 0 || i == 1 || i == 2 || i == 3 || i == 4);
            }
        }
    }
    r
}

/// The low bit of the lowest limb (what amcl's `BIG::parity` computes).
pub(crate) fn big_parity(b: &BIG) -> (r: isize)
    requires
        b.w[0] >= 0,
    ensures
        r == b.w[0] % 2,
{
    (b.w[0] % 2) as isize
}

/// Relies on amcl's `BIG::lastbits`: the value modulo `2^n`; a normal number is left as it is.
/// Its mask `(1 << n) - 1` is computed as a 32-bit integer, so `n` stays below 31.
#[verifier::external_body]
pub(crate) fn big_lastbits(b: &mut BIG, n: usize) -> (r: isize)
    requires
        big_normal(*old(b)),
        n < 31,
    ensures
        *final(b) == *old(b),
        r == big_value(*old(b)) % (pow2(n as nat) as int),
{
    b.lastbits(n)
}

/// Relies on amcl's `BIG::nbits`: the bit length of a normal number.
#[verifier::external_body]
pub(crate) fn big_nbits(b: &BIG) -> (r: usize)
    requires
        big_normal(*b),
    ensures
        r <= big_bits(),
        big_value(*b) == 0 ==> r == 0,
        big_value(*b) > 0 ==> r >= 1 && pow2((r - 1) as nat) <= big_value(*b) < pow2(r as nat),
{
    b.nbits()
}

/// Relies on amcl's `BIG::randomnum`: a number below `q`, drawn from the generator.
#[verifier::external_body]
pub(crate) fn big_random_below(q: &BIG, rng: &mut RAND) -> (r: BIG)
    requires
        big_normal(*q),
        big_value(*q) > 0,
    ensures
        big_normal(r),
        0 <= big_value(r) < big_value(*q),
{
    BIG::randomnum(q, rng)
}

/// A copy of all limbs (what amcl's `DBIG::new_copy` computes).
pub(crate) fn dbig_copy(d: &DBIG) -> (r: DBIG)
    ensures
        r == *d,
{
    DBIG { w: d.w }
}

/// Relies on amcl's `DBIG::shr`: a shift right by `k` bits.
#[verifier::external_body]
pub(crate) fn dbig_shr(d: &mut DBIG, k: usize)
    requires
        dbig_normal(*old(d)),
        k < 504,
    ensures
        dbig_normal(*final(d)),
        dbig_value(*final(d)) == dbig_value(*old(d)) / (pow2(k as nat) as int),
{
    d.shr(k)
}

/// Relies on amcl's `DBIG::shl`: a shift left by `k` bits, where the result fits.
#[verifier::external_body]
pub(crate) fn dbig_shl(d: &mut DBIG, k: usize)
    requires
        dbig_normal(*old(d)),
        k < 504,
        dbig_value(*old(d)) * pow2(k as nat) < pow2(dbig_bits()),
    ensures
        dbig_normal(*final(d)),
        dbig_value(*final(d)) == dbig_value(*old(d)) * pow2(k as nat),
{
    d.shl(k)
}

/// Relies on amcl's `DBIG::div`: the floor of the quotient by a positive `BIG`.
#[verifier::external_body]
pub(crate) fn dbig_div(d: &mut DBIG, c: &BIG) -> (r: BIG)
    requires
        dbig_normal(*old(d)),
        big_normal(*c),
        big_value(*c) > 0,
        dbig_value(*old(d)) < pow2(559),
        dbig_value(*old(d)) / big_value(*c) < pow2(278),
    ensures
        big_normal(r),
        big_value(r) == dbig_value(*old(d)) / big_value(*c),
{
    d.div(c)
}

} // verus!
