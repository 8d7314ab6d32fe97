//! Elements of the scalar field: integers modulo the order of the curve groups,
//! and their signed-digit (wNAF) and fixed-radix encodings.
use vstd::prelude::*;
use vstd::arithmetic::power2::*;
use vstd::arithmetic::div_mod::*;
use amcl::bn254::big::BIG;
use amcl::rand::RAND;
use crate::bignum::{
    big_fshr, big_is_zero, big_lastbits, big_norm, big_normal, big_parity, big_random_below,
    big_value, big_bits, lemma_big_bounds, lemma_limbs_zero, limb_bits, limbs_small, limbs_value,
};
use crate::utils::get_seeded_rng;

verus! {

/// The order `r` of G1, G2 and GT on the BN254 curve.
pub open spec fn curve_order() -> int {
    0x2523648240000001ba344d8000000007ff9f800000000010a10000000000000dint
}

/// A wNAF digit of `k` for window `w`: zero for even `k`, otherwise `k mod 2^w`
/// taken into `(-2^(w-1), 2^(w-1))`.
pub open spec fn wnaf_digit(k: nat, w: nat) -> int {
    if k % 2 == 0 {
        0
    } else if k % pow2(w) >= pow2((w - 1) as nat) {
        k % pow2(w) - pow2(w)
    } else {
        (k % pow2(w)) as int
    }
}

/// The width-`w` wNAF of `k`, least significant digit first (empty for `k = 0`,
/// and for widths below two, which have no wNAF).
pub open spec fn wnaf_digits(k: nat, w: nat) -> Seq<int>
    decreases k,
{
    if k == 0 || w < 2 {
        seq![]
    } else {
        proof {
            lemma_wnaf_step(k, w);
        }
        seq![wnaf_digit(k, w)] + wnaf_digits(((k - wnaf_digit(k, w)) / 2) as nat, w)
    }
}

/// The base-`2^n` digits of `k`, least significant first (empty for `k = 0`).
pub open spec fn radix_digits(k: nat, n: nat) -> Seq<int>
    decreases k,
{
    if k == 0 || n == 0 {
        seq![]
    } else {
        proof {
            lemma_pow2_strictly_increases(0, n);
            lemma2_to64();
            lemma_div_decreases(k as int, pow2(n) as int);
        }
        seq![(k % pow2(n)) as int] + radix_digits(k / pow2(n), n)
    }
}

/// `sum d[i] * b^i`.
pub open spec fn digits_value(d: Seq<int>, b: int) -> int
    decreases d.len(),
{
    if d.len() == 0 {
        0
    } else {
        d[0] + b * digits_value(d.drop_first(), b)
    }
}

pub open spec fn i8_digits(d: Seq<i8>) -> Seq<int> {
    d.map_values(|x: i8| x as int)
}

pub open spec fn u8_digits(d: Seq<u8>) -> Seq<int> {
    d.map_values(|x: u8| x as int)
}

/// The step of the wNAF recursion shrinks `k`, and the digit makes `k - d` even.
pub proof fn lemma_wnaf_step(k: nat, w: nat)
    requires
        k > 0,
        w >= 2,
    ensures
        0 <= (k - wnaf_digit(k, w)) / 2 < k,
        (k - wnaf_digit(k, w)) % 2 == 0,
        wnaf_digit(k, w) == 0 || wnaf_digit(k, w) % 2 == 1,
        -pow2((w - 1) as nat) < wnaf_digit(k, w) < pow2((w - 1) as nat),
        wnaf_digit(k, w) <= k,
{
    let p = pow2(w) as int;
    let h = pow2((w - 1) as nat) as int;
    lemma_pow2_unfold(w);
    lemma_pow2_pos((w - 1) as nat);
    lemma_pow2_strictly_increases(0, (w - 1) as nat);
    lemma2_to64();
    let m = (k as int) % p;
    lemma_mod_pos_bound(k as int, p);
    assert(p == 2 * h);
    lemma_mod_mod(k as int, 2, h);
    assert(m % 2 == (k as int) % 2);
    lemma_fundamental_div_mod(k as int, p);
    lemma_div_pos_is_pos(k as int, p);
    assert(m <= k) by (nonlinear_arith)
        requires
            k == p * ((k as int) / p) + m,
            (k as int) / p >= 0,
            p > 0,
    ;
    if k % 2 == 1 {
        if m >= h {
            // h is even, so an odd m is strictly above it
            lemma_mod_multiples_basic(pow2((w - 2) as nat) as int, 2);
            lemma_pow2_unfold((w - 1) as nat);
            assert(m != h) by {
                if w - 1 > 0 {
                    assert(h == 2 * pow2((w - 2) as nat));
                    assert(h % 2 == 0) by (nonlinear_arith)
                        requires
                            h == 2 * pow2((w - 2) as nat),
                    ;
                }
            }
        }
    }
}

/// The wNAF digits are zero or odd and below `2^(w-1)` in absolute value.
pub proof fn lemma_wnaf_digits_bounded(k: nat, w: nat)
    requires
        w >= 2,
    ensures
        forall|i: int|
            0 <= i < wnaf_digits(k, w).len() ==> -pow2((w - 1) as nat) < #[trigger] wnaf_digits(
                k,
                w,
            )[i] < pow2((w - 1) as nat) && (wnaf_digits(k, w)[i] == 0 || wnaf_digits(k, w)[i] % 2
                == 1),
    decreases k,
{
    if k > 0 {
        lemma_wnaf_step(k, w);
        let k2 = ((k - wnaf_digit(k, w)) / 2) as nat;
        lemma_wnaf_digits_bounded(k2, w);
        let s = wnaf_digits(k, w);
        assert forall|i: int| 0 <= i < s.len() implies -pow2((w - 1) as nat) < #[trigger] s[i]
            < pow2((w - 1) as nat) && (s[i] == 0 || s[i] % 2 == 1) by {
            if i > 0 {
                assert(s[i] == wnaf_digits(k2, w)[i - 1]);
            }
        }
    }
}

/// The wNAF digits are a signed binary expansion of `k`: `sum d[i] 2^i == k`.
pub proof fn lemma_wnaf_value(k: nat, w: nat)
    requires
        w >= 2,
    ensures
        digits_value(wnaf_digits(k, w), 2) == k,
    decreases k,
{
    if k > 0 {
        lemma_wnaf_step(k, w);
        let d = wnaf_digit(k, w);
        let k2 = ((k - d) / 2) as nat;
        lemma_wnaf_value(k2, w);
        let s = wnaf_digits(k, w);
        assert(s.drop_first() =~= wnaf_digits(k2, w));
    }
}

/// The base-`2^n` digits are below `2^n` and expand to `k`.
pub proof fn lemma_radix_value(k: nat, n: nat)
    requires
        n >= 1,
    ensures
        digits_value(radix_digits(k, n), pow2(n) as int) == k,
        forall|i: int|
            0 <= i < radix_digits(k, n).len() ==> 0 <= #[trigger] radix_digits(k, n)[i] < pow2(n),
    decreases k,
{
    if k > 0 {
        lemma_pow2_strictly_increases(0, n);
        lemma2_to64();
        let p = pow2(n) as int;
        let k2 = k / pow2(n);
        lemma_div_decreases(k as int, p);
        lemma_radix_value(k2, n);
        let s = radix_digits(k, n);
        assert(s.drop_first() =~= radix_digits(k2, n));
        lemma_fundamental_div_mod(k as int, p);
        lemma_mod_pos_bound(k as int, p);
        assert forall|i: int| 0 <= i < s.len() implies 0 <= #[trigger] s[i] < pow2(n) by {
            if i > 0 {
                assert(s[i] == radix_digits(k2, n)[i - 1]);
            }
        }
    }
}

proof fn lemma_value_parity(b: BIG)
    requires
        big_normal(b),
    ensures
        big_value(b) % 2 == b.w[0] % 2,
{
    let s = b.w@;
    let t = s.drop_first();
    lemma2_to64_rest();
    assert(limbs_value(s) == s[0] + 0x100000000000000 * limbs_value(t));
    assert(limbs_value(s) == s[0] + 2 * (0x80000000000000 * limbs_value(t)));
    lemma_mod_multiples_vanish(0x80000000000000 * limbs_value(t), s[0] as int, 2);
}

/// Relies on amcl's `BIG::dec`: the value is normalised, then `x` is taken from the lowest limb.
#[verifier::external_body]
fn big_dec(b: &mut BIG, x: isize)
    requires
        big_normal(*old(b)),
        -128 <= x <= 128,
    ensures
        final(b).w[0] == old(b).w[0] - x,
        forall|i: int| 1 <= i < 5 ==> #[trigger] final(b).w[i] == old(b).w[i],
{
    b.dec(x)
}

/// Relies on amcl's `BIG::modmul`: `a * b mod m`, with the result below `m`.
#[verifier::external_body]
fn big_modmul(a: &BIG, b: &BIG, m: &BIG) -> (r: BIG)
    requires
        big_normal(*a),
        big_normal(*b),
        big_normal(*m),
        big_value(*m) > 0,
    ensures
        big_normal(r),
        big_value(r) == (big_value(*a) * big_value(*b)) % big_value(*m),
{
    BIG::modmul(a, b, m)
}

/// The curve order as a normal `BIG`.
pub(crate) fn curve_order_big() -> (r: BIG)
    ensures
        big_normal(r),
        big_value(r) == curve_order(),
{
    let r = BIG { w: [0xD, 0x800000000010A1, 0x8000000007FF9F, 0x40000001BA344D, 0x25236482] };
    proof {
        lemma2_to64_rest();
        assert(r.w@ =~= seq![0xDi64, 0x800000000010A1, 0x8000000007FF9F, 0x40000001BA344D, 0x25236482]);
        lemma_five_limbs(seq![0xDi64, 0x800000000010A1, 0x8000000007FF9F, 0x40000001BA344D, 0x25236482]);
    }
    r
}

/// An integer modulo the curve order, held in a normal `BIG` below the order.
#[derive(Clone, Copy, Debug)]
pub struct CurveOrderElement {
    value: BIG,
}

/// The name this type has where it is used as the exponent of a target-group element.
pub type FieldElement = CurveOrderElement;

impl View for CurveOrderElement {
    type V = int;

    closed spec fn view(&self) -> int {
        big_value(self.value)
    }
}

impl CurveOrderElement {
    /// The value is a normal `BIG` below the order.
    #[verifier::type_invariant]
    pub closed spec fn wf(&self) -> bool {
        big_normal(self.value) && big_value(self.value) < curve_order()
    }

    pub proof fn lemma_range(&self)
        requires
            self.wf(),
        ensures
            0 <= self@ < curve_order(),
    {
        lemma_big_bounds(self.value);
    }

    /// The element zero.
    pub fn new() -> (r: Self)
        ensures
            r.wf(),
            r@ == 0,
    {
        Self::zero()
    }

    pub fn zero() -> (r: Self)
        ensures
            r.wf(),
            r@ == 0,
    {
        let value = BIG { w: [0, 0, 0, 0, 0] };
        proof {
            lemma2_to64_rest();
            assert(value.w@ =~= seq![0i64, 0, 0, 0, 0]);
            lemma_five_limbs(seq![0i64, 0, 0, 0, 0]);
        }
        Self { value }
    }

    pub fn one() -> (r: Self)
        ensures
            r.wf(),
            r@ == 1,
    {
        Self::from(1)
    }

    /// The element `r - 1`, that is `-1` modulo the order.
    pub fn minus_one() -> (r: Self)
        ensures
            r.wf(),
            r@ == curve_order() - 1,
    {
        let value = BIG { w: [0xC, 0x800000000010A1, 0x8000000007FF9F, 0x40000001BA344D, 0x25236482] };
        proof {
            lemma2_to64_rest();
            assert(value.w@ =~= seq![0xCi64, 0x800000000010A1, 0x8000000007FF9F, 0x40000001BA344D, 0x25236482]);
            lemma_five_limbs(seq![0xCi64, 0x800000000010A1, 0x8000000007FF9F, 0x40000001BA344D, 0x25236482]);
        }
        Self { value }
    }

    /// The element `x`.
    pub fn from(x: u8) -> (r: Self)
        ensures
            r.wf(),
            r@ == x as int,
    {
        let value = BIG { w: [x as i64, 0, 0, 0, 0] };
        proof {
            lemma2_to64_rest();
            assert(value.w@ =~= seq![x as i64, 0, 0, 0, 0]);
            lemma_five_limbs(value.w@);
        }
        Self { value }
    }

    /// A uniformly drawn element, from a generator seeded with fresh entropy.
    pub fn random() -> (r: Self)
        ensures
            r.wf(),
    {
        let mut rng = get_seeded_rng(256);
        Self::random_using_rng(&mut rng)
    }

    /// An element drawn from the given generator.
    pub fn random_using_rng(rng: &mut RAND) -> (r: Self)
        ensures
            r.wf(),
    {
        let order = curve_order_big();
        let value = big_random_below(&order, rng);
        Self { value }
    }

    /// The element as a normal `BIG` holding its value.
    pub fn to_bignum(&self) -> (r: BIG)
        requires
            self.wf(),
        ensures
            big_normal(r),
            big_value(r) == self@,
    {
        self.value
    }

    pub fn is_zero(&self) -> (r: bool)
        requires
            self.wf(),
        ensures
            r == (self@ == 0),
    {
        proof {
            lemma_limbs_zero(self.value.w@);
        }
        big_is_zero(&self.value)
    }

    /// The product modulo the order.
    pub fn multiply(&self, b: &Self) -> (r: Self)
        requires
            self.wf(),
            b.wf(),
        ensures
            r.wf(),
            r@ == (self@ * b@) % curve_order(),
    {
        let order = curve_order_big();
        let value = big_modmul(&self.value, &b.value, &order);
        Self { value }
    }

    /// The width-`w` wNAF of the element, least significant digit first.
    pub fn to_wnaf(&self, w: usize) -> (r: Vec<i8>)
        requires
            self.wf(),
            2 <= w <= 8,
        ensures
            i8_digits(r@) == wnaf_digits(self@ as nat, w as nat),
            digits_value(i8_digits(r@), 2) == self@,
    {
        let ghost v0 = self@;
        proof {
            lemma_big_bounds(self.value);
            lemma_pow2_280();
            lemma2_to64();
        }
        let mut half: isize = 1;
        let mut j: usize = 1;
        while j < w
            invariant
                1 <= j <= w <= 8,
                half == pow2((j - 1) as nat),
            decreases w - j,
        {
            proof {
                lemma_pow2_unfold(j as nat);
                lemma2_to64();
                lemma_pow2_strictly_increases((j - 1) as nat, 7);
            }
            half = half * 2;
            j = j + 1;
        }
        proof {
            lemma_pow2_unfold(w as nat);
        }
        let mut k = self.value;
        let mut naf: Vec<i8> = Vec::new();
        assert(i8_digits(naf@) =~= seq![]);
        while !big_is_zero(&k)
            invariant
                2 <= w <= 8,
                half == pow2((w - 1) as nat),
                pow2(w as nat) == 2 * half,
                big_normal(k),
                0 <= big_value(k) <= curve_order(),
                pow2(big_bits()) == 0x1_0000000000000000000000000000000000000000000000000000000000000000000000int,
                i8_digits(naf@) + wnaf_digits(big_value(k) as nat, w as nat) == wnaf_digits(
                    v0 as nat,
                    w as nat,
                ),
            decreases big_value(k),
        {
            let ghost kv = big_value(k) as nat;
            proof {
                lemma_limbs_zero(k.w@);
                lemma_wnaf_step(kv, w as nat);
                lemma_value_parity(k);
                if w - 1 < 7 {
                    lemma_pow2_strictly_increases((w - 1) as nat, 7);
                }
                lemma2_to64();
            }
            let ghost rest = wnaf_digits(kv, w as nat);
            assert(rest == seq![wnaf_digit(kv, w as nat)] + wnaf_digits(
                ((kv - wnaf_digit(kv, w as nat)) / 2) as nat,
                w as nat,
            ));
            let digit: isize;
            if big_parity(&k) == 1 {
                let m = big_lastbits(&mut k, w);
                digit = if m >= half {
                    m - 2 * half
                } else {
                    m
                };
                assert(digit == wnaf_digit(kv, w as nat));
                let ghost before = k;
                big_dec(&mut k, digit);
                proof {
                    lemma_dec_value(before, k, digit as int);
                }
                big_norm(&mut k);
            } else {
                digit = 0;
            }
            assert(big_value(k) == kv - digit);
            big_fshr(&mut k, 1);
            proof {
                lemma2_to64();
            }
            let ghost before_push = naf@;
            naf.push(digit as i8);
            assert(i8_digits(naf@) =~= i8_digits(before_push).push(digit as int)) by {
                assert(i8_digits(naf@).len() == i8_digits(before_push).len() + 1);
            }
            assert(i8_digits(naf@) + wnaf_digits(big_value(k) as nat, w as nat) =~= i8_digits(
                before_push,
            ) + rest);
        }
        proof {
            lemma_limbs_zero(k.w@);
        }
        assert(i8_digits(naf@) + wnaf_digits(0, w as nat) =~= i8_digits(naf@));
        proof {
            lemma_wnaf_value(v0 as nat, w as nat);
        }
        naf
    }

    /// The base-`2^n` digits of the element, least significant first; `[0]` for zero.
    pub fn to_power_of_2_base(&self, n: usize) -> (r: Vec<u8>)
        requires
            self.wf(),
            1 <= n <= 7,
        ensures
            u8_digits(r@) == (if self@ == 0 {
                seq![0int]
            } else {
                radix_digits(self@ as nat, n as nat)
            }),
            digits_value(u8_digits(r@), pow2(n as nat) as int) == self@,
    {
        let ghost v0 = self@;
        if self.is_zero() {
            let r = vec![0u8];
            assert(u8_digits(r@) =~= seq![0int]);
            assert(u8_digits(r@).drop_first().len() == 0);
            assert(pow2(n as nat) * digits_value(u8_digits(r@).drop_first(), pow2(n as nat) as int) == 0) by (nonlinear_arith)
                requires
                    digits_value(u8_digits(r@).drop_first(), pow2(n as nat) as int) == 0,
            ;
            return r;
        }
        let mut t = self.value;
        let mut repr: Vec<u8> = Vec::new();
        assert(u8_digits(repr@) =~= seq![]);
        while !big_is_zero(&t)
            invariant
                1 <= n <= 7,
                big_normal(t),
                u8_digits(repr@) + radix_digits(big_value(t) as nat, n as nat) == radix_digits(
                    v0 as nat,
                    n as nat,
                ),
            decreases big_value(t),
        {
            let ghost tv = big_value(t) as nat;
            proof {
                lemma_limbs_zero(t.w@);
                lemma_big_bounds(t);
                lemma_pow2_strictly_increases(0, n as nat);
                lemma_pow2_strictly_increases(n as nat, 8);
                lemma2_to64();
            }
            let ghost rest = radix_digits(tv, n as nat);
            assert(rest == seq![(tv % pow2(n as nat)) as int] + radix_digits(tv / pow2(n as nat), n as nat));
            let digit = big_fshr(&mut t, n);
            proof {
                lemma_mod_pos_bound(tv as int, pow2(n as nat) as int);
                lemma_div_pos_is_pos(tv as int, pow2(n as nat) as int);
                lemma_fundamental_div_mod(tv as int, pow2(n as nat) as int);
                if tv / pow2(n as nat) >= tv {
                    assert(pow2(n as nat) * (tv / pow2(n as nat)) >= 2 * tv) by (nonlinear_arith)
                        requires
                            pow2(n as nat) >= 2,
                            tv / pow2(n as nat) >= tv,
                    ;
                }
            }
            let ghost before_push = repr@;
            repr.push(digit as u8);
            assert(u8_digits(repr@) =~= u8_digits(before_push).push(digit as int)) by {
                assert(u8_digits(repr@).len() == u8_digits(before_push).len() + 1);
            }
            assert(u8_digits(repr@) + radix_digits(big_value(t) as nat, n as nat) =~= u8_digits(
                before_push,
            ) + rest);
        }
        proof {
            lemma_limbs_zero(t.w@);
        }
        assert(u8_digits(repr@) + radix_digits(0, n as nat) =~= u8_digits(repr@));
        assert(u8_digits(repr@) == radix_digits(v0 as nat, n as nat));
        proof {
            self.lemma_range();
            lemma_radix_value(v0 as nat, n as nat);
        }
        assert(digits_value(radix_digits(v0 as nat, n as nat), pow2(n as nat) as int) == v0);
        repr
    }
}

proof fn lemma_pow2_280()
    ensures
        pow2(big_bits()) == 0x1_0000000000000000000000000000000000000000000000000000000000000000000000int,
{
    lemma2_to64_rest();
    lemma_pow2_adds(56, 56);
    lemma_pow2_adds(112, 56);
    lemma_pow2_adds(168, 56);
    lemma_pow2_adds(224, 56);
}

/// The value of five limbs, written out.
proof fn lemma_five_limbs(s: Seq<i64>)
    requires
        s.len() == 5,
    ensures
        limbs_value(s) == s[0] + 0x100000000000000 * (s[1] + 0x100000000000000 * (s[2]
            + 0x100000000000000 * (s[3] + 0x100000000000000 * s[4]))),
{
    lemma2_to64_rest();
    reveal_with_fuel(limbs_value, 6);
    assert(s.drop_first().drop_first().drop_first().drop_first().drop_first().len() == 0);
}

/// Taking `x` from the lowest limb takes `x` from the value.
proof fn lemma_dec_value(o: BIG, b: BIG, x: int)
    requires
        big_normal(o),
        b.w[0] == o.w[0] - x,
        forall|i: int| 1 <= i < 5 ==> #[trigger] b.w[i] == o.w[i],
        -128 <= x <= 128,
    ensures
        big_value(b) == big_value(o) - x,
        limbs_small(b.w@),
{
    assert(b.w@.drop_first() =~= o.w@.drop_first());
    lemma2_to64_rest();
    assert forall|i: int| 0 <= i < b.w@.len() implies -0x4000_0000_0000_0000 < #[trigger] b.w@[i]
        < 0x4000_0000_0000_0000 by {
        assert(0 <= o.w@[i] < pow2(limb_bits()));
    }
}

} // verus!
