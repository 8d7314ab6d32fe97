//! GT, the target group of the pairing: elements of the degree-12 extension field,
//! and the reduced ate pairing (single, double and batched) that produces them.
use vstd::prelude::*;
use amcl::bn254::big::BIG;
use amcl::bn254::ecp::ECP;
use amcl::bn254::ecp2::ECP2;
use amcl::bn254::fp12::FP12;
use amcl::bn254::fp4::FP4;
use amcl::bn254::pair;
use crate::bignum::{big_normal, big_value};
use crate::curve_order_elem::{CurveOrderElement, FieldElement};
use crate::errors::SerzDeserzError;
use crate::hex::{field_text, is_field_text};
use crate::group_elem::GroupElement;
use crate::group_elem_g1::{G1, ecp_in_range};
use crate::group_elem_g2::{G2, ecp2_in_range};

verus! {

#[verifier::external_type_specification]
#[verifier::external_body]
pub struct ExFp12(FP12);

#[verifier::external_type_specification]
#[verifier::external_body]
pub struct ExFp4(FP4);

/// Bytes of the encoding of a GT element: twelve base-field elements of 32 bytes.
pub const GROUP_GT_SIZE: usize = 384;

/// The element amcl's `FP12::new_int` makes from the integer `a`.
pub uninterp spec fn fp12_of_int(a: int) -> FP12;

/// Every base-field component of `a` is in the range amcl's constructors and operations
/// keep: an excess in `[1, 2^26)` and a value below `2^256`. The field arithmetic under
/// the pairing, the products, inverses and powers assumes it.
pub uninterp spec fn fp12_in_range(a: FP12) -> bool;

/// The product amcl's `FP12::mul` leaves in `a`.
pub uninterp spec fn fp12_product(a: FP12, b: FP12) -> FP12;

/// The inverse amcl's `FP12::inverse` leaves in `a`.
pub uninterp spec fn fp12_inverse(a: FP12) -> FP12;

/// The power amcl's `FP12::pow` returns for `a` and a normal `BIG` of value `e`.
pub uninterp spec fn fp12_power(a: FP12, e: int) -> FP12;

/// Whether amcl's `FP12::isunity` holds of `a`.
pub uninterp spec fn fp12_is_unity(a: FP12) -> bool;

/// Whether amcl's `FP12::equals` holds of `a` and `b`.
pub uninterp spec fn fp12_equal(a: FP12, b: FP12) -> bool;

/// The element amcl's `FP12::frombytes` decodes from `b`.
pub uninterp spec fn fp12_from_bytes(b: Seq<u8>) -> FP12;

/// The encoding amcl's `FP12::tobytes` writes for `a`.
pub uninterp spec fn fp12_to_bytes(a: FP12) -> Seq<u8>;

/// The text amcl's `FP12::to_hex` returns for `a`.
pub uninterp spec fn fp12_hex(a: FP12) -> Seq<char>;

/// The element amcl's `FP12::from_hex` reads from `s`.
pub uninterp spec fn fp12_from_hex(s: Seq<char>) -> FP12;

/// The element amcl's `FP4::from_hex` reads from `s`.
pub uninterp spec fn fp4_from_hex(s: Seq<char>) -> FP4;

/// Base-field elements in the text form of an element of the degree-4 extension.
pub const HEX_FIELDS_FP4: usize = 4;

/// Base-field elements in the text form of a GT element.
pub const HEX_FIELDS_GT: usize = 12;

/// The Miller loop value amcl's `pair::ate` returns for the G2 point `q` and the G1 point `p`.
pub uninterp spec fn miller_loop(q: ECP2, p: ECP) -> FP12;

/// The combined Miller loop value amcl's `pair::ate2` returns for two pairs.
pub uninterp spec fn miller_loop2(q1: ECP2, p1: ECP, q2: ECP2, p2: ECP) -> FP12;

/// The final exponentiation amcl's `pair::fexp` applies to `m`.
pub uninterp spec fn final_exp(m: FP12) -> FP12;

/// Relies on amcl's `FP12::new_int`; the element of the integer one is the unity.
/// Only zero and one are made here (`BIG::mul` inside overflows on `isize::MIN`).
#[verifier::external_body]
fn fp12_new_int(a: isize) -> (r: FP12)
    requires
        a == 0 || a == 1,
    ensures
        r == fp12_of_int(a as int),
        a == 1 ==> fp12_is_unity(r),
        fp12_in_range(r),
{
    FP12::new_int(a)
}

/// Relies on amcl's `FP12::mul`.
#[verifier::external_body]
fn fp12_mul(a: &FP12, b: &FP12) -> (r: FP12)
    requires
        fp12_in_range(*a),
        fp12_in_range(*b),
    ensures
        r == fp12_product(*a, *b),
        fp12_in_range(r),
{
    let mut r = *a;
    r.mul(b);
    r
}

/// Relies on amcl's `FP12::inverse`.
#[verifier::external_body]
fn fp12_inv(a: &FP12) -> (r: FP12)
    requires
        fp12_in_range(*a),
    ensures
        r == fp12_inverse(*a),
        fp12_in_range(r),
{
    let mut r = *a;
    r.inverse();
    r
}

/// Relies on amcl's `FP12::pow`, which takes an exponent of at least one.
#[verifier::external_body]
fn fp12_pow(a: &FP12, e: &BIG) -> (r: FP12)
    requires
        fp12_in_range(*a),
        big_normal(*e),
        big_value(*e) >= 1,
    ensures
        r == fp12_power(*a, big_value(*e)),
        fp12_in_range(r),
{
    a.pow(e)
}

/// Relies on amcl's `FP12::isunity`.
#[verifier::external_body]
fn fp12_isunity(a: &FP12) -> (r: bool)
    ensures
        r == fp12_is_unity(*a),
{
    a.isunity()
}

/// Relies on amcl's `FP12::equals`.
#[verifier::external_body]
fn fp12_equals(a: &FP12, b: &FP12) -> (r: bool)
    ensures
        r == fp12_equal(*a, *b),
{
    a.equals(b)
}

/// Relies on amcl's `FP12::frombytes`, which reads the first 384 bytes.
#[verifier::external_body]
fn fp12_frombytes(b: &[u8]) -> (r: FP12)
    requires
        b@.len() == GROUP_GT_SIZE,
    ensures
        r == fp12_from_bytes(b@),
        fp12_in_range(r),
{
    FP12::frombytes(b)
}

/// Relies on amcl's `FP12::tobytes`: 384 bytes.
#[verifier::external_body]
fn fp12_tobytes(a: &FP12) -> (r: Vec<u8>)
    requires
        fp12_in_range(*a),
    ensures
        r@ == fp12_to_bytes(*a),
        r@.len() == GROUP_GT_SIZE,
{
    let mut t = *a;
    let mut b = vec![0u8; GROUP_GT_SIZE];
    t.tobytes(b.as_mut_slice());
    b
}

/// Relies on amcl's `FP12::to_hex`.
#[verifier::external_body]
fn fp12_to_hex(a: &FP12) -> (r: String)
    ensures
        r@ == fp12_hex(*a),
{
    a.to_hex()
}

/// Relies on amcl's `FP12::from_hex`: it splits the text on whitespace and reads each
/// base-field element as a decimal excess (`i32::from_str`) and a hexadecimal value
/// (`BIG::from_hex`); neither parse fails on the text form this requires.
#[verifier::external_body]
fn fp12_read_hex(s: &String) -> (r: FP12)
    requires
        field_text(s@, HEX_FIELDS_GT as nat),
    ensures
        r == fp12_from_hex(s@),
        fp12_in_range(r),
{
    FP12::from_hex(s.clone())
}

/// Relies on amcl's `FP4::from_hex`: it splits the text on whitespace and reads each
/// base-field element as a decimal excess (`i32::from_str`) and a hexadecimal value
/// (`BIG::from_hex`); neither parse fails on the text form this requires.
#[verifier::external_body]
fn fp4_read_hex(s: &String) -> (r: FP4)
    requires
        field_text(s@, HEX_FIELDS_FP4 as nat),
    ensures
        r == fp4_from_hex(s@),
{
    FP4::from_hex(s.clone())
}

/// Relies on amcl's `pair::ate`, the Miller loop of the optimal ate pairing.
#[verifier::external_body]
fn ate(q: &ECP2, p: &ECP) -> (r: FP12)
    requires
        ecp2_in_range(*q),
        ecp_in_range(*p),
    ensures
        r == miller_loop(*q, *p),
        fp12_in_range(r),
{
    pair::ate(q, p)
}

/// Relies on amcl's `pair::ate2`, the Miller loop of two pairs at once.
#[verifier::external_body]
fn ate2(q1: &ECP2, p1: &ECP, q2: &ECP2, p2: &ECP) -> (r: FP12)
    requires
        ecp2_in_range(*q1),
        ecp_in_range(*p1),
        ecp2_in_range(*q2),
        ecp_in_range(*p2),
    ensures
        r == miller_loop2(*q1, *p1, *q2, *p2),
        fp12_in_range(r),
{
    pair::ate2(q1, p1, q2, p2)
}

/// Relies on amcl's `pair::fexp`, the final exponentiation.
#[verifier::external_body]
fn fexp(m: &FP12) -> (r: FP12)
    requires
        fp12_in_range(*m),
    ensures
        r == final_exp(*m),
        fp12_in_range(r),
{
    pair::fexp(m)
}

/// An element of the target group.
#[derive(Clone, Copy)]
pub struct GT {
    value: FP12,
}

/// The reduced pairing `e(g1, g2)`: the unity when either input is the identity,
/// else the final exponentiation of the Miller loop (which takes the G2 point first).
pub open spec fn pairing_value(g1: G1, g2: G2) -> FP12 {
    if G1::spec_is_identity(g1) || G2::spec_is_identity(g2) {
        fp12_of_int(1)
    } else {
        final_exp(miller_loop(g2.point(), g1.point()))
    }
}

/// `e(g1, g2) * e(h1, h2)`: a pair with an identity leaves the other pairing alone,
/// else one combined Miller loop and one final exponentiation.
pub open spec fn pairing2_value(g1: G1, g2: G2, h1: G1, h2: G2) -> FP12 {
    if G1::spec_is_identity(g1) || G2::spec_is_identity(g2) {
        pairing_value(h1, h2)
    } else if G1::spec_is_identity(h1) || G2::spec_is_identity(h2) {
        pairing_value(g1, g2)
    } else {
        final_exp(miller_loop2(g2.point(), g1.point(), h2.point(), h1.point()))
    }
}

/// Whether a pair of a batch holds an identity, and so is left out of the product.
pub open spec fn identity_pair(p: (&G1, &G2)) -> bool {
    G1::spec_is_identity(*p.0) || G2::spec_is_identity(*p.1)
}

/// The product, from the unity, of the Miller loop values of the pairs that hold no identity.
pub open spec fn miller_product(pairs: Seq<(&G1, &G2)>) -> FP12
    decreases pairs.len(),
{
    if pairs.len() == 0 {
        fp12_of_int(1)
    } else {
        let acc = miller_product(pairs.drop_last());
        let p = pairs.last();
        if identity_pair(p) {
            acc
        } else {
            fp12_product(acc, miller_loop(p.1.point(), p.0.point()))
        }
    }
}

/// The batched pairing: one final exponentiation of the product of Miller loop values.
pub open spec fn multi_pairing_value(pairs: Seq<(&G1, &G2)>) -> FP12 {
    final_exp(miller_product(pairs))
}

impl GT {
    /// The value is in the range amcl's operations keep.
    #[verifier::type_invariant]
    closed spec fn in_range(&self) -> bool {
        fp12_in_range(self.value)
    }

    pub closed spec fn element(&self) -> FP12 {
        self.value
    }

    /// The extension-field element made from the integer zero.
    pub fn new() -> (r: Self)
        ensures
            r.element() == fp12_of_int(0),
    {
        Self { value: fp12_new_int(0) }
    }

    /// Reduced ate pairing. Returns `e(g1, g2)`.
    pub fn ate_pairing(g1: &G1, g2: &G2) -> (r: Self)
        ensures
            r.element() == pairing_value(*g1, *g2),
            G1::spec_is_identity(*g1) || G2::spec_is_identity(*g2) ==> fp12_is_unity(r.element()),
    {
        if g1.is_identity() || g2.is_identity() {
            return Self::one();
        }
        let e = ate(&g2.to_ecp(), &g1.to_ecp());
        Self { value: fexp(&e) }
    }

    /// Reduced ate double pairing. Returns `e(g1, g2) * e(h1, h2)`.
    pub fn ate_2_pairing(g1: &G1, g2: &G2, h1: &G1, h2: &G2) -> (r: Self)
        ensures
            r.element() == pairing2_value(*g1, *g2, *h1, *h2),
    {
        if g1.is_identity() || g2.is_identity() {
            return Self::ate_pairing(h1, h2);
        }
        if h1.is_identity() || h2.is_identity() {
            return Self::ate_pairing(g1, g2);
        }
        let e = ate2(&g2.to_ecp(), &g1.to_ecp(), &h2.to_ecp(), &h1.to_ecp());
        Self { value: fexp(&e) }
    }

    /// Reduced ate multi pairing: the product of the pairings of the pairs, with one
    /// shared final exponentiation. Pairs that hold an identity are skipped.
    ///
    /// amcl offers no incremental multi-pairing accumulator, so the accumulator here is
    /// the running product of each pair's Miller loop value (`pair::ate`), and the final
    /// exponentiation (`pair::fexp`) is applied once to that product.
    pub fn ate_multi_pairing(elems: Vec<(&G1, &G2)>) -> (r: Self)
        ensures
            r.element() == multi_pairing_value(elems@),
    {
        let mut accum = fp12_new_int(1);
        let mut i: usize = 0;
        while i < elems.len()
            invariant
                i <= elems@.len(),
                accum == miller_product(elems@.subrange(0, i as int)),
                fp12_in_range(accum),
            decreases elems@.len() - i,
        {
            let (g1, g2) = elems[i];
            assert(elems@.subrange(0, i + 1).drop_last() =~= elems@.subrange(0, i as int));
            if !(g1.is_identity() || g2.is_identity()) {
                let m = ate(&g2.to_ecp(), &g1.to_ecp());
                accum = fp12_mul(&accum, &m);
            }
            i = i + 1;
        }
        assert(elems@.subrange(0, i as int) =~= elems@);
        Self { value: fexp(&accum) }
    }

    /// The product `a * b`.
    pub fn mul(a: &Self, b: &Self) -> (r: Self)
        ensures
            r.element() == fp12_product(a.element(), b.element()),
    {
        proof {
            use_type_invariant(a);
            use_type_invariant(b);
        }
        Self { value: fp12_mul(&a.value, &b.value) }
    }

    /// `self ^ e`; the unity for `e = 0`.
    pub fn pow(&self, e: &FieldElement) -> (r: Self)
        requires
            e.wf(),
        ensures
            e@ == 0 ==> r.element() == fp12_of_int(1),
            e@ != 0 ==> r.element() == fp12_power(self.element(), e@),
    {
        if e.is_zero() {
            return Self::one();
        }
        let b = e.to_bignum();
        proof {
            e.lemma_range();
        }
        proof {
            use_type_invariant(self);
        }
        Self { value: fp12_pow(&self.value, &b) }
    }

    /// Return inverse of itself.
    pub fn inverse(&self) -> (r: Self)
        ensures
            r.element() == fp12_inverse(self.element()),
    {
        proof {
            use_type_invariant(self);
        }
        Self { value: fp12_inv(&self.value) }
    }

    pub fn inverse_mut(&mut self)
        ensures
            final(self).element() == fp12_inverse(old(self).element()),
    {
        proof {
            use_type_invariant(&*self);
        }
        let v = fp12_inv(&self.value);
        self.value = v;
    }

    pub fn is_one(&self) -> (r: bool)
        ensures
            r == fp12_is_unity(self.element()),
    {
        fp12_isunity(&self.value)
    }

    /// The identity of GT, the unity of the extension field.
    pub fn one() -> (r: Self)
        ensures
            r.element() == fp12_of_int(1),
            fp12_is_unity(r.element()),
    {
        Self { value: fp12_new_int(1) }
    }

    pub fn to_fp12(&self) -> (r: FP12)
        ensures
            r == self.element(),
            fp12_in_range(r),
    {
        proof {
            use_type_invariant(self);
        }
        self.value
    }

    /// The 384-byte encoding.
    pub fn to_bytes(&self) -> (r: Vec<u8>)
        ensures
            r@ == fp12_to_bytes(self.element()),
            r@.len() == GROUP_GT_SIZE,
    {
        proof {
            use_type_invariant(self);
        }
        fp12_tobytes(&self.value)
    }

    /// Decodes an element from its 384-byte encoding.
    pub fn from_bytes(bytes: &[u8]) -> (r: Result<Self, SerzDeserzError>)
        ensures
            bytes@.len() != GROUP_GT_SIZE <==> r is Err,
            r matches Err(e) ==> e == SerzDeserzError::GTBytesIncorrectSize(
                bytes@.len() as usize,
                GROUP_GT_SIZE,
            ),
            r matches Ok(g) ==> g.element() == fp12_from_bytes(bytes@),
    {
        if bytes.len() != GROUP_GT_SIZE {
            return Err(SerzDeserzError::GTBytesIncorrectSize(bytes.len(), GROUP_GT_SIZE));
        }
        Ok(Self { value: fp12_frombytes(bytes) })
    }

    pub fn to_hex(&self) -> (r: String)
        ensures
            r@ == fp12_hex(self.element()),
    {
        fp12_to_hex(&self.value)
    }

    /// Reads an element from its text form.
    pub fn from_hex(s: String) -> (r: Result<Self, SerzDeserzError>)
        ensures
            field_text(s@, HEX_FIELDS_GT as nat) <==> r is Ok,
            r matches Err(e) ==> e == SerzDeserzError::MalformedHex,
            r matches Ok(g) ==> g.element() == fp12_from_hex(s@),
    {
        if !is_field_text(&s, HEX_FIELDS_GT) {
            return Err(SerzDeserzError::MalformedHex);
        }
        Ok(Self { value: fp12_read_hex(&s) })
    }

    /// The pairing of a random G1 element and a random G2 element.
    pub fn random() -> (r: Self)
        ensures
            exists|g1: G1, g2: G2| r.element() == pairing_value(g1, g2),
    {
        let g1 = G1::random();
        let g2 = G2::random();
        let r = GT::ate_pairing(&g1, &g2);
        assert(r.element() == pairing_value(g1, g2));
        r
    }

    /// The element holding the given extension-field value, one in the range that
    /// amcl's operations keep (such as `to_fp12` returns).
    pub fn from_fp12(value: FP12) -> (r: Self)
        requires
            fp12_in_range(value),
        ensures
            r.element() == value,
    {
        Self { value }
    }
}

/// Reads an element of the degree-4 extension from its text form: four base-field elements.
#[allow(non_snake_case)]
pub fn parse_hex_as_FP4(s: &String) -> (r: Result<FP4, SerzDeserzError>)
    ensures
        field_text(s@, HEX_FIELDS_FP4 as nat) <==> r is Ok,
        r matches Err(e) ==> e == SerzDeserzError::MalformedHex,
        r matches Ok(f) ==> f == fp4_from_hex(s@),
{
    if !is_field_text(s, HEX_FIELDS_FP4) {
        return Err(SerzDeserzError::MalformedHex);
    }
    Ok(fp4_read_hex(s))
}

impl PartialEq for GT {
    fn eq(&self, other: &GT) -> (r: bool) {
        fp12_equals(&self.value, &other.value)
    }
}

impl vstd::std_specs::cmp::PartialEqSpecImpl for GT {
    open spec fn obeys_eq_spec() -> bool {
        true
    }

    open spec fn eq_spec(&self, other: &GT) -> bool {
        fp12_equal(self.element(), other.element())
    }
}

/// A pair holding an identity contributes nothing to a batched pairing: the batch
/// pairs to the same value with that pair removed.
pub proof fn lemma_multi_pairing_skips_identity(pairs: Seq<(&G1, &G2)>, k: int)
    requires
        0 <= k < pairs.len(),
        identity_pair(pairs[k]),
    ensures
        multi_pairing_value(pairs) == multi_pairing_value(pairs.remove(k)),
{
    lemma_miller_product_skips_identity(pairs, k);
}

proof fn lemma_miller_product_skips_identity(pairs: Seq<(&G1, &G2)>, k: int)
    requires
        0 <= k < pairs.len(),
        identity_pair(pairs[k]),
    ensures
        miller_product(pairs) == miller_product(pairs.remove(k)),
    decreases pairs.len(),
{
    if k == pairs.len() - 1 {
        assert(pairs.remove(k) =~= pairs.drop_last());
    } else {
        let rest = pairs.drop_last();
        lemma_miller_product_skips_identity(rest, k);
        let removed = pairs.remove(k);
        assert(removed.drop_last() =~= rest.remove(k));
        assert(removed.last() == pairs.last());
    }
}

/// The double pairing with an identity in its second pair is the single pairing of
/// its first pair.
pub proof fn lemma_ate_2_pairing_identity(g1: G1, g2: G2, h1: G1, h2: G2)
    requires
        G1::spec_is_identity(h1) || G2::spec_is_identity(h2),
    ensures
        pairing2_value(g1, g2, h1, h2) == pairing_value(g1, g2),
{
}

} // verus!
