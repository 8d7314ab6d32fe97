//! G2: points of the BN254 curve's sextic twist, over the quadratic extension field.
use vstd::prelude::*;
use amcl::bn254::big::BIG;
use amcl::bn254::ecp2::ECP2;
use crate::bignum::{big_normal, big_value};
use crate::curve_order_elem::{CurveOrderElement, curve_order, curve_order_big};
use crate::errors::SerzDeserzError;
use crate::hex::{field_text, is_field_text};
use crate::group_elem::{GroupElement, LookupTable, multiple, table_of, table_digits, wnaf_eval};
use crate::group_elem_vector::GroupElemVec;
use crate::curve_order_elem::{i8_digits, wnaf_digits};

verus! {

#[verifier::external_type_specification]
#[verifier::external_body]
pub struct ExEcp2(ECP2);

/// Bytes of the encoding of a G2 element.
pub const GROUP_G2_SIZE: usize = 128;

/// Every coordinate of `a` is in the range amcl's constructors and operations keep:
/// an excess in `[1, 2^26)` and a value below `2^256`. Negation (inside `neg`, `sub` and
/// `mul`) assumes it.
pub uninterp spec fn ecp2_in_range(a: ECP2) -> bool;

/// The point that amcl's `ECP2::add` leaves in `a` after adding `b`.
pub uninterp spec fn ecp2_sum(a: ECP2, b: ECP2) -> ECP2;

/// The point that amcl's `ECP2::sub` leaves in `a` after subtracting `b`.
pub uninterp spec fn ecp2_difference(a: ECP2, b: ECP2) -> ECP2;

/// The point that amcl's `ECP2::dbl` leaves in `a`.
pub uninterp spec fn ecp2_doubled(a: ECP2) -> ECP2;

/// The point that amcl's `ECP2::neg` leaves in `a`.
pub uninterp spec fn ecp2_negated(a: ECP2) -> ECP2;

/// Whether amcl's `ECP2::is_infinity` holds of `a`.
pub uninterp spec fn ecp2_is_infinity(a: ECP2) -> bool;

/// Whether amcl's `ECP2::equals` holds of `a` and `b`.
pub uninterp spec fn ecp2_equal(a: ECP2, b: ECP2) -> bool;

/// The point amcl's `ECP2::mul` returns for `a` and a normal `BIG` of value `e`.
pub uninterp spec fn ecp2_times(a: ECP2, e: int) -> ECP2;

/// The point amcl's `ECP2::frombytes` decodes from `b`.
pub uninterp spec fn ecp2_from_bytes(b: Seq<u8>) -> ECP2;

/// The encoding amcl's `ECP2::tobytes` writes for `a`.
pub uninterp spec fn ecp2_to_bytes(a: ECP2) -> Seq<u8>;

/// Base-field elements in the text form of a G2 element: its three projective coordinates, two each.
pub const HEX_FIELDS_G2: usize = 6;

/// The text amcl's `ECP2::to_hex` returns for `a`.
pub uninterp spec fn ecp2_hex(a: ECP2) -> Seq<char>;

/// The point amcl's `ECP2::from_hex` reads from `s`.
pub uninterp spec fn ecp2_from_hex(s: Seq<char>) -> ECP2;

/// Relies on amcl's `ECP2::to_hex`.
#[verifier::external_body]
fn ecp2_to_hex(a: &ECP2) -> (r: String)
    ensures
        r@ == ecp2_hex(*a),
{
    a.to_hex()
}

/// Relies on amcl's `ECP2::from_hex`: it splits the text on whitespace and reads each
/// coordinate as a decimal excess (`i32::from_str`) and a hexadecimal value
/// (`BIG::from_hex`); neither parse fails on the text form this requires.
#[verifier::external_body]
fn ecp2_read_hex(s: &String) -> (r: ECP2)
    requires
        field_text(s@, HEX_FIELDS_G2 as nat),
    ensures
        r == ecp2_from_hex(s@),
        ecp2_in_range(r),
{
    ECP2::from_hex(s.clone())
}

/// Relies on amcl's `ECP2::add`.
#[verifier::external_body]
fn ecp2_add(a: &ECP2, b: &ECP2) -> (r: ECP2)
    requires
        ecp2_in_range(*a),
        ecp2_in_range(*b),
    ensures
        r == ecp2_sum(*a, *b),
        ecp2_in_range(r),
{
    let mut r = *a;
    r.add(b);
    r
}

/// Relies on amcl's `ECP2::sub`.
#[verifier::external_body]
fn ecp2_sub(a: &ECP2, b: &ECP2) -> (r: ECP2)
    requires
        ecp2_in_range(*a),
        ecp2_in_range(*b),
    ensures
        r == ecp2_difference(*a, *b),
        ecp2_in_range(r),
{
    let mut r = *a;
    r.sub(b);
    r
}

/// Relies on amcl's `ECP2::dbl`.
#[verifier::external_body]
fn ecp2_dbl(a: &ECP2) -> (r: ECP2)
    requires
        ecp2_in_range(*a),
    ensures
        r == ecp2_doubled(*a),
        ecp2_in_range(r),
{
    let mut r = *a;
    r.dbl();
    r
}

/// Relies on amcl's `ECP2::neg`.
#[verifier::external_body]
fn ecp2_neg(a: &ECP2) -> (r: ECP2)
    requires
        ecp2_in_range(*a),
    ensures
        r == ecp2_negated(*a),
        ecp2_in_range(r),
{
    let mut r = *a;
    r.neg();
    r
}

/// Relies on amcl's `ECP2::is_infinity`.
#[verifier::external_body]
fn ecp2_is_inf(a: &ECP2) -> (r: bool)
    ensures
        r == ecp2_is_infinity(*a),
{
    a.is_infinity()
}

/// Relies on amcl's `ECP2::equals`.
#[verifier::external_body]
fn ecp2_equals(a: &ECP2, b: &ECP2) -> (r: bool)
    ensures
        r == ecp2_equal(*a, *b),
{
    a.equals(b)
}

/// Relies on amcl's `ECP2::mul`, the constant-time multiplication by a `BIG`; its window
/// digits fit its table for exponents up to the group order.
#[verifier::external_body]
fn ecp2_mul(a: &ECP2, e: &BIG) -> (r: ECP2)
    requires
        ecp2_in_range(*a),
        big_normal(*e),
        big_value(*e) <= curve_order(),
    ensures
        r == ecp2_times(*a, big_value(*e)),
        ecp2_in_range(r),
{
    a.mul(e)
}

/// Relies on amcl's `ECP2::generator`: the curve's fixed generator.
#[verifier::external_body]
fn ecp2_generator() -> (r: ECP2)
    ensures
        ecp2_in_range(r),
{
    ECP2::generator()
}

/// Relies on amcl's `ECP2::frombytes`, which reads the first 128 bytes; the all-zero
/// encoding is no point of the curve and decodes to the point at infinity.
#[verifier::external_body]
fn ecp2_frombytes(b: &[u8]) -> (r: ECP2)
    requires
        b@.len() == GROUP_G2_SIZE,
    ensures
        r == ecp2_from_bytes(b@),
        b@ == identity_bytes_g2() ==> ecp2_is_infinity(r),
        ecp2_in_range(r),
{
    ECP2::frombytes(b)
}

/// Relies on amcl's `ECP2::tobytes`: 128 bytes.
#[verifier::external_body]
fn ecp2_tobytes(a: &ECP2) -> (r: Vec<u8>)
    requires
        ecp2_in_range(*a),
    ensures
        r@ == ecp2_to_bytes(*a),
        r@.len() == GROUP_G2_SIZE,
{
    let mut b = vec![0u8; GROUP_G2_SIZE];
    a.tobytes(b.as_mut_slice());
    b
}

/// An element of G2.
#[derive(Clone, Copy, Debug)]
pub struct G2 {
    value: ECP2,
}

/// The all-zero encoding, which decodes to the point at infinity.
pub open spec fn identity_bytes_g2() -> Seq<u8> {
    Seq::new(GROUP_G2_SIZE as nat, |i: int| 0u8)
}

impl G2 {
    /// The point is in the range amcl's operations keep.
    #[verifier::type_invariant]
    closed spec fn in_range(&self) -> bool {
        ecp2_in_range(self.value)
    }

    pub closed spec fn point(&self) -> ECP2 {
        self.value
    }

    /// The underlying curve point.
    pub fn to_ecp(&self) -> (r: ECP2)
        ensures
            r == self.point(),
            ecp2_in_range(r),
    {
        proof {
            use_type_invariant(self);
        }
        self.value
    }

    /// The encoding: 128 bytes.
    pub fn to_vec(&self) -> (r: Vec<u8>)
        ensures
            r@ == ecp2_to_bytes(self.point()),
            r@.len() == GROUP_G2_SIZE,
    {
        proof {
            use_type_invariant(self);
        }
        ecp2_tobytes(&self.value)
    }

    /// Decodes an element from its 128-byte encoding.
    pub fn from_slice(bytes: &[u8]) -> (r: Result<Self, SerzDeserzError>)
        ensures
            bytes@.len() != GROUP_G2_SIZE <==> r is Err,
            r matches Err(e) ==> e == SerzDeserzError::G2BytesIncorrectSize(bytes@.len() as usize, GROUP_G2_SIZE),
            r matches Ok(g) ==> g.point() == ecp2_from_bytes(bytes@),
    {
        if bytes.len() != GROUP_G2_SIZE {
            return Err(SerzDeserzError::G2BytesIncorrectSize(bytes.len(), GROUP_G2_SIZE));
        }
        Ok(Self { value: ecp2_frombytes(bytes) })
    }

    /// The text form: each coordinate's excess and hexadecimal value.
    pub fn to_hex(&self) -> (r: String)
        ensures
            r@ == ecp2_hex(self.point()),
    {
        ecp2_to_hex(&self.value)
    }

    /// Reads an element from its text form.
    pub fn from_hex(s: String) -> (r: Result<Self, SerzDeserzError>)
        ensures
            field_text(s@, HEX_FIELDS_G2 as nat) <==> r is Ok,
            r matches Err(e) ==> e == SerzDeserzError::MalformedHex,
            r matches Ok(g) ==> g.point() == ecp2_from_hex(s@),
    {
        if !is_field_text(&s, HEX_FIELDS_G2) {
            return Err(SerzDeserzError::MalformedHex);
        }
        Ok(Self { value: ecp2_read_hex(&s) })
    }

    /// Writes the encoding into `target`, which must hold exactly 128 bytes.
    pub fn write_to_slice(&self, target: &mut [u8]) -> (r: Result<(), SerzDeserzError>)
        ensures
            old(target)@.len() != GROUP_G2_SIZE <==> r is Err,
            r matches Err(e) ==> e == SerzDeserzError::G2BytesIncorrectSize(old(target)@.len() as usize, GROUP_G2_SIZE),
            r is Err ==> final(target)@ == old(target)@,
            r is Ok ==> final(target)@ == ecp2_to_bytes(self.point()),
    {
        if target.len() != GROUP_G2_SIZE {
            return Err(SerzDeserzError::G2BytesIncorrectSize(target.len(), GROUP_G2_SIZE));
        }
        let bytes = self.to_vec();
        let mut i: usize = 0;
        while i < GROUP_G2_SIZE
            invariant
                i <= GROUP_G2_SIZE,
                target@.len() == GROUP_G2_SIZE,
                bytes@.len() == GROUP_G2_SIZE,
                bytes@ == ecp2_to_bytes(self.point()),
                forall|j: int| 0 <= j < i ==> #[trigger] target@[j] == bytes@[j],
            decreases GROUP_G2_SIZE - i,
        {
            target[i] = bytes[i];
            i = i + 1;
        }
        assert(target@ =~= bytes@);
        Ok(())
    }
}

impl GroupElement for G2 {
    closed spec fn spec_identity() -> Self {
        G2 { value: ecp2_from_bytes(identity_bytes_g2()) }
    }

    closed spec fn spec_plus(a: Self, b: Self) -> Self {
        G2 { value: ecp2_sum(a.value, b.value) }
    }

    closed spec fn spec_minus(a: Self, b: Self) -> Self {
        G2 { value: ecp2_difference(a.value, b.value) }
    }

    closed spec fn spec_double(a: Self) -> Self {
        G2 { value: ecp2_doubled(a.value) }
    }

    closed spec fn spec_negation(a: Self) -> Self {
        G2 { value: ecp2_negated(a.value) }
    }

    closed spec fn spec_is_identity(a: Self) -> bool {
        ecp2_is_infinity(a.value)
    }

    closed spec fn spec_equal(a: Self, b: Self) -> bool {
        ecp2_equal(a.value, b.value)
    }

    closed spec fn spec_scalar_mul(a: Self, k: int) -> Self {
        G2 { value: ecp2_times(a.value, k) }
    }

    closed spec fn spec_order_check(a: Self) -> bool {
        ecp2_is_infinity(ecp2_times(a.value, curve_order()))
    }

    /// The identity element.
    fn new() -> (r: Self) {
        Self::identity()
    }

    /// The point at infinity, decoded from the all-zero encoding.
    fn identity() -> (r: Self) {
        let zeros = vec![0u8; GROUP_G2_SIZE];
        assert(zeros@ =~= identity_bytes_g2());
        Self { value: ecp2_frombytes(zeros.as_slice()) }
    }

    fn generator() -> Self {
        Self { value: ecp2_generator() }
    }

    /// A multiple of the generator by a random scalar.
    fn random() -> (r: Self) {
        let n = CurveOrderElement::random();
        let g = Self::generator();
        let r = g.scalar_mul_const_time(&n);
        proof {
            n.lemma_range();
            assert(0 <= n@ < curve_order() && r == Self::spec_scalar_mul(g, n@));
        }
        r
    }

    fn is_identity(&self) -> (r: bool) {
        ecp2_is_inf(&self.value)
    }

    fn plus(&self, b: &Self) -> (r: Self) {
        proof {
            use_type_invariant(self);
            use_type_invariant(b);
        }
        Self { value: ecp2_add(&self.value, &b.value) }
    }

    fn minus(&self, b: &Self) -> (r: Self) {
        proof {
            use_type_invariant(self);
            use_type_invariant(b);
        }
        Self { value: ecp2_sub(&self.value, &b.value) }
    }

    fn double(&self) -> (r: Self) {
        proof {
            use_type_invariant(self);
        }
        Self { value: ecp2_dbl(&self.value) }
    }

    fn negation(&self) -> (r: Self) {
        proof {
            use_type_invariant(self);
        }
        Self { value: ecp2_neg(&self.value) }
    }

    fn equals(&self, b: &Self) -> (r: bool) {
        ecp2_equals(&self.value, &b.value)
    }

    fn scalar_mul_const_time(&self, a: &CurveOrderElement) -> (r: Self) {
        proof {
            a.lemma_range();
            use_type_invariant(self);
        }
        Self { value: ecp2_mul(&self.value, &a.to_bignum()) }
    }

    fn copy_elem(&self) -> (r: Self) {
        *self
    }

    /// Whether multiplying by the group order gives the point at infinity.
    fn has_correct_order(&self) -> bool {
        proof {
            use_type_invariant(self);
        }
        let order = curve_order_big();
        ecp2_is_inf(&ecp2_mul(&self.value, &order))
    }
}

/// The odd multiples of a G2 element.
pub type G2LookupTable = LookupTable<G2>;

/// A vector of G2 elements.
pub type G2Vector = GroupElemVec<G2>;

impl G2 {
    /// Multiplies by a scalar in variable time, with a width-5 wNAF.
    pub fn scalar_mul_variable_time(&self, a: &CurveOrderElement) -> (r: Self)
        requires
            a.wf(),
        ensures
            r == wnaf_eval(table_of(*self), wnaf_digits(a@ as nat, 5)),
    {
        crate::group_elem::scalar_mul_variable_time(self, a)
    }

    /// `[self, 2 self, ..., n self]`; `[self]` when `n` is zero.
    pub fn get_multiples(&self, n: usize) -> (r: Vec<Self>)
        ensures
            r@ == Seq::new(if n == 0 { 1 } else { n as nat }, |i: int| multiple(*self, i as nat)),
    {
        crate::group_elem::get_multiples(self, n)
    }

    /// The table of odd multiples for windowed multiplication; only width 5 is supported.
    pub fn to_wnaf_lookup_table(&self, width: usize) -> (r: G2LookupTable)
        requires
            width == 5,
        ensures
            r@ == table_of(*self),
    {
        LookupTable::from(self)
    }

    /// Multiplies by wNAF digits with a table of odd multiples.
    pub fn wnaf_mul(table: &G2LookupTable, wnaf: &[i8]) -> (r: Self)
        requires
            table@.len() == 8,
            table_digits(i8_digits(wnaf@)),
        ensures
            r == wnaf_eval(table@, i8_digits(wnaf@)),
    {
        crate::group_elem::wnaf_mul(table, wnaf)
    }
}

impl PartialEq for G2 {
    fn eq(&self, other: &G2) -> (r: bool) {
        self.equals(other)
    }
}

impl vstd::std_specs::cmp::PartialEqSpecImpl for G2 {
    open spec fn obeys_eq_spec() -> bool {
        true
    }

    open spec fn eq_spec(&self, other: &G2) -> bool {
        G2::spec_equal(*self, *other)
    }
}

impl<'a> std::ops::Mul<&'a CurveOrderElement> for &G2 {
    type Output = G2;

    fn mul(self, other: &'a CurveOrderElement) -> (r: G2) {
        proof {
            use_type_invariant(other);
        }
        self.scalar_mul_const_time(other)
    }
}

impl<'a> vstd::std_specs::ops::MulSpecImpl<&'a CurveOrderElement> for &G2 {
    open spec fn obeys_mul_spec() -> bool {
        true
    }

    open spec fn mul_req(self, other: &'a CurveOrderElement) -> bool {
        true
    }

    open spec fn mul_spec(self, other: &'a CurveOrderElement) -> G2 {
        G2::spec_scalar_mul(*self, other@)
    }
}

impl<'a> std::ops::Mul<&'a G2> for &CurveOrderElement {
    type Output = G2;

    fn mul(self, other: &'a G2) -> (r: G2) {
        proof {
            use_type_invariant(self);
        }
        other.scalar_mul_const_time(self)
    }
}

impl<'a> vstd::std_specs::ops::MulSpecImpl<&'a G2> for &CurveOrderElement {
    open spec fn obeys_mul_spec() -> bool {
        true
    }

    open spec fn mul_req(self, other: &'a G2) -> bool {
        true
    }

    open spec fn mul_spec(self, other: &'a G2) -> G2 {
        G2::spec_scalar_mul(*other, self@)
    }
}

} // verus!
