//! G1: points of the BN254 curve over the base field.
use vstd::prelude::*;
use amcl::bn254::big::BIG;
use amcl::bn254::ecp::ECP;
use crate::bignum::{big_normal, big_value};
use crate::curve_order_elem::{CurveOrderElement, curve_order, curve_order_big};
use crate::errors::SerzDeserzError;
use crate::hex::{field_text, is_field_text};
use crate::group_elem::{GroupElement, LookupTable, multiple, table_of, table_digits, wnaf_eval};
use crate::group_elem_vector::GroupElemVec;
use crate::curve_order_elem::{i8_digits, wnaf_digits};

verus! {

#[verifier::external_type_specification]
#[verifier::external_body]
pub struct ExEcp(ECP);

/// Bytes of the uncompressed encoding of a G1 element.
pub const GROUP_G1_SIZE: usize = 65;

/// Every coordinate of `a` is in the range amcl's constructors and operations keep:
/// an excess in `[1, 2^26)` and a value below `2^256`. Negation (inside `neg`, `sub` and
/// `mul`) assumes it.
pub uninterp spec fn ecp_in_range(a: ECP) -> bool;

/// The point that amcl's `ECP::add` leaves in `a` after adding `b`.
pub uninterp spec fn ecp_sum(a: ECP, b: ECP) -> ECP;

/// The point that amcl's `ECP::sub` leaves in `a` after subtracting `b`.
pub uninterp spec fn ecp_difference(a: ECP, b: ECP) -> ECP;

/// The point that amcl's `ECP::dbl` leaves in `a`.
pub uninterp spec fn ecp_doubled(a: ECP) -> ECP;

/// The point that amcl's `ECP::neg` leaves in `a`.
pub uninterp spec fn ecp_negated(a: ECP) -> ECP;

/// Whether amcl's `ECP::is_infinity` holds of `a`.
pub uninterp spec fn ecp_is_infinity(a: ECP) -> bool;

/// Whether amcl's `ECP::equals` holds of `a` and `b`.
pub uninterp spec fn ecp_equal(a: ECP, b: ECP) -> bool;

/// The point amcl's `ECP::mul` returns for `a` and a normal `BIG` of value `e`.
pub uninterp spec fn ecp_times(a: ECP, e: int) -> ECP;

/// The point amcl's `ECP::frombytes` decodes from `b`.
pub uninterp spec fn ecp_from_bytes(b: Seq<u8>) -> ECP;

/// The uncompressed encoding amcl's `ECP::tobytes` writes for `a`.
pub uninterp spec fn ecp_to_bytes(a: ECP) -> Seq<u8>;

/// Base-field elements in the text form of a G1 element: its three projective coordinates.
pub const HEX_FIELDS_G1: usize = 3;

/// The text amcl's `ECP::to_hex` returns for `a`.
pub uninterp spec fn ecp_hex(a: ECP) -> Seq<char>;

/// The point amcl's `ECP::from_hex` reads from `s`.
pub uninterp spec fn ecp_from_hex(s: Seq<char>) -> ECP;

/// Relies on amcl's `ECP::to_hex`.
#[verifier::external_body]
fn ecp_to_hex(a: &ECP) -> (r: String)
    ensures
        r@ == ecp_hex(*a),
{
    a.to_hex()
}

/// Relies on amcl's `ECP::from_hex`: it splits the text on whitespace and reads each
/// coordinate as a decimal excess (`i32::from_str`) and a hexadecimal value
/// (`BIG::from_hex`); neither parse fails on the text form this requires.
#[verifier::external_body]
fn ecp_read_hex(s: &String) -> (r: ECP)
    requires
        field_text(s@, HEX_FIELDS_G1 as nat),
    ensures
        r == ecp_from_hex(s@),
        ecp_in_range(r),
{
    ECP::from_hex(s.clone())
}

/// Relies on amcl's `ECP::add`.
#[verifier::external_body]
fn ecp_add(a: &ECP, b: &ECP) -> (r: ECP)
    requires
        ecp_in_range(*a),
        ecp_in_range(*b),
    ensures
        r == ecp_sum(*a, *b),
        ecp_in_range(r),
{
    let mut r = *a;
    r.add(b);
    r
}

/// Relies on amcl's `ECP::sub`.
#[verifier::external_body]
fn ecp_sub(a: &ECP, b: &ECP) -> (r: ECP)
    requires
        ecp_in_range(*a),
        ecp_in_range(*b),
    ensures
        r == ecp_difference(*a, *b),
        ecp_in_range(r),
{
    let mut r = *a;
    r.sub(b);
    r
}

/// Relies on amcl's `ECP::dbl`.
#[verifier::external_body]
fn ecp_dbl(a: &ECP) -> (r: ECP)
    requires
        ecp_in_range(*a),
    ensures
        r == ecp_doubled(*a),
        ecp_in_range(r),
{
    let mut r = *a;
    r.dbl();
    r
}

/// Relies on amcl's `ECP::neg`.
#[verifier::external_body]
fn ecp_neg(a: &ECP) -> (r: ECP)
    requires
        ecp_in_range(*a),
    ensures
        r == ecp_negated(*a),
        ecp_in_range(r),
{
    let mut r = *a;
    r.neg();
    r
}

/// Relies on amcl's `ECP::is_infinity`.
#[verifier::external_body]
fn ecp_is_inf(a: &ECP) -> (r: bool)
    ensures
        r == ecp_is_infinity(*a),
{
    a.is_infinity()
}

/// Relies on amcl's `ECP::equals`.
#[verifier::external_body]
fn ecp_equals(a: &ECP, b: &ECP) -> (r: bool)
    ensures
        r == ecp_equal(*a, *b),
{
    a.equals(b)
}

/// Relies on amcl's `ECP::mul`, the constant-time multiplication by a `BIG`; its window
/// digits fit its table for exponents up to the group order.
#[verifier::external_body]
fn ecp_mul(a: &ECP, e: &BIG) -> (r: ECP)
    requires
        ecp_in_range(*a),
        big_normal(*e),
        big_value(*e) <= curve_order(),
    ensures
        r == ecp_times(*a, big_value(*e)),
        ecp_in_range(r),
{
    a.mul(e)
}

/// Relies on amcl's `ECP::generator`: the curve's fixed generator.
#[verifier::external_body]
fn ecp_generator() -> (r: ECP)
    ensures
        ecp_in_range(r),
{
    ECP::generator()
}

/// Relies on amcl's `ECP::frombytes`, which reads the first 65 bytes; the all-zero
/// encoding has no valid tag and decodes to the point at infinity (`ECP::new`).
#[verifier::external_body]
fn ecp_frombytes(b: &[u8]) -> (r: ECP)
    requires
        b@.len() == GROUP_G1_SIZE,
    ensures
        r == ecp_from_bytes(b@),
        b@ == identity_bytes_g1() ==> ecp_is_infinity(r),
        ecp_in_range(r),
{
    ECP::frombytes(b)
}

/// Relies on amcl's `ECP::tobytes` without compression: 65 bytes.
#[verifier::external_body]
fn ecp_tobytes(a: &ECP) -> (r: Vec<u8>)
    requires
        ecp_in_range(*a),
    ensures
        r@ == ecp_to_bytes(*a),
        r@.len() == GROUP_G1_SIZE,
{
    let mut b = vec![0u8; GROUP_G1_SIZE];
    a.tobytes(b.as_mut_slice(), false);
    b
}

/// An element of G1.
#[derive(Clone, Copy, Debug)]
pub struct G1 {
    value: ECP,
}

/// The all-zero encoding, which decodes to the point at infinity.
pub open spec fn identity_bytes_g1() -> Seq<u8> {
    Seq::new(GROUP_G1_SIZE as nat, |i: int| 0u8)
}

impl G1 {
    /// The point is in the range amcl's operations keep.
    #[verifier::type_invariant]
    closed spec fn in_range(&self) -> bool {
        ecp_in_range(self.value)
    }

    pub closed spec fn point(&self) -> ECP {
        self.value
    }

    /// The underlying curve point.
    pub fn to_ecp(&self) -> (r: ECP)
        ensures
            r == self.point(),
            ecp_in_range(r),
    {
        proof {
            use_type_invariant(self);
        }
        self.value
    }

    /// The uncompressed encoding: 65 bytes.
    pub fn to_vec(&self) -> (r: Vec<u8>)
        ensures
            r@ == ecp_to_bytes(self.point()),
            r@.len() == GROUP_G1_SIZE,
    {
        proof {
            use_type_invariant(self);
        }
        ecp_tobytes(&self.value)
    }

    /// Decodes an element from its 65-byte encoding.
    pub fn from_slice(bytes: &[u8]) -> (r: Result<Self, SerzDeserzError>)
        ensures
            bytes@.len() != GROUP_G1_SIZE <==> r is Err,
            r matches Err(e) ==> e == SerzDeserzError::G1BytesIncorrectSize(bytes@.len() as usize, GROUP_G1_SIZE),
            r matches Ok(g) ==> g.point() == ecp_from_bytes(bytes@),
    {
        if bytes.len() != GROUP_G1_SIZE {
            return Err(SerzDeserzError::G1BytesIncorrectSize(bytes.len(), GROUP_G1_SIZE));
        }
        Ok(Self { value: ecp_frombytes(bytes) })
    }

    /// The text form: each coordinate's excess and hexadecimal value.
    pub fn to_hex(&self) -> (r: String)
        ensures
            r@ == ecp_hex(self.point()),
    {
        ecp_to_hex(&self.value)
    }

    /// Reads an element from its text form.
    pub fn from_hex(s: String) -> (r: Result<Self, SerzDeserzError>)
        ensures
            field_text(s@, HEX_FIELDS_G1 as nat) <==> r is Ok,
            r matches Err(e) ==> e == SerzDeserzError::MalformedHex,
            r matches Ok(g) ==> g.point() == ecp_from_hex(s@),
    {
        if !is_field_text(&s, HEX_FIELDS_G1) {
            return Err(SerzDeserzError::MalformedHex);
        }
        Ok(Self { value: ecp_read_hex(&s) })
    }

    /// Writes the encoding into `target`, which must hold exactly 65 bytes.
    pub fn write_to_slice(&self, target: &mut [u8]) -> (r: Result<(), SerzDeserzError>)
        ensures
            old(target)@.len() != GROUP_G1_SIZE <==> r is Err,
            r matches Err(e) ==> e == SerzDeserzError::G1BytesIncorrectSize(old(target)@.len() as usize, GROUP_G1_SIZE),
            r is Err ==> final(target)@ == old(target)@,
            r is Ok ==> final(target)@ == ecp_to_bytes(self.point()),
    {
        if target.len() != GROUP_G1_SIZE {
            return Err(SerzDeserzError::G1BytesIncorrectSize(target.len(), GROUP_G1_SIZE));
        }
        let bytes = self.to_vec();
        let mut i: usize = 0;
        while i < GROUP_G1_SIZE
            invariant
                i <= GROUP_G1_SIZE,
                target@.len() == GROUP_G1_SIZE,
                bytes@.len() == GROUP_G1_SIZE,
                bytes@ == ecp_to_bytes(self.point()),
                forall|j: int| 0 <= j < i ==> #[trigger] target@[j] == bytes@[j],
            decreases GROUP_G1_SIZE - i,
        {
            target[i] = bytes[i];
            i = i + 1;
        }
        assert(target@ =~= bytes@);
        Ok(())
    }
}

impl GroupElement for G1 {
    closed spec fn spec_identity() -> Self {
        G1 { value: ecp_from_bytes(identity_bytes_g1()) }
    }

    closed spec fn spec_plus(a: Self, b: Self) -> Self {
        G1 { value: ecp_sum(a.value, b.value) }
    }

    closed spec fn spec_minus(a: Self, b: Self) -> Self {
        G1 { value: ecp_difference(a.value, b.value) }
    }

    closed spec fn spec_double(a: Self) -> Self {
        G1 { value: ecp_doubled(a.value) }
    }

    closed spec fn spec_negation(a: Self) -> Self {
        G1 { value: ecp_negated(a.value) }
    }

    closed spec fn spec_is_identity(a: Self) -> bool {
        ecp_is_infinity(a.value)
    }

    closed spec fn spec_equal(a: Self, b: Self) -> bool {
        ecp_equal(a.value, b.value)
    }

    closed spec fn spec_scalar_mul(a: Self, k: int) -> Self {
        G1 { value: ecp_times(a.value, k) }
    }

    closed spec fn spec_order_check(a: Self) -> bool {
        ecp_is_infinity(ecp_times(a.value, curve_order()))
    }

    /// The identity element.
    fn new() -> (r: Self) {
        Self::identity()
    }

    /// The point at infinity, decoded from the all-zero encoding.
    fn identity() -> (r: Self) {
        let zeros = vec![0u8; GROUP_G1_SIZE];
        assert(zeros@ =~= identity_bytes_g1());
        Self { value: ecp_frombytes(zeros.as_slice()) }
    }

    fn generator() -> Self {
        Self { value: ecp_generator() }
    }

    /// A multiple of the generator by a random scalar.
    fn random() -> (r: Self) {
        let n = CurveOrderElement::random();
        let g = Self::generator();
        let r = g.scalar_mul_const_time(&n);
        proof {
            n.lemma_range();
            assert(0 <= n@ < curve_order() && r == Self::spec_scalar_mul(g, n@));
        }
        r
    }

    fn is_identity(&self) -> (r: bool) {
        ecp_is_inf(&self.value)
    }

    fn plus(&self, b: &Self) -> (r: Self) {
        proof {
            use_type_invariant(self);
            use_type_invariant(b);
        }
        Self { value: ecp_add(&self.value, &b.value) }
    }

    fn minus(&self, b: &Self) -> (r: Self) {
        proof {
            use_type_invariant(self);
            use_type_invariant(b);
        }
        Self { value: ecp_sub(&self.value, &b.value) }
    }

    fn double(&self) -> (r: Self) {
        proof {
            use_type_invariant(self);
        }
        Self { value: ecp_dbl(&self.value) }
    }

    fn negation(&self) -> (r: Self) {
        proof {
            use_type_invariant(self);
        }
        Self { value: ecp_neg(&self.value) }
    }

    fn equals(&self, b: &Self) -> (r: bool) {
        ecp_equals(&self.value, &b.value)
    }

    fn scalar_mul_const_time(&self, a: &CurveOrderElement) -> (r: Self) {
        proof {
            a.lemma_range();
            use_type_invariant(self);
        }
        Self { value: ecp_mul(&self.value, &a.to_bignum()) }
    }

    fn copy_elem(&self) -> (r: Self) {
        *self
    }

    /// Whether multiplying by the group order gives the point at infinity.
    fn has_correct_order(&self) -> bool {
        proof {
            use_type_invariant(self);
        }
        let order = curve_order_big();
        ecp_is_inf(&ecp_mul(&self.value, &order))
    }
}

/// The odd multiples of a G1 element.
pub type G1LookupTable = LookupTable<G1>;

/// A vector of G1 elements.
pub type G1Vector = GroupElemVec<G1>;

impl G1 {
    /// Multiplies by a scalar in variable time, with a width-5 wNAF.
    pub fn scalar_mul_variable_time(&self, a: &CurveOrderElement) -> (r: Self)
        requires
            a.wf(),
        ensures
            r == wnaf_eval(table_of(*self), wnaf_digits(a@ as nat, 5)),
    {
        crate::group_elem::scalar_mul_variable_time(self, a)
    }

    /// `[self, 2 self, ..., n self]`; `[self]` when `n` is zero.
    pub fn get_multiples(&self, n: usize) -> (r: Vec<Self>)
        ensures
            r@ == Seq::new(if n == 0 { 1 } else { n as nat }, |i: int| multiple(*self, i as nat)),
    {
        crate::group_elem::get_multiples(self, n)
    }

    /// The table of odd multiples for windowed multiplication; only width 5 is supported.
    pub fn to_wnaf_lookup_table(&self, width: usize) -> (r: G1LookupTable)
        requires
            width == 5,
        ensures
            r@ == table_of(*self),
    {
        LookupTable::from(self)
    }

    /// Multiplies by wNAF digits with a table of odd multiples.
    pub fn wnaf_mul(table: &G1LookupTable, wnaf: &[i8]) -> (r: Self)
        requires
            table@.len() == 8,
            table_digits(i8_digits(wnaf@)),
        ensures
            r == wnaf_eval(table@, i8_digits(wnaf@)),
    {
        crate::group_elem::wnaf_mul(table, wnaf)
    }
}

impl PartialEq for G1 {
    fn eq(&self, other: &G1) -> (r: bool) {
        self.equals(other)
    }
}

impl vstd::std_specs::cmp::PartialEqSpecImpl for G1 {
    open spec fn obeys_eq_spec() -> bool {
        true
    }

    open spec fn eq_spec(&self, other: &G1) -> bool {
        G1::spec_equal(*self, *other)
    }
}

impl<'a> std::ops::Mul<&'a CurveOrderElement> for &G1 {
    type Output = G1;

    fn mul(self, other: &'a CurveOrderElement) -> (r: G1) {
        proof {
            use_type_invariant(other);
        }
        self.scalar_mul_const_time(other)
    }
}

impl<'a> vstd::std_specs::ops::MulSpecImpl<&'a CurveOrderElement> for &G1 {
    open spec fn obeys_mul_spec() -> bool {
        true
    }

    open spec fn mul_req(self, other: &'a CurveOrderElement) -> bool {
        true
    }

    open spec fn mul_spec(self, other: &'a CurveOrderElement) -> G1 {
        G1::spec_scalar_mul(*self, other@)
    }
}

impl<'a> std::ops::Mul<&'a G1> for &CurveOrderElement {
    type Output = G1;

    fn mul(self, other: &'a G1) -> (r: G1) {
        proof {
            use_type_invariant(self);
        }
        other.scalar_mul_const_time(self)
    }
}

impl<'a> vstd::std_specs::ops::MulSpecImpl<&'a G1> for &CurveOrderElement {
    open spec fn obeys_mul_spec() -> bool {
        true
    }

    open spec fn mul_req(self, other: &'a G1) -> bool {
        true
    }

    open spec fn mul_spec(self, other: &'a G1) -> G1 {
        G1::spec_scalar_mul(*other, self@)
    }
}

} // verus!
