//! The group interface shared by G1 and G2, and the scalar-multiplication engines
//! built on it: odd-multiple lookup tables, wNAF multiplication, and the naive,
//! Strauss (wNAF-interleaved) and fixed-window multi-scalar multiplications.
//!
//! Each group operation is known by a spec function named after the curve operation
//! that computes it; the engines are proved to perform exactly the sequence of group
//! operations that their specifications describe.
use vstd::prelude::*;
use crate::curve_order_elem::{
    CurveOrderElement, curve_order, i8_digits, u8_digits, wnaf_digits, radix_digits, lemma_wnaf_digits_bounded,
    lemma_radix_value,
};
use crate::errors::ValueError;
use amcl::rand::RAND;
use vstd::arithmetic::power2::*;

verus! {

pub trait GroupElement: Sized {
    /// The identity element, as `identity` returns it.
    spec fn spec_identity() -> Self;

    spec fn spec_plus(a: Self, b: Self) -> Self;

    spec fn spec_minus(a: Self, b: Self) -> Self;

    spec fn spec_double(a: Self) -> Self;

    spec fn spec_negation(a: Self) -> Self;

    spec fn spec_is_identity(a: Self) -> bool;

    /// Whether two elements are the same group element (their representations may differ).
    spec fn spec_equal(a: Self, b: Self) -> bool;

    /// `k * a` by the curve's constant-time multiplication.
    spec fn spec_scalar_mul(a: Self, k: int) -> Self;

    fn new() -> (r: Self)
        ensures
            r == Self::spec_identity(),
            Self::spec_is_identity(r),
    ;

    fn identity() -> (r: Self)
        ensures
            r == Self::spec_identity(),
            Self::spec_is_identity(r),
    ;

    fn generator() -> Self;

    /// A multiple of the generator by a scalar drawn below the group order.
    fn random() -> (r: Self)
        ensures
            exists|g: Self, k: int| 0 <= k < curve_order() && r == Self::spec_scalar_mul(g, k),
    ;

    fn is_identity(&self) -> (r: bool)
        ensures
            r == Self::spec_is_identity(*self),
    ;

    fn plus(&self, b: &Self) -> (r: Self)
        ensures
            r == Self::spec_plus(*self, *b),
    ;

    fn minus(&self, b: &Self) -> (r: Self)
        ensures
            r == Self::spec_minus(*self, *b),
    ;

    fn double(&self) -> (r: Self)
        ensures
            r == Self::spec_double(*self),
    ;

    fn negation(&self) -> (r: Self)
        ensures
            r == Self::spec_negation(*self),
    ;

    fn equals(&self, b: &Self) -> (r: bool)
        ensures
            r == Self::spec_equal(*self, *b),
    ;

    /// Multiplies by a scalar in constant time.
    fn scalar_mul_const_time(&self, a: &CurveOrderElement) -> (r: Self)
        requires
            a.wf(),
        ensures
            r == Self::spec_scalar_mul(*self, a@),
    ;

    fn copy_elem(&self) -> (r: Self)
        ensures
            r == *self,
    ;

    /// Whether `order * self` is the identity, by the constant-time multiplication.
    spec fn spec_order_check(a: Self) -> bool;

    /// Whether `order * self` is the identity.
    fn has_correct_order(&self) -> (r: bool)
        ensures
            r == Self::spec_order_check(*self),
    ;
}

/// A multiple of the generator by a scalar drawn from `rng`.
pub fn random_using_rng<T: GroupElement>(rng: &mut RAND) -> (r: T)
    ensures
        exists|g: T, k: int| 0 <= k < curve_order() && r == T::spec_scalar_mul(g, k),
{
    let n = CurveOrderElement::random_using_rng(rng);
    let g = T::generator();
    let r = g.scalar_mul_const_time(&n);
    proof {
        n.lemma_range();
        assert(0 <= n@ < curve_order() && r == T::spec_scalar_mul(g, n@));
    }
    r
}

/// `(2i + 1) * a`, built as the table builds it: `a`, then repeated additions of `2a`.
pub open spec fn odd_multiple<T: GroupElement>(a: T, i: nat) -> T
    decreases i,
{
    if i == 0 {
        a
    } else {
        T::spec_plus(odd_multiple(a, (i - 1) as nat), T::spec_double(a))
    }
}

/// `(i + 1) * a`, built by repeated additions of `a`.
pub open spec fn multiple<T: GroupElement>(a: T, i: nat) -> T
    decreases i,
{
    if i == 0 {
        a
    } else {
        T::spec_plus(multiple(a, (i - 1) as nat), a)
    }
}

/// One wNAF step: double, then add or subtract the table entry of the digit.
pub open spec fn wnaf_step<T: GroupElement>(acc: T, tbl: Seq<T>, d: int) -> T {
    if d > 0 {
        T::spec_plus(acc, tbl[d / 2])
    } else if d < 0 {
        T::spec_minus(acc, tbl[(-d) / 2])
    } else {
        acc
    }
}

/// The right-to-left wNAF fold over digits `d` (least significant first) with the
/// table of odd multiples `tbl`, starting from the identity.
pub open spec fn wnaf_eval<T: GroupElement>(tbl: Seq<T>, d: Seq<int>) -> T
    decreases d.len(),
{
    if d.len() == 0 {
        T::spec_identity()
    } else {
        wnaf_step(T::spec_double(wnaf_eval(tbl, d.drop_first())), tbl, d[0])
    }
}

/// Digits usable with an odd-multiple table of eight entries.
pub open spec fn table_digits(d: Seq<int>) -> bool {
    forall|i: int| 0 <= i < d.len() ==> -16 < #[trigger] d[i] < 16 && (d[i] == 0 || d[i] % 2 == 1)
}

/// The odd multiples `a, 3a, ..., 15a` held for windowed multiplication.
pub struct LookupTable<T> {
    entries: Vec<T>,
}

impl<T: GroupElement> View for LookupTable<T> {
    type V = Seq<T>;

    closed spec fn view(&self) -> Seq<T> {
        self.entries@
    }
}

/// The table of `a`: entry `i` is `odd_multiple(a, i)`.
pub open spec fn table_of<T: GroupElement>(a: T) -> Seq<T> {
    Seq::new(8, |i: int| odd_multiple(a, i as nat))
}

impl<T: GroupElement> LookupTable<T> {
    /// Builds the table of `a`: one doubling and seven additions.
    pub fn from(a: &T) -> (r: Self)
        ensures
            r@ == table_of(*a),
    {
        let a_2 = a.double();
        let mut entries: Vec<T> = Vec::new();
        entries.push(a.copy_elem());
        let mut i: usize = 0;
        while i < 7
            invariant
                i <= 7,
                a_2 == T::spec_double(*a),
                entries@.len() == i + 1,
                forall|j: int| 0 <= j <= i ==> #[trigger] entries@[j] == odd_multiple(*a, j as nat),
            decreases 7 - i,
        {
            let next = entries[i].plus(&a_2);
            entries.push(next);
            i = i + 1;
        }
        let r = Self { entries };
        assert(r@ =~= table_of(*a));
        r
    }

    /// The entry for odd `x` in `[1, 15]`, that is `x * a`.
    pub fn select(&self, x: usize) -> (r: &T)
        requires
            self@.len() == 8,
            x % 2 == 1,
            x < 16,
        ensures
            *r == self@[x as int / 2],
    {
        &self.entries[x / 2]
    }
}

/// Multiplies by wNAF digits with a table of odd multiples, folding from the most
/// significant digit down.
pub fn wnaf_mul<T: GroupElement>(table: &LookupTable<T>, wnaf: &[i8]) -> (r: T)
    requires
        table@.len() == 8,
        table_digits(i8_digits(wnaf@)),
    ensures
        r == wnaf_eval(table@, i8_digits(wnaf@)),
{
    let ghost d = i8_digits(wnaf@);
    let mut result = T::identity();
    let mut i: usize = wnaf.len();
    assert(d.subrange(i as int, d.len() as int) =~= Seq::<int>::empty());
    while i > 0
        invariant
            i <= wnaf@.len(),
            d == i8_digits(wnaf@),
            d.len() == wnaf@.len(),
            table@.len() == 8,
            table_digits(d),
            result == wnaf_eval(table@, d.subrange(i as int, d.len() as int)),
        decreases i,
    {
        i = i - 1;
        let ghost prev = result;
        result = result.double();
        let v = wnaf[i];
        assert(d[i as int] == v as int);
        if v > 0 {
            result = result.plus(table.select(v as usize));
        } else if v < 0 {
            let neg: i8 = -v;
            result = result.minus(table.select(neg as usize));
        }
        assert(d.subrange(i as int, d.len() as int).drop_first() =~= d.subrange(
            i as int + 1,
            d.len() as int,
        ));
    }
    assert(d.subrange(0, d.len() as int) =~= d);
    result
}

/// Multiplies by a scalar in variable time, with a width-5 wNAF.
pub fn scalar_mul_variable_time<T: GroupElement>(a: &T, k: &CurveOrderElement) -> (r: T)
    requires
        k.wf(),
    ensures
        r == wnaf_eval(table_of(*a), wnaf_digits(k@ as nat, 5)),
{
    let table = LookupTable::from(a);
    let wnaf = k.to_wnaf(5);
    proof {
        lemma_wnaf_digits_bounded(k@ as nat, 5);
        lemma2_to64();
    }
    wnaf_mul(&table, wnaf.as_slice())
}

/// `[a, 2a, ..., n a]`, by repeated addition; `[a]` when `n` is zero.
pub fn get_multiples<T: GroupElement>(a: &T, n: usize) -> (r: Vec<T>)
    ensures
        r@ == Seq::new(if n == 0 { 1 } else { n as nat }, |i: int| multiple(*a, i as nat)),
{
    let mut res: Vec<T> = Vec::new();
    res.push(a.copy_elem());
    let mut i: usize = 1;
    while i < n
        invariant
            1 <= i,
            i <= n || (n == 0 && i == 1),
            res@.len() == i,
            forall|j: int| 0 <= j < i ==> #[trigger] res@[j] == multiple(*a, j as nat),
        decreases n - i,
    {
        let next = res[i - 1].plus(a);
        res.push(next);
        i = i + 1;
    }
    assert(res@ =~= Seq::new(if n == 0 { 1 } else { n as nat }, |i: int| multiple(*a, i as nat)));
    res
}

// ---------------------------------------------------------------------------
// Multi-scalar multiplication
// ---------------------------------------------------------------------------

/// `sum k[i] * g[i]`, accumulated from the left with constant-time multiplications.
pub open spec fn naive_eval<T: GroupElement>(g: Seq<T>, k: Seq<int>) -> T
    decreases g.len(),
{
    if g.len() == 0 || k.len() == 0 {
        T::spec_identity()
    } else {
        T::spec_plus(
            naive_eval(g.drop_last(), k.drop_last()),
            T::spec_scalar_mul(g.last(), k.last()),
        )
    }
}

pub open spec fn scalar_values(s: Seq<CurveOrderElement>) -> Seq<int> {
    s.map_values(|e: CurveOrderElement| e@)
}

pub open spec fn all_wf(s: Seq<CurveOrderElement>) -> bool {
    forall|i: int| 0 <= i < s.len() ==> (#[trigger] s[i]).wf()
}

/// The digit at position `i` of a digit sequence padded with zeros.
pub open spec fn padded(d: Seq<int>, i: int) -> int {
    if 0 <= i < d.len() {
        d[i]
    } else {
        0
    }
}

/// At digit position `i`, the wNAF steps of the first `j` bases applied to `acc`.
pub open spec fn strauss_row<T: GroupElement>(
    acc: T,
    tbls: Seq<Seq<T>>,
    ds: Seq<Seq<int>>,
    i: int,
    j: nat,
) -> T
    decreases j,
{
    if j == 0 {
        acc
    } else {
        let prev = strauss_row(acc, tbls, ds, i, (j - 1) as nat);
        wnaf_step(prev, tbls[j - 1], padded(ds[j - 1], i))
    }
}

/// The Strauss accumulator after the digit positions from `len - 1` down to `i`.
pub open spec fn strauss_from<T: GroupElement>(
    tbls: Seq<Seq<T>>,
    ds: Seq<Seq<int>>,
    len: int,
    i: int,
) -> T
    decreases len - i,
{
    if i >= len {
        T::spec_identity()
    } else {
        strauss_row(
            T::spec_double(strauss_from(tbls, ds, len, i + 1)),
            tbls,
            ds,
            i,
            tbls.len(),
        )
    }
}

/// The wNAF digits of each scalar, window 5.
pub open spec fn wnafs_of(s: Seq<int>) -> Seq<Seq<int>> {
    s.map_values(|k: int| wnaf_digits(k as nat, 5))
}

/// The Strauss multi-scalar product over tables and scalars, digits padded to the longest.
pub open spec fn strauss_eval<T: GroupElement>(tbls: Seq<Seq<T>>, ks: Seq<int>) -> T {
    strauss_from(tbls, wnafs_of(ks), max_len_of(wnafs_of(ks)) as int, 0)
}

pub open spec fn table_views<T: GroupElement>(t: Seq<LookupTable<T>>) -> Seq<Seq<T>> {
    t.map_values(|x: LookupTable<T>| x@)
}

/// At digit position `i`, the additions of the first `j` bases' multiples applied to `acc`.
pub open spec fn window_row<T: GroupElement>(
    acc: T,
    ms: Seq<Seq<T>>,
    ds: Seq<Seq<int>>,
    i: int,
    j: nat,
) -> T
    decreases j,
{
    if j == 0 {
        acc
    } else {
        let prev = window_row(acc, ms, ds, i, (j - 1) as nat);
        let b = padded(ds[j - 1], i);
        if b != 0 {
            T::spec_plus(prev, ms[j - 1][b - 1])
        } else {
            prev
        }
    }
}

/// The fixed-window accumulator after the digit positions from `len - 1` down to `i`.
pub open spec fn window_from<T: GroupElement>(
    ms: Seq<Seq<T>>,
    ds: Seq<Seq<int>>,
    len: int,
    i: int,
) -> T
    decreases len - i,
{
    if i >= len {
        T::spec_identity()
    } else {
        let r = window_from(ms, ds, len, i + 1);
        window_row(
            T::spec_double(T::spec_double(T::spec_double(r))),
            ms,
            ds,
            i,
            ms.len(),
        )
    }
}

/// The base-8 digits of each scalar (`[0]` for zero).
pub open spec fn radix8_of(s: Seq<int>) -> Seq<Seq<int>> {
    s.map_values(|k: int| if k == 0 { seq![0int] } else { radix_digits(k as nat, 3) })
}

/// The fixed-window multi-scalar product over multiples and scalars, digits padded to the longest.
pub open spec fn window_eval<T: GroupElement>(ms: Seq<Seq<T>>, ks: Seq<int>) -> T {
    window_from(ms, radix8_of(ks), max_len_of(radix8_of(ks)) as int, 0)
}

pub open spec fn vec_views<T>(m: Seq<Vec<T>>) -> Seq<Seq<T>> {
    m.map_values(|v: Vec<T>| v@)
}

proof fn lemma_max_len<T>(ds: Seq<Seq<T>>)
    ensures
        forall|j: int| 0 <= j < ds.len() ==> (#[trigger] ds[j]).len() <= max_len_of(ds),
    decreases ds.len(),
{
    if ds.len() > 0 {
        lemma_max_len(ds.drop_last());
        assert forall|j: int| 0 <= j < ds.len() implies (#[trigger] ds[j]).len() <= max_len_of(ds) by {
            if j < ds.len() - 1 {
                assert(ds[j] == ds.drop_last()[j]);
            }
        }
    }
}

/// `max_len` for sequences of any element type.
pub open spec fn max_len_of<T>(ds: Seq<Seq<T>>) -> nat
    decreases ds.len(),
{
    if ds.len() == 0 {
        0
    } else {
        let m = max_len_of(ds.drop_last());
        if ds.last().len() > m {
            ds.last().len()
        } else {
            m
        }
    }
}

/// Computes `sum k[i] * g[i]` with one constant-time multiplication per term.
pub fn multi_scalar_mul_const_time_naive<T: GroupElement>(
    g: &[T],
    k: &[CurveOrderElement],
) -> (r: Result<T, ValueError>)
    requires
        all_wf(k@),
    ensures
        g@.len() != k@.len() <==> r is Err,
        r matches Err(e) ==> e == ValueError::UnequalSizeVectors(k@.len() as usize, g@.len() as usize),
        r matches Ok(v) ==> v == naive_eval(g@, scalar_values(k@)),
{
    if k.len() != g.len() {
        return Err(ValueError::UnequalSizeVectors(k.len(), g.len()));
    }
    let mut accum = T::new();
    let mut i: usize = 0;
    while i < g.len()
        invariant
            i <= g@.len(),
            g@.len() == k@.len(),
            all_wf(k@),
            accum == naive_eval(g@.subrange(0, i as int), scalar_values(k@).subrange(0, i as int)),
        decreases g@.len() - i,
    {
        let t = g[i].scalar_mul_const_time(&k[i]);
        accum = accum.plus(&t);
        i = i + 1;
        assert(g@.subrange(0, i as int).drop_last() =~= g@.subrange(0, i - 1));
        assert(scalar_values(k@).subrange(0, i as int).drop_last() =~= scalar_values(k@).subrange(
            0,
            i - 1,
        ));
    }
    assert(g@.subrange(0, i as int) =~= g@);
    assert(scalar_values(k@).subrange(0, i as int) =~= scalar_values(k@));
    Ok(accum)
}

fn max_digit_len_i8(ds: &Vec<Vec<i8>>) -> (r: usize)
    ensures
        r == max_len_of(ds@.map_values(|d: Vec<i8>| i8_digits(d@))),
{
    let ghost views = ds@.map_values(|d: Vec<i8>| i8_digits(d@));
    let mut m: usize = 0;
    let mut j: usize = 0;
    while j < ds.len()
        invariant
            j <= ds@.len(),
            views == ds@.map_values(|d: Vec<i8>| i8_digits(d@)),
            m == max_len_of(views.subrange(0, j as int)),
        decreases ds@.len() - j,
    {
        assert(views.subrange(0, j + 1).drop_last() =~= views.subrange(0, j as int));
        if ds[j].len() > m {
            m = ds[j].len();
        }
        j = j + 1;
    }
    assert(views.subrange(0, j as int) =~= views);
    m
}

fn max_digit_len_u8(ds: &Vec<Vec<u8>>) -> (r: usize)
    ensures
        r == max_len_of(ds@.map_values(|d: Vec<u8>| u8_digits(d@))),
{
    let ghost views = ds@.map_values(|d: Vec<u8>| u8_digits(d@));
    let mut m: usize = 0;
    let mut j: usize = 0;
    while j < ds.len()
        invariant
            j <= ds@.len(),
            views == ds@.map_values(|d: Vec<u8>| u8_digits(d@)),
            m == max_len_of(views.subrange(0, j as int)),
        decreases ds@.len() - j,
    {
        assert(views.subrange(0, j + 1).drop_last() =~= views.subrange(0, j as int));
        if ds[j].len() > m {
            m = ds[j].len();
        }
        j = j + 1;
    }
    assert(views.subrange(0, j as int) =~= views);
    m
}

/// Strauss multi-scalar multiplication with the odd-multiple tables already built:
/// the width-5 wNAFs of all scalars, padded with zeros to the longest, are walked from
/// the most significant position down, with one shared doubling per position.
pub fn multi_scalar_mul_var_time_with_precomputation_done<T: GroupElement>(
    lookup_tables: &[LookupTable<T>],
    field_elems: &[CurveOrderElement],
) -> (r: Result<T, ValueError>)
    requires
        all_wf(field_elems@),
        forall|j: int| 0 <= j < lookup_tables@.len() ==> (#[trigger] lookup_tables@[j])@.len() == 8,
    ensures
        field_elems@.len() != lookup_tables@.len() <==> r is Err,
        r matches Err(e) ==> e == ValueError::UnequalSizeVectors(
            field_elems@.len() as usize,
            lookup_tables@.len() as usize,
        ),
        r matches Ok(v) ==> v == strauss_eval(
            table_views(lookup_tables@),
            scalar_values(field_elems@),
        ),
{
    let ghost ks = scalar_values(field_elems@);
    let mut nafs: Vec<Vec<i8>> = Vec::new();
    let mut j: usize = 0;
    while j < field_elems.len()
        invariant
            j <= field_elems@.len(),
            all_wf(field_elems@),
            ks == scalar_values(field_elems@),
            nafs@.len() == j,
            forall|l: int| 0 <= l < j ==> i8_digits((#[trigger] nafs@[l])@) == wnafs_of(ks)[l],
        decreases field_elems@.len() - j,
    {
        let naf = field_elems[j].to_wnaf(5);
        nafs.push(naf);
        j = j + 1;
    }
    if nafs.len() != lookup_tables.len() {
        return Err(ValueError::UnequalSizeVectors(nafs.len(), lookup_tables.len()));
    }
    let ghost ds = wnafs_of(ks);
    let ghost tv = table_views(lookup_tables@);
    assert(nafs@.map_values(|d: Vec<i8>| i8_digits(d@)) =~= ds);
    proof {
        assert forall|l: int| 0 <= l < ds.len() implies table_digits(#[trigger] ds[l]) by {
            lemma_wnaf_digits_bounded(ks[l] as nat, 5);
            lemma2_to64();
        }
    }
    let new_length = max_digit_len_i8(&nafs);
    let mut r = T::identity();
    let mut i: usize = new_length;
    while i > 0
        invariant
            i <= new_length,
            new_length == max_len_of(ds),
            nafs@.len() == lookup_tables@.len() == tv.len() == ds.len(),
            tv == table_views(lookup_tables@),
            forall|l: int| 0 <= l < nafs@.len() ==> i8_digits((#[trigger] nafs@[l])@) == ds[l],
            forall|l: int| 0 <= l < ds.len() ==> table_digits(#[trigger] ds[l]),
            forall|l: int| 0 <= l < lookup_tables@.len() ==> (#[trigger] lookup_tables@[l])@.len() == 8,
            r == strauss_from(tv, ds, new_length as int, i as int),
        decreases i,
    {
        i = i - 1;
        let ghost start = T::spec_double(r);
        let mut t = r.double();
        let mut l: usize = 0;
        while l < nafs.len()
            invariant
                i < new_length,
                l <= nafs@.len(),
                nafs@.len() == lookup_tables@.len() == tv.len() == ds.len(),
                tv == table_views(lookup_tables@),
                forall|l2: int| 0 <= l2 < nafs@.len() ==> i8_digits((#[trigger] nafs@[l2])@) == ds[l2],
                forall|l2: int| 0 <= l2 < ds.len() ==> table_digits(#[trigger] ds[l2]),
                forall|l2: int| 0 <= l2 < lookup_tables@.len() ==> (#[trigger] lookup_tables@[l2])@.len() == 8,
                t == strauss_row(start, tv, ds, i as int, l as nat),
            decreases nafs@.len() - l,
        {
            let naf = &nafs[l];
            let d: i8 = if i < naf.len() {
                naf[i]
            } else {
                0
            };
            assert(d as int == padded(ds[l as int], i as int)) by {
                assert(i8_digits(nafs@[l as int]@) == ds[l as int]);
                if i < naf.len() {
                    assert(ds[l as int][i as int] == naf@[i as int] as int);
                }
            }
            assert(tv[l as int] == lookup_tables@[l as int]@);
            if d > 0 {
                t = t.plus(lookup_tables[l].select(d as usize));
            } else if d < 0 {
                let neg: i8 = -d;
                t = t.minus(lookup_tables[l].select(neg as usize));
            }
            l = l + 1;
        }
        r = t;
    }
    Ok(r)
}

/// Strauss multi-scalar multiplication, building the odd-multiple table of each base.
pub fn multi_scalar_mul_var_time_without_precomputation<T: GroupElement>(
    group_elems: &[T],
    field_elems: &[CurveOrderElement],
) -> (r: Result<T, ValueError>)
    requires
        all_wf(field_elems@),
    ensures
        field_elems@.len() != group_elems@.len() <==> r is Err,
        r matches Err(e) ==> e == ValueError::UnequalSizeVectors(
            field_elems@.len() as usize,
            group_elems@.len() as usize,
        ),
        r matches Ok(v) ==> v == strauss_eval(
            group_elems@.map_values(|a: T| table_of(a)),
            scalar_values(field_elems@),
        ),
{
    let mut tables: Vec<LookupTable<T>> = Vec::new();
    let mut j: usize = 0;
    while j < group_elems.len()
        invariant
            j <= group_elems@.len(),
            tables@.len() == j,
            forall|l: int| 0 <= l < j ==> (#[trigger] tables@[l])@ == table_of(group_elems@[l]),
        decreases group_elems@.len() - j,
    {
        tables.push(LookupTable::from(&group_elems[j]));
        j = j + 1;
    }
    assert(table_views(tables@) =~= group_elems@.map_values(|a: T| table_of(a)));
    multi_scalar_mul_var_time_with_precomputation_done(tables.as_slice(), field_elems)
}

/// Fixed-window (radix 8) multi-scalar multiplication with the multiples `a, 2a, ..., 7a`
/// of each base already built: the base-8 digits of all scalars, padded with zeros to the
/// longest, are walked from the most significant position down, with three shared
/// doublings per position and one addition per nonzero digit.
pub fn multi_scalar_mul_const_time_with_precomputation_done<T: GroupElement>(
    group_elem_multiples: &[Vec<T>],
    field_elems: &[CurveOrderElement],
) -> (r: Result<T, ValueError>)
    requires
        all_wf(field_elems@),
        forall|j: int| 0 <= j < group_elem_multiples@.len() ==> (#[trigger] group_elem_multiples@[j])@.len() >= 7,
    ensures
        field_elems@.len() != group_elem_multiples@.len() <==> r is Err,
        r matches Err(e) ==> e == ValueError::UnequalSizeVectors(
            group_elem_multiples@.len() as usize,
            field_elems@.len() as usize,
        ),
        r matches Ok(v) ==> v == window_eval(
            vec_views(group_elem_multiples@),
            scalar_values(field_elems@),
        ),
{
    let ghost ks = scalar_values(field_elems@);
    let mut reprs: Vec<Vec<u8>> = Vec::new();
    let mut j: usize = 0;
    while j < field_elems.len()
        invariant
            j <= field_elems@.len(),
            all_wf(field_elems@),
            ks == scalar_values(field_elems@),
            reprs@.len() == j,
            forall|l: int| 0 <= l < j ==> u8_digits((#[trigger] reprs@[l])@) == radix8_of(ks)[l],
        decreases field_elems@.len() - j,
    {
        let repr = field_elems[j].to_power_of_2_base(3);
        reprs.push(repr);
        j = j + 1;
    }
    if group_elem_multiples.len() != reprs.len() {
        return Err(ValueError::UnequalSizeVectors(group_elem_multiples.len(), reprs.len()));
    }
    let ghost ds = radix8_of(ks);
    let ghost mv = vec_views(group_elem_multiples@);
    assert(reprs@.map_values(|d: Vec<u8>| u8_digits(d@)) =~= ds);
    proof {
        assert forall|l: int, i: int| 0 <= l < ds.len() && 0 <= i < ds[l].len() implies 0 <= #[trigger] ds[l][i] < 8 by {
            lemma_radix_value(ks[l] as nat, 3);
            lemma2_to64();
        }
    }
    let new_length = max_digit_len_u8(&reprs);
    let mut r = T::new();
    let mut i: usize = new_length;
    while i > 0
        invariant
            i <= new_length,
            new_length == max_len_of(ds),
            reprs@.len() == group_elem_multiples@.len() == mv.len() == ds.len(),
            mv == vec_views(group_elem_multiples@),
            forall|l: int| 0 <= l < reprs@.len() ==> u8_digits((#[trigger] reprs@[l])@) == ds[l],
            forall|l: int, i2: int| 0 <= l < ds.len() && 0 <= i2 < ds[l].len() ==> 0 <= #[trigger] ds[l][i2] < 8,
            forall|l: int| 0 <= l < group_elem_multiples@.len() ==> (#[trigger] group_elem_multiples@[l])@.len() >= 7,
            r == window_from(mv, ds, new_length as int, i as int),
        decreases i,
    {
        i = i - 1;
        r = r.double();
        r = r.double();
        r = r.double();
        let ghost start = r;
        let mut l: usize = 0;
        while l < reprs.len()
            invariant
                i < new_length,
                l <= reprs@.len(),
                reprs@.len() == group_elem_multiples@.len() == mv.len() == ds.len(),
                mv == vec_views(group_elem_multiples@),
                forall|l2: int| 0 <= l2 < reprs@.len() ==> u8_digits((#[trigger] reprs@[l2])@) == ds[l2],
                forall|l2: int, i2: int| 0 <= l2 < ds.len() && 0 <= i2 < ds[l2].len() ==> 0 <= #[trigger] ds[l2][i2] < 8,
                forall|l2: int| 0 <= l2 < group_elem_multiples@.len() ==> (#[trigger] group_elem_multiples@[l2])@.len() >= 7,
                r == window_row(start, mv, ds, i as int, l as nat),
            decreases reprs@.len() - l,
        {
            let repr = &reprs[l];
            let b: u8 = if i < repr.len() {
                repr[i]
            } else {
                0
            };
            assert(b as int == padded(ds[l as int], i as int)) by {
                assert(u8_digits(reprs@[l as int]@) == ds[l as int]);
                if i < repr.len() {
                    assert(ds[l as int][i as int] == repr@[i as int] as int);
                }
            }
            assert(mv[l as int] == group_elem_multiples@[l as int]@);
            if b != 0 {
                r = r.plus(&group_elem_multiples[l][(b - 1) as usize]);
            }
            l = l + 1;
        }
    }
    Ok(r)
}

/// The multiples `a, 2a, ..., 7a` of each base, for the radix-8 window.
pub open spec fn multiples_of<T: GroupElement>(a: T) -> Seq<T> {
    Seq::new(7, |i: int| multiple(a, i as nat))
}

/// Fixed-window multi-scalar multiplication, building the multiples of each base.
pub fn multi_scalar_mul_const_time_without_precomputation<T: GroupElement>(
    group_elems: &[T],
    field_elems: &[CurveOrderElement],
) -> (r: Result<T, ValueError>)
    requires
        all_wf(field_elems@),
    ensures
        field_elems@.len() != group_elems@.len() <==> r is Err,
        r matches Err(e) ==> e == ValueError::UnequalSizeVectors(
            group_elems@.len() as usize,
            field_elems@.len() as usize,
        ),
        r matches Ok(v) ==> v == window_eval(
            group_elems@.map_values(|a: T| multiples_of(a)),
            scalar_values(field_elems@),
        ),
{
    let mut multiples: Vec<Vec<T>> = Vec::new();
    let mut j: usize = 0;
    while j < group_elems.len()
        invariant
            j <= group_elems@.len(),
            multiples@.len() == j,
            forall|l: int| 0 <= l < j ==> (#[trigger] multiples@[l])@ == multiples_of(group_elems@[l]),
        decreases group_elems@.len() - j,
    {
        let m = get_multiples(&group_elems[j], 7);
        assert(m@ =~= multiples_of(group_elems@[j as int]));
        multiples.push(m);
        j = j + 1;
    }
    assert(vec_views(multiples@) =~= group_elems@.map_values(|a: T| multiples_of(a)));
    multi_scalar_mul_const_time_with_precomputation_done(multiples.as_slice(), field_elems)
}

proof fn lemma_strauss_single_from<T: GroupElement>(tbl: Seq<T>, d: Seq<int>, i: int)
    requires
        0 <= i <= d.len(),
    ensures
        strauss_from(seq![tbl], seq![d], d.len() as int, i) == wnaf_eval(
            tbl,
            d.subrange(i, d.len() as int),
        ),
    decreases d.len() - i,
{
    if i < d.len() {
        lemma_strauss_single_from(tbl, d, i + 1);
        assert(d.subrange(i, d.len() as int).drop_first() =~= d.subrange(i + 1, d.len() as int));
        let ts = seq![tbl];
        let ds = seq![d];
        let prev = T::spec_double(strauss_from(ts, ds, d.len() as int, i + 1));
        assert(strauss_row(prev, ts, ds, i, 0) == prev);
        assert(strauss_row(prev, ts, ds, i, 1) == wnaf_step(prev, tbl, d[i]));
    } else {
        assert(d.subrange(i, d.len() as int) =~= Seq::<int>::empty());
    }
}

/// With a single base, Strauss's multi-scalar multiplication performs exactly the
/// operations of the variable-time (wNAF) multiplication of that base.
pub proof fn lemma_strauss_single_base<T: GroupElement>(a: T, k: CurveOrderElement)
    ensures
        strauss_eval(seq![a].map_values(|x: T| table_of(x)), seq![k@]) == wnaf_eval(
            table_of(a),
            wnaf_digits(k@ as nat, 5),
        ),
{
    let d = wnaf_digits(k@ as nat, 5);
    let ts = seq![a].map_values(|x: T| table_of(x));
    assert(ts =~= seq![table_of(a)]);
    assert(wnafs_of(seq![k@]) =~= seq![d]);
    let ds = seq![d];
    assert(ds.drop_last() =~= Seq::<Seq<int>>::empty());
    assert(max_len_of(ds.drop_last()) == 0);
    assert(ds.last() == d);
    assert(max_len_of(ds) == d.len());
    lemma_strauss_single_from(table_of(a), d, 0);
    assert(d.subrange(0, d.len() as int) =~= d);
}

} // verus!
