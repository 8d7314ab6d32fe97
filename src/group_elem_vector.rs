//! Vectors of group elements: element-wise operations and the multi-scalar
//! products of a vector with a vector of scalars.
use vstd::prelude::*;
use crate::curve_order_elem::CurveOrderElement;
use crate::errors::ValueError;
use crate::group_elem::{
    GroupElement, LookupTable, all_wf, multi_scalar_mul_const_time_naive,
    multi_scalar_mul_const_time_with_precomputation_done,
    multi_scalar_mul_const_time_without_precomputation,
    multi_scalar_mul_var_time_with_precomputation_done,
    multi_scalar_mul_var_time_without_precomputation, multiples_of, naive_eval, scalar_values,
    strauss_eval, table_of, table_views, vec_views, window_eval, wnaf_eval, wnaf_mul,
};
use crate::curve_order_elem::{wnaf_digits, i8_digits, lemma_wnaf_digits_bounded};
use vstd::arithmetic::power2::*;

verus! {

/// `a[0] + a[1] + ...`, accumulated from the left starting at the identity.
pub open spec fn sum_eval<T: GroupElement>(a: Seq<T>) -> T
    decreases a.len(),
{
    if a.len() == 0 {
        T::spec_identity()
    } else {
        T::spec_plus(sum_eval(a.drop_last()), a.last())
    }
}

pub trait GroupElementVector<T: GroupElement>: Sized {
    spec fn spec_elems(&self) -> Seq<T>;

    /// `size` copies of the identity.
    fn new(size: usize) -> (r: Self)
        ensures
            r.spec_elems() == Seq::new(size as nat, |i: int| T::spec_identity()),
    ;

    fn with_capacity(capacity: usize) -> (r: Self)
        ensures
            r.spec_elems() == Seq::<T>::empty(),
    ;

    fn as_slice(&self) -> (r: &[T])
        ensures
            r@ == self.spec_elems(),
    ;

    fn len(&self) -> (r: usize)
        ensures
            r == self.spec_elems().len(),
    ;

    fn push(&mut self, value: T)
        ensures
            final(self).spec_elems() == old(self).spec_elems().push(value),
    ;

    fn pop(&mut self) -> (r: Option<T>)
        ensures
            old(self).spec_elems().len() == 0 ==> r is None && final(self).spec_elems() == old(self).spec_elems(),
            old(self).spec_elems().len() > 0 ==> r == Some(old(self).spec_elems().last())
                && final(self).spec_elems() == old(self).spec_elems().drop_last(),
    ;

    fn insert(&mut self, index: usize, element: T)
        requires
            index <= old(self).spec_elems().len(),
        ensures
            final(self).spec_elems() == old(self).spec_elems().insert(index as int, element),
    ;

    fn remove(&mut self, index: usize) -> (r: T)
        requires
            index < old(self).spec_elems().len(),
        ensures
            r == old(self).spec_elems()[index as int],
            final(self).spec_elems() == old(self).spec_elems().remove(index as int),
    ;

    /// The sum of all elements.
    fn sum(&self) -> (r: T)
        ensures
            r == sum_eval(self.spec_elems()),
    ;

    /// Multiplies each element by `n` in place, in constant time.
    fn scale(&mut self, n: &CurveOrderElement)
        requires
            n.wf(),
        ensures
            final(self).spec_elems() == old(self).spec_elems().map_values(
                |a: T| T::spec_scalar_mul(a, n@),
            ),
    ;

    /// Each element multiplied by `n`, in constant time.
    fn scaled_by(&self, n: &CurveOrderElement) -> (r: Self)
        requires
            n.wf(),
        ensures
            r.spec_elems() == self.spec_elems().map_values(|a: T| T::spec_scalar_mul(a, n@)),
    ;

    /// The element-wise sum of two vectors of equal length.
    fn plus(&self, b: &Self) -> (r: Result<Self, ValueError>)
        ensures
            self.spec_elems().len() != b.spec_elems().len() <==> r is Err,
            r matches Err(e) ==> e == ValueError::UnequalSizeVectors(
                self.spec_elems().len() as usize,
                b.spec_elems().len() as usize,
            ),
            r matches Ok(v) ==> v.spec_elems() == Seq::new(
                self.spec_elems().len(),
                |i: int| T::spec_plus(self.spec_elems()[i], b.spec_elems()[i]),
            ),
    ;

    /// The element-wise difference of two vectors of equal length.
    fn minus(&self, b: &Self) -> (r: Result<Self, ValueError>)
        ensures
            self.spec_elems().len() != b.spec_elems().len() <==> r is Err,
            r matches Err(e) ==> e == ValueError::UnequalSizeVectors(
                self.spec_elems().len() as usize,
                b.spec_elems().len() as usize,
            ),
            r matches Ok(v) ==> v.spec_elems() == Seq::new(
                self.spec_elems().len(),
                |i: int| T::spec_minus(self.spec_elems()[i], b.spec_elems()[i]),
            ),
    ;

    /// `size` random elements.
    fn random(size: usize) -> (r: Self)
        ensures
            r.spec_elems().len() == size,
    ;
}

/// A vector of group elements.
pub struct GroupElemVec<T> {
    elems: Vec<T>,
}

impl<T: GroupElement> GroupElemVec<T> {
    pub closed spec fn elems_view(&self) -> Seq<T> {
        self.elems@
    }

    pub fn from_vec(elems: Vec<T>) -> (r: Self)
        ensures
            r.elems_view() == elems@,
    {
        Self { elems }
    }

    pub fn from_slice(elems: &[T]) -> (r: Self)
        ensures
            r.elems_view() == elems@,
    {
        let mut v: Vec<T> = Vec::new();
        let mut i: usize = 0;
        while i < elems.len()
            invariant
                i <= elems@.len(),
                v@ == elems@.subrange(0, i as int),
            decreases elems@.len() - i,
        {
            v.push(elems[i].copy_elem());
            i = i + 1;
            assert(v@ =~= elems@.subrange(0, i as int));
        }
        assert(elems@.subrange(0, i as int) =~= elems@);
        Self { elems: v }
    }

    /// The element-wise group operation of two vectors of equal length.
    pub fn hadamard_product(&self, b: &Self) -> (r: Result<Self, ValueError>)
        ensures
            self.elems_view().len() != b.elems_view().len() <==> r is Err,
            r matches Err(e) ==> e == ValueError::UnequalSizeVectors(
                self.elems_view().len() as usize,
                b.elems_view().len() as usize,
            ),
            r matches Ok(v) ==> v.elems_view() == Seq::new(
                self.elems_view().len(),
                |i: int| T::spec_plus(self.elems_view()[i], b.elems_view()[i]),
            ),
    {
        GroupElementVector::plus(self, b)
    }

    /// The elements before `mid` and those from `mid` on.
    pub fn split_at(&self, mid: usize) -> (r: (Self, Self))
        requires
            mid <= self.elems_view().len(),
        ensures
            r.0.elems_view() == self.elems_view().subrange(0, mid as int),
            r.1.elems_view() == self.elems_view().subrange(mid as int, self.elems_view().len() as int),
    {
        let (l, r) = self.elems.as_slice().split_at(mid);
        (Self::from_slice(l), Self::from_slice(r))
    }

    /// Constant-time multi-scalar multiplication, one multiplication per term.
    pub fn multi_scalar_mul_const_time_naive(&self, field_elems: &[CurveOrderElement]) -> (r: Result<T, ValueError>)
        requires
            all_wf(field_elems@),
        ensures
            self.elems_view().len() != field_elems@.len() <==> r is Err,
            r matches Err(e) ==> e == ValueError::UnequalSizeVectors(
                field_elems@.len() as usize,
                self.elems_view().len() as usize,
            ),
            r matches Ok(v) ==> v == naive_eval(self.elems_view(), scalar_values(field_elems@)),
    {
        multi_scalar_mul_const_time_naive(self.elems.as_slice(), field_elems)
    }

    /// Constant-time (fixed-window) multi-scalar multiplication.
    pub fn multi_scalar_mul_const_time(&self, field_elems: &[CurveOrderElement]) -> (r: Result<T, ValueError>)
        requires
            all_wf(field_elems@),
        ensures
            self.elems_view().len() != field_elems@.len() <==> r is Err,
            r matches Err(e) ==> e == ValueError::UnequalSizeVectors(
                self.elems_view().len() as usize,
                field_elems@.len() as usize,
            ),
            r matches Ok(v) ==> v == window_eval(
                self.elems_view().map_values(|a: T| multiples_of(a)),
                scalar_values(field_elems@),
            ),
    {
        multi_scalar_mul_const_time_without_precomputation(self.elems.as_slice(), field_elems)
    }

    /// Variable-time (Strauss) multi-scalar multiplication.
    pub fn multi_scalar_mul_var_time(&self, field_elems: &[CurveOrderElement]) -> (r: Result<T, ValueError>)
        requires
            all_wf(field_elems@),
        ensures
            self.elems_view().len() != field_elems@.len() <==> r is Err,
            r matches Err(e) ==> e == ValueError::UnequalSizeVectors(
                field_elems@.len() as usize,
                self.elems_view().len() as usize,
            ),
            r matches Ok(v) ==> v == strauss_eval(
                self.elems_view().map_values(|a: T| table_of(a)),
                scalar_values(field_elems@),
            ),
    {
        multi_scalar_mul_var_time_without_precomputation(self.elems.as_slice(), field_elems)
    }

    /// The inner product with a vector of scalars, in constant time.
    pub fn inner_product_const_time(&self, b: &[CurveOrderElement]) -> (r: Result<T, ValueError>)
        requires
            all_wf(b@),
        ensures
            self.elems_view().len() != b@.len() <==> r is Err,
            r matches Ok(v) ==> v == window_eval(
                self.elems_view().map_values(|a: T| multiples_of(a)),
                scalar_values(b@),
            ),
    {
        self.multi_scalar_mul_const_time(b)
    }

    /// The inner product with a vector of scalars, in variable time.
    pub fn inner_product_var_time(&self, b: &[CurveOrderElement]) -> (r: Result<T, ValueError>)
        requires
            all_wf(b@),
        ensures
            self.elems_view().len() != b@.len() <==> r is Err,
            r matches Ok(v) ==> v == strauss_eval(
                self.elems_view().map_values(|a: T| table_of(a)),
                scalar_values(b@),
            ),
    {
        self.multi_scalar_mul_var_time(b)
    }

    /// Strauss multi-scalar multiplication of given bases.
    pub fn multi_scalar_mul_var_time_without_precomputation(
        group_elems: &[T],
        field_elems: &[CurveOrderElement],
    ) -> (r: Result<T, ValueError>)
        requires
            all_wf(field_elems@),
        ensures
            field_elems@.len() != group_elems@.len() <==> r is Err,
            r matches Ok(v) ==> v == strauss_eval(
                group_elems@.map_values(|a: T| table_of(a)),
                scalar_values(field_elems@),
            ),
    {
        multi_scalar_mul_var_time_without_precomputation(group_elems, field_elems)
    }

    /// Strauss multi-scalar multiplication with tables built beforehand.
    pub fn multi_scalar_mul_var_time_with_precomputation_done(
        lookup_tables: &[LookupTable<T>],
        field_elems: &[CurveOrderElement],
    ) -> (r: Result<T, ValueError>)
        requires
            all_wf(field_elems@),
            forall|j: int| 0 <= j < lookup_tables@.len() ==> (#[trigger] lookup_tables@[j])@.len() == 8,
        ensures
            field_elems@.len() != lookup_tables@.len() <==> r is Err,
            r matches Ok(v) ==> v == strauss_eval(
                table_views(lookup_tables@),
                scalar_values(field_elems@),
            ),
    {
        multi_scalar_mul_var_time_with_precomputation_done(lookup_tables, field_elems)
    }

    /// Fixed-window multi-scalar multiplication of given bases.
    pub fn multi_scalar_mul_const_time_without_precomputation(
        group_elems: &[T],
        field_elems: &[CurveOrderElement],
    ) -> (r: Result<T, ValueError>)
        requires
            all_wf(field_elems@),
        ensures
            field_elems@.len() != group_elems@.len() <==> r is Err,
            r matches Ok(v) ==> v == window_eval(
                group_elems@.map_values(|a: T| multiples_of(a)),
                scalar_values(field_elems@),
            ),
    {
        multi_scalar_mul_const_time_without_precomputation(group_elems, field_elems)
    }

    /// Fixed-window multi-scalar multiplication with multiples built beforehand.
    pub fn multi_scalar_mul_const_time_with_precomputation_done(
        group_elem_multiples: &[Vec<T>],
        field_elems: &[CurveOrderElement],
    ) -> (r: Result<T, ValueError>)
        requires
            all_wf(field_elems@),
            forall|j: int| 0 <= j < group_elem_multiples@.len() ==> (#[trigger] group_elem_multiples@[j])@.len() >= 7,
        ensures
            field_elems@.len() != group_elem_multiples@.len() <==> r is Err,
            r matches Ok(v) ==> v == window_eval(
                vec_views(group_elem_multiples@),
                scalar_values(field_elems@),
            ),
    {
        multi_scalar_mul_const_time_with_precomputation_done(group_elem_multiples, field_elems)
    }

    /// Multiplies each element by `n` in variable time, with one wNAF of `n` for all.
    pub fn scale_var_time(&mut self, n: &CurveOrderElement)
        requires
            n.wf(),
        ensures
            final(self).elems_view() == old(self).elems_view().map_values(
                |a: T| wnaf_eval(table_of(a), wnaf_digits(n@ as nat, 5)),
            ),
    {
        let wnaf = n.to_wnaf(5);
        proof {
            lemma_wnaf_digits_bounded(n@ as nat, 5);
            lemma2_to64();
        }
        let ghost before = self.elems@;
        let mut out: Vec<T> = Vec::new();
        let mut i: usize = 0;
        while i < self.elems.len()
            invariant
                i <= before.len(),
                self.elems@ == before,
                i8_digits(wnaf@) == wnaf_digits(n@ as nat, 5),
                crate::group_elem::table_digits(i8_digits(wnaf@)),
                out@.len() == i,
                forall|j: int| 0 <= j < i ==> #[trigger] out@[j] == wnaf_eval(table_of(before[j]), wnaf_digits(n@ as nat, 5)),
            decreases before.len() - i,
        {
            let table = LookupTable::from(&self.elems[i]);
            out.push(wnaf_mul(&table, wnaf.as_slice()));
            i = i + 1;
        }
        self.elems = out;
        assert(self.elems@ =~= before.map_values(|a: T| wnaf_eval(table_of(a), wnaf_digits(n@ as nat, 5))));
    }

    /// Each element multiplied by `n` in variable time.
    pub fn scaled_by_var_time(&self, n: &CurveOrderElement) -> (r: Self)
        requires
            n.wf(),
        ensures
            r.elems_view() == self.elems_view().map_values(
                |a: T| wnaf_eval(table_of(a), wnaf_digits(n@ as nat, 5)),
            ),
    {
        let mut scaled = Self::from_slice(self.elems.as_slice());
        scaled.scale_var_time(n);
        scaled
    }
}

impl<T: GroupElement> GroupElementVector<T> for GroupElemVec<T> {
    closed spec fn spec_elems(&self) -> Seq<T> {
        self.elems@
    }

    fn new(size: usize) -> (r: Self) {
        let mut elems: Vec<T> = Vec::new();
        let mut i: usize = 0;
        while i < size
            invariant
                i <= size,
                elems@ == Seq::new(i as nat, |j: int| T::spec_identity()),
            decreases size - i,
        {
            elems.push(T::new());
            i = i + 1;
            assert(elems@ =~= Seq::new(i as nat, |j: int| T::spec_identity()));
        }
        Self { elems }
    }

    fn with_capacity(capacity: usize) -> (r: Self) {
        let r = Self { elems: Vec::with_capacity(capacity) };
        assert(r.elems@ =~= Seq::<T>::empty());
        r
    }

    fn as_slice(&self) -> (r: &[T]) {
        self.elems.as_slice()
    }

    fn len(&self) -> (r: usize) {
        self.elems.len()
    }

    fn push(&mut self, value: T) {
        self.elems.push(value)
    }

    fn pop(&mut self) -> (r: Option<T>) {
        self.elems.pop()
    }

    fn insert(&mut self, index: usize, element: T) {
        self.elems.insert(index, element)
    }

    fn remove(&mut self, index: usize) -> (r: T) {
        self.elems.remove(index)
    }

    fn sum(&self) -> (r: T) {
        let mut s = T::new();
        let mut i: usize = 0;
        while i < self.elems.len()
            invariant
                i <= self.elems@.len(),
                s == sum_eval(self.elems@.subrange(0, i as int)),
            decreases self.elems@.len() - i,
        {
            s = s.plus(&self.elems[i]);
            i = i + 1;
            assert(self.elems@.subrange(0, i as int).drop_last() =~= self.elems@.subrange(0, i - 1));
        }
        assert(self.elems@.subrange(0, i as int) =~= self.elems@);
        s
    }

    fn scale(&mut self, n: &CurveOrderElement) {
        let scaled = self.scaled_by(n);
        self.elems = scaled.elems;
    }

    fn scaled_by(&self, n: &CurveOrderElement) -> (r: Self) {
        let mut out: Vec<T> = Vec::new();
        let mut i: usize = 0;
        while i < self.elems.len()
            invariant
                i <= self.elems@.len(),
                n.wf(),
                out@.len() == i,
                forall|j: int| 0 <= j < i ==> #[trigger] out@[j] == T::spec_scalar_mul(self.elems@[j], n@),
            decreases self.elems@.len() - i,
        {
            out.push(self.elems[i].scalar_mul_const_time(n));
            i = i + 1;
        }
        let r = Self { elems: out };
        assert(r.elems@ =~= self.elems@.map_values(|a: T| T::spec_scalar_mul(a, n@)));
        r
    }

    fn plus(&self, b: &Self) -> (r: Result<Self, ValueError>) {
        if self.elems.len() != b.elems.len() {
            return Err(ValueError::UnequalSizeVectors(self.elems.len(), b.elems.len()));
        }
        let mut out: Vec<T> = Vec::new();
        let mut i: usize = 0;
        while i < self.elems.len()
            invariant
                i <= self.elems@.len(),
                self.elems@.len() == b.elems@.len(),
                out@.len() == i,
                forall|j: int| 0 <= j < i ==> #[trigger] out@[j] == T::spec_plus(self.elems@[j], b.elems@[j]),
            decreases self.elems@.len() - i,
        {
            out.push(self.elems[i].plus(&b.elems[i]));
            i = i + 1;
        }
        let r = Self { elems: out };
        assert(r.elems@ =~= Seq::new(self.elems@.len(), |i: int| T::spec_plus(self.elems@[i], b.elems@[i])));
        Ok(r)
    }

    fn minus(&self, b: &Self) -> (r: Result<Self, ValueError>) {
        if self.elems.len() != b.elems.len() {
            return Err(ValueError::UnequalSizeVectors(self.elems.len(), b.elems.len()));
        }
        let mut out: Vec<T> = Vec::new();
        let mut i: usize = 0;
        while i < self.elems.len()
            invariant
                i <= self.elems@.len(),
                self.elems@.len() == b.elems@.len(),
                out@.len() == i,
                forall|j: int| 0 <= j < i ==> #[trigger] out@[j] == T::spec_minus(self.elems@[j], b.elems@[j]),
            decreases self.elems@.len() - i,
        {
            out.push(self.elems[i].minus(&b.elems[i]));
            i = i + 1;
        }
        let r = Self { elems: out };
        assert(r.elems@ =~= Seq::new(self.elems@.len(), |i: int| T::spec_minus(self.elems@[i], b.elems@[i])));
        Ok(r)
    }

    fn random(size: usize) -> (r: Self) {
        let mut elems: Vec<T> = Vec::new();
        let mut i: usize = 0;
        while i < size
            invariant
                i <= size,
                elems@.len() == i,
            decreases size - i,
        {
            elems.push(T::random());
            i = i + 1;
        }
        Self { elems }
    }
}

} // verus!
