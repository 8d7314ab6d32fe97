use amcl_wrapper::curve_order_elem::CurveOrderElement;
use amcl_wrapper::extension_field_gt::{GROUP_GT_SIZE, GT};
use amcl_wrapper::group_elem::{GroupElement, LookupTable};
use amcl_wrapper::group_elem_g1::{G1LookupTable, G1Vector, GROUP_G1_SIZE, G1};
use amcl_wrapper::group_elem_g2::{G2LookupTable, G2Vector, GROUP_G2_SIZE, G2};
use amcl_wrapper::group_elem_vector::{GroupElemVec, GroupElementVector};
use std::fmt::Debug;
use std::time::Instant;

#[test]
fn test_to_and_from_bytes() {
    let count = 100;
    for _ in 0..count {
        let x = G1::random();
        let mut bytes: [u8; GROUP_G1_SIZE] = [0; GROUP_G1_SIZE];
        x.write_to_slice(&mut bytes).unwrap();
        let y = G1::from_slice(&bytes).unwrap();
        assert_eq!(x, y);

        let bytes1 = x.to_vec();
        assert_eq!(x, G1::from_slice(bytes1.as_slice()).unwrap());

        // Increase length of byte vector by adding a byte. Choice of byte is arbitrary
        let mut bytes2 = bytes1.clone();
        bytes2.push(0);
        assert!(G1::from_slice(&bytes2).is_err());
        assert!(x.write_to_slice(&mut bytes2).is_err());

        // Decrease length of byte vector
        assert!(G1::from_slice(&bytes2[0..GROUP_G1_SIZE - 4]).is_err());
        assert!(x.write_to_slice(&mut bytes2[0..GROUP_G1_SIZE - 4]).is_err());
    }
    for _ in 0..count {
        let x = G2::random();
        let mut bytes: [u8; GROUP_G2_SIZE] = [0; GROUP_G2_SIZE];
        x.write_to_slice(&mut bytes).unwrap();
        let y = G2::from_slice(&bytes).unwrap();
        assert_eq!(x, y);

        let bytes1 = x.to_vec();
        assert_eq!(x, G2::from_slice(bytes1.as_slice()).unwrap());

        let mut bytes2 = bytes1.clone();
        bytes2.push(0);
        assert!(G2::from_slice(&bytes2).is_err());
        assert!(x.write_to_slice(&mut bytes2).is_err());

        assert!(G2::from_slice(&bytes2[0..GROUP_G2_SIZE - 4]).is_err());
        assert!(x.write_to_slice(&mut bytes2[0..GROUP_G2_SIZE - 4]).is_err());
    }
    for _ in 0..count {
        let x = GT::random();
        let bytes1 = x.to_bytes();
        assert_eq!(bytes1.len(), GROUP_GT_SIZE);
        assert!(x == GT::from_bytes(bytes1.as_slice()).unwrap());

        let mut bytes2 = bytes1.clone();
        bytes2.push(0);
        assert!(GT::from_bytes(&bytes2).is_err());

        assert!(GT::from_bytes(&bytes2[0..GROUP_GT_SIZE - 4]).is_err());
    }
}

fn check_inequality<T: GroupElement + PartialEq + Debug>() {
    for _ in 0..10 {
        // Very unlikely that 2 randomly chosen elements will be equal
        let a = T::random();
        let b = T::random();
        assert_ne!(&a, &b);
    }
}

#[test]
fn test_equality() {
    check_inequality::<G1>();
    check_inequality::<G2>();
}

fn check_negating<T: GroupElement + PartialEq + Debug>() {
    let b = T::random();
    let neg_b = b.negation();
    assert_ne!(b, neg_b);
    let neg_neg_b = neg_b.negation();
    assert_eq!(b, neg_neg_b);
    assert_eq!(b.plus(&neg_b), T::identity());
}

#[test]
fn test_negating_group_elems() {
    check_negating::<G1>();
    check_negating::<G2>();
}

fn check_addition<T: GroupElement + PartialEq + Debug>() {
    for _ in 0..10 {
        let a = T::random();
        let b = T::random();
        let c = T::random();

        let sum = a.plus(&b).plus(&c);

        let mut expected_sum = T::new();
        expected_sum = expected_sum.plus(&a);
        expected_sum = expected_sum.plus(&b);
        expected_sum = expected_sum.plus(&c);
        assert_eq!(sum, expected_sum);
    }
}

#[test]
fn test_group_elem_addition() {
    check_addition::<G1>();
    check_addition::<G2>();
}

fn check_negation<T: GroupElement>() {
    for _ in 0..10 {
        let a = T::random();
        let b = a.negation();
        assert!(a.plus(&b).is_identity())
    }
}

#[test]
fn test_negation() {
    check_negation::<G1>();
    check_negation::<G2>();
}

fn check_order<T: GroupElement>() {
    let count = 10;
    let start = Instant::now();
    for _ in 0..count {
        let a = T::random();
        assert!(a.has_correct_order())
    }
    println!("For {} elements, time to check correct order is {:?}", count, start.elapsed())
}

#[test]
fn timing_correct_order_check() {
    check_order::<G1>();
    check_order::<G2>();
}

fn add_mul<T: GroupElement>() {
    let count = 100;
    let points: Vec<T> = (0..100).map(|_| T::random()).collect();
    let mut r = T::random();
    let mut start = Instant::now();
    for i in 0..count {
        r = r.plus(&points[i]);
    }
    println!("Addition time for {} elems = {:?}", count, start.elapsed());

    let fs: Vec<_> = (0..100).map(|_| CurveOrderElement::random()).collect();
    start = Instant::now();
    for i in 0..count {
        let _ = points[i].scalar_mul_const_time(&fs[i]);
    }
    println!("Scalar multiplication time for {} elems = {:?}", count, start.elapsed());
}

#[test]
fn timing_group_elem_addition_and_scalar_multiplication() {
    add_mul::<G1>();
    add_mul::<G2>();
}

fn check_lookup_table<T: GroupElement + PartialEq + Debug>() {
    let x = [1, 3, 5, 7, 9, 11, 13, 15];
    let a = T::random();
    let table = LookupTable::from(&a);
    for i in x.iter() {
        let f = CurveOrderElement::from(*i as u8);
        let expected = a.scalar_mul_const_time(&f);
        assert_eq!(expected, *table.select(*i as usize));
    }
}

#[test]
fn test_lookup_table() {
    let a = G1::random();
    let table = G1LookupTable::from(&a);
    assert_eq!(a, *table.select(1));
    let b = G2::random();
    let table = G2LookupTable::from(&b);
    assert_eq!(b, *table.select(1));
    check_lookup_table::<G1>();
    check_lookup_table::<G2>();
}

#[test]
fn test_wnaf_mul() {
    for _ in 0..100 {
        let a = G1::random();
        let r = CurveOrderElement::random();
        let expected = a.scalar_mul_const_time(&r);

        let table = G1LookupTable::from(&a);
        let wnaf = r.to_wnaf(5);
        let p = G1::wnaf_mul(&table, &wnaf);

        assert_eq!(expected, p);
    }
    for _ in 0..100 {
        let a = G2::random();
        let r = CurveOrderElement::random();
        let expected = a.scalar_mul_const_time(&r);

        let table = G2LookupTable::from(&a);
        let wnaf = r.to_wnaf(5);
        let p = G2::wnaf_mul(&table, &wnaf);

        assert_eq!(expected, p);
    }
}

fn check_multi_scalar<T: GroupElement + PartialEq + Debug>(rounds: usize) {
    for _ in 0..rounds {
        let mut fs = vec![];
        let mut gs = vec![];
        let gen = T::generator();

        for i in 0..70 {
            fs.push(CurveOrderElement::random());
            gs.push(gen.scalar_mul_const_time(&fs[i]));
        }

        let gv = GroupElemVec::from_slice(gs.as_slice());
        let res = gv.multi_scalar_mul_const_time_naive(fs.as_slice()).unwrap();

        let res_1 = gv.multi_scalar_mul_var_time(fs.as_slice()).unwrap();

        let mut expected = T::new();
        let mut expected_1 = T::new();
        for i in 0..fs.len() {
            expected = expected.plus(&gs[i].scalar_mul_const_time(&fs[i]));
            expected_1 = expected_1.plus(&gs[i].scalar_mul_const_time(&fs[i]));
        }

        let res_2 = GroupElemVec::<T>::multi_scalar_mul_const_time_without_precomputation(
            gs.as_slice(),
            fs.as_slice(),
        )
        .unwrap();

        assert_eq!(expected, res);
        assert_eq!(expected_1, res);
        assert_eq!(res_1, res);
        assert_eq!(res_2, res);

        let res_3 = GroupElemVec::<T>::multi_scalar_mul_const_time_without_precomputation(
            gv.as_slice(),
            fs.as_slice(),
        )
        .unwrap();
        assert_eq!(res_3, res);
    }
}

#[test]
fn test_multi_scalar_multiplication() {
    check_multi_scalar::<G1>(5);
    let g1_vec: G1Vector = G1Vector::with_capacity(0);
    assert_eq!(g1_vec.len(), 0);
}

// The five rounds in G2 are split over separate tests to keep each one short.
#[test]
fn test_multi_scalar_multiplication_in_g2() {
    check_multi_scalar::<G2>(1);
    let g2_vec: G2Vector = G2Vector::with_capacity(0);
    assert_eq!(g2_vec.len(), 0);
}

#[test]
fn test_multi_scalar_multiplication_in_g2_second_round() {
    check_multi_scalar::<G2>(1);
}

#[test]
fn test_multi_scalar_multiplication_in_g2_third_round() {
    check_multi_scalar::<G2>(1);
}

#[test]
fn test_multi_scalar_multiplication_in_g2_fourth_round() {
    check_multi_scalar::<G2>(1);
}

#[test]
fn test_multi_scalar_multiplication_in_g2_fifth_round() {
    check_multi_scalar::<G2>(1);
}

fn check_scaling<T: GroupElement + PartialEq + Debug>() {
    let size = 30;
    let r = CurveOrderElement::random();
    let vector: GroupElemVec<T> = GroupElemVec::random(size);
    let start = Instant::now();
    let s1 = vector.scaled_by(&r);
    println!("Constant time scaling for {} elems takes {:?}", size, start.elapsed());

    let start = Instant::now();
    let s2 = vector.scaled_by_var_time(&r);
    println!("Variable time scaling for {} elems takes {:?}", size, start.elapsed());

    assert_eq!(s1.as_slice(), s2.as_slice());
    let mut s3 = GroupElemVec::from_slice(vector.as_slice());
    s3.scale_var_time(&r);
    assert_eq!(s1.as_slice(), s3.as_slice())
}

#[test]
fn timing_vector_scaling() {
    check_scaling::<G1>();
    check_scaling::<G2>();
}

#[test]
fn test_hex_group_elem() {
    for _ in 0..100 {
        let r = G1::random();
        let h = r.to_hex();
        let r_ = G1::from_hex(h).unwrap();
        assert_eq!(r, r_);

        // Very unlikely that 2 randomly chosen elements will be equal
        let s = G1::random();
        assert_ne!(r, s);
    }
    for _ in 0..100 {
        let r = G2::random();
        let h = r.to_hex();
        let r_ = G2::from_hex(h).unwrap();
        assert_eq!(r, r_);

        let s = G2::random();
        assert_ne!(r, s);
    }
    for _ in 0..100 {
        let r = GT::random();
        let h = r.to_hex();
        let r_ = GT::from_hex(h).unwrap();
        assert!(r == r_);

        let s = GT::random();
        assert!(!(r == s));
    }
}

#[test]
fn test_scalar_mult_operators() {
    for _ in 0..10 {
        let g = G1::random();
        let f = CurveOrderElement::random();
        let m = g.scalar_mul_const_time(&f);
        // Operands can be in any order
        assert_eq!(m, &g * &f);
        assert_eq!(m, &f * &g);
    }
    for _ in 0..10 {
        let g = G2::random();
        let f = CurveOrderElement::random();
        let m = g.scalar_mul_const_time(&f);
        assert_eq!(m, &g * &f);
        assert_eq!(m, &f * &g);
    }
}
