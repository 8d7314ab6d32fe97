use amcl::bn254::big::BIG;
use amcl::bn254::dbig::DBIG;
use amcl::bn254::rom;
use amcl_wrapper::curve_order_elem::CurveOrderElement;
use amcl_wrapper::errors::{SerzDeserzError, ValueError};
use amcl_wrapper::extension_field_gt::GT;
use amcl_wrapper::group_elem::{
    multi_scalar_mul_const_time_naive, multi_scalar_mul_const_time_without_precomputation,
    multi_scalar_mul_var_time_without_precomputation, scalar_mul_variable_time, GroupElement,
};
use amcl_wrapper::group_elem_g1::{G1Vector, G1};
use amcl_wrapper::group_elem_g2::G2;
use amcl_wrapper::group_elem_vector::GroupElementVector;
use amcl_wrapper::utils::{barrett_reduction, barrett_reduction_params};
use std::fmt::Debug;

fn one_and_zero<T: GroupElement + PartialEq + Debug>() {
    let a = T::random();
    assert_eq!(a.scalar_mul_const_time(&CurveOrderElement::one()), a);
    assert!(a.scalar_mul_const_time(&CurveOrderElement::zero()).is_identity());
    assert_eq!(a.scalar_mul_const_time(&CurveOrderElement::zero()), T::identity());
}

#[test]
fn scalar_mul_by_one_and_zero() {
    one_and_zero::<G1>();
    one_and_zero::<G2>();
}

#[test]
fn const_and_variable_time_agree() {
    for _ in 0..5 {
        let a = G1::random();
        let r = CurveOrderElement::random();
        assert_eq!(a.scalar_mul_const_time(&r), scalar_mul_variable_time(&a, &r));
        let b = G2::random();
        assert_eq!(b.scalar_mul_const_time(&r), b.scalar_mul_variable_time(&r));
    }
    let a = G1::random();
    let z = CurveOrderElement::zero();
    assert!(a.scalar_mul_variable_time(&z).is_identity());
    let m = CurveOrderElement::minus_one();
    assert_eq!(a.scalar_mul_variable_time(&m), a.negation());
}

#[test]
fn multi_scalar_strategies_agree() {
    let gs: Vec<G1> = (0..6).map(|_| G1::random()).collect();
    let mut fs: Vec<CurveOrderElement> = (0..5).map(|_| CurveOrderElement::random()).collect();
    fs.push(CurveOrderElement::zero());
    let naive = multi_scalar_mul_const_time_naive(&gs, &fs).unwrap();
    let strauss = multi_scalar_mul_var_time_without_precomputation(&gs, &fs).unwrap();
    let window = multi_scalar_mul_const_time_without_precomputation(&gs, &fs).unwrap();
    assert_eq!(naive, strauss);
    assert_eq!(naive, window);
    let empty: Vec<G1> = vec![];
    let none: Vec<CurveOrderElement> = vec![];
    assert!(multi_scalar_mul_const_time_naive(&empty, &none).unwrap().is_identity());
    assert!(multi_scalar_mul_var_time_without_precomputation(&empty, &none).unwrap().is_identity());
    assert!(multi_scalar_mul_const_time_without_precomputation(&empty, &none).unwrap().is_identity());
}

#[test]
fn multi_scalar_size_mismatch() {
    let gs: Vec<G1> = (0..3).map(|_| G1::random()).collect();
    let fs: Vec<CurveOrderElement> = (0..2).map(|_| CurveOrderElement::random()).collect();
    assert_eq!(
        multi_scalar_mul_const_time_naive(&gs, &fs),
        Err(ValueError::UnequalSizeVectors(2, 3))
    );
    assert_eq!(
        multi_scalar_mul_var_time_without_precomputation(&gs, &fs),
        Err(ValueError::UnequalSizeVectors(2, 3))
    );
    assert_eq!(
        multi_scalar_mul_const_time_without_precomputation(&gs, &fs),
        Err(ValueError::UnequalSizeVectors(3, 2))
    );
}

#[test]
fn pairing_is_bilinear() {
    let p1 = G1::random();
    let p2 = G1::random();
    let q = G2::random();
    assert!(GT::ate_pairing(&p1.plus(&p2), &q) == GT::mul(&GT::ate_pairing(&p1, &q), &GT::ate_pairing(&p2, &q)));
}

#[test]
fn pairing_absorbs_identity() {
    let p = G1::random();
    let q = G2::random();
    let h = G2::random();
    assert!(GT::ate_pairing(&G1::identity(), &q).is_one());
    assert!(GT::ate_pairing(&p, &G2::identity()).is_one());
    assert!(GT::ate_2_pairing(&p, &q, &G1::identity(), &h) == GT::ate_pairing(&p, &q));
    assert!(!GT::ate_pairing(&p, &q).is_one());
}

#[test]
fn pairing_of_negation_is_inverse() {
    let p = G1::random();
    let q = G2::random();
    let neg_q = q.negation();
    assert!(GT::ate_pairing(&p, &neg_q) == GT::ate_pairing(&p, &q).inverse());
    assert!(GT::mul(&GT::ate_pairing(&p, &q), &GT::ate_pairing(&p, &neg_q)) == GT::one());
    let mut e = GT::ate_pairing(&p, &q);
    e.inverse_mut();
    assert!(e == GT::ate_pairing(&p, &q).inverse());
    assert!(!(e == GT::ate_pairing(&p, &q)));
}

#[test]
fn pairing_scalar_exponent() {
    let p = G1::random();
    let q = G2::random();
    let r = CurveOrderElement::random();
    let a = GT::ate_pairing(&p, &q.scalar_mul_const_time(&r));
    let b = GT::ate_pairing(&p.scalar_mul_const_time(&r), &q);
    let c = GT::ate_pairing(&p, &q).pow(&r);
    assert!(a == b);
    assert!(a == c);
    assert!(GT::ate_pairing(&p, &q).pow(&CurveOrderElement::zero()).is_one());
    let e = GT::ate_pairing(&p, &q);
    assert!(e.pow(&CurveOrderElement::one()) == e);
}

#[test]
fn multi_pairing_skips_identity_pair() {
    let (p1, p2) = (G1::random(), G1::random());
    let (q1, q2) = (G2::random(), G2::random());
    let id = G1::identity();
    let q3 = G2::random();
    let with = GT::ate_multi_pairing(vec![(&p1, &q1), (&id, &q3), (&p2, &q2)]);
    let without = GT::ate_multi_pairing(vec![(&p1, &q1), (&p2, &q2)]);
    assert!(with == without);
    assert!(GT::ate_multi_pairing(vec![]).is_one());
    assert!(GT::ate_multi_pairing(vec![(&p1, &q1)]) == GT::ate_pairing(&p1, &q1));
}

fn curve_order() -> BIG {
    BIG::new_ints(&rom::CURVE_ORDER)
}

#[test]
fn barrett_params_of_curve_order() {
    let m = curve_order();
    let (k, u, v) = barrett_reduction_params(&m);
    assert_eq!(k, 254);
    let mut two_k1 = BIG::new_int(1);
    two_k1.shl(255);
    assert_eq!(BIG::comp(&v, &two_k1), 0);
    // u * m <= 2^508 < (u + 1) * m
    let mut p = DBIG::new();
    p.w[0] = 1;
    p.shl(254);
    p.shl(254);
    let um = BIG::mul(&u, &m);
    assert!(DBIG::comp(&um, &p) <= 0);
    let mut u1 = u;
    u1.inc(1);
    u1.norm();
    let u1m = BIG::mul(&u1, &m);
    assert!(DBIG::comp(&u1m, &p) > 0);
}

#[test]
fn barrett_reduction_edge_values() {
    let m = curve_order();
    let (k, u, v) = barrett_reduction_params(&m);
    // zero, the modulus itself, and (m - 1)^2
    let zero = DBIG::new();
    assert!(barrett_reduction(&zero, &m, k, &u, &v).iszilch());
    let m_as_d = DBIG::new_scopy(&m);
    assert!(barrett_reduction(&m_as_d, &m, k, &u, &v).iszilch());
    let mut m1 = m;
    m1.dec(1);
    m1.norm();
    let sq = BIG::mul(&m1, &m1);
    let r = barrett_reduction(&sq, &m, k, &u, &v);
    assert_eq!(BIG::comp(&r, &BIG::new_int(1)), 0);
    let r = amcl_wrapper::utils::__barrett_reduction__(&m1, &m, k, &u, &v);
    assert_eq!(BIG::comp(&r, &m1), 0);
}

#[test]
fn wnaf_digits_exact() {
    assert_eq!(CurveOrderElement::from(7).to_wnaf(5), vec![7]);
    assert_eq!(CurveOrderElement::from(31).to_wnaf(5), vec![-1, 0, 0, 0, 0, 1]);
    assert_eq!(CurveOrderElement::from(2).to_wnaf(5), vec![0, 1]);
    assert_eq!(CurveOrderElement::zero().to_wnaf(5), Vec::<i8>::new());
    assert_eq!(CurveOrderElement::from(255).to_wnaf(2), vec![-1, 0, 0, 0, 0, 0, 0, 0, 1]);
}

#[test]
fn radix_digits_exact() {
    assert_eq!(CurveOrderElement::from(100).to_power_of_2_base(3), vec![4, 4, 1]);
    assert_eq!(CurveOrderElement::from(8).to_power_of_2_base(3), vec![0, 1]);
    assert_eq!(CurveOrderElement::zero().to_power_of_2_base(3), vec![0]);
    assert_eq!(CurveOrderElement::from(255).to_power_of_2_base(4), vec![15, 15]);
}

#[test]
fn scalar_arithmetic() {
    let a = CurveOrderElement::from(3);
    let b = CurveOrderElement::from(5);
    let c = a.multiply(&b);
    assert_eq!(BIG::comp(&c.to_bignum(), &BIG::new_int(15)), 0);
    let m = CurveOrderElement::minus_one();
    let one = m.multiply(&m);
    assert_eq!(BIG::comp(&one.to_bignum(), &BIG::new_int(1)), 0);
    let mut order_minus_one = curve_order();
    order_minus_one.dec(1);
    order_minus_one.norm();
    assert_eq!(BIG::comp(&m.to_bignum(), &order_minus_one), 0);
    assert!(CurveOrderElement::zero().is_zero());
    assert!(CurveOrderElement::new().is_zero());
    assert!(!CurveOrderElement::one().is_zero());
    assert!(BIG::comp(&CurveOrderElement::random().to_bignum(), &curve_order()) < 0);
}

#[test]
fn decoding_errors() {
    assert_eq!(G1::from_slice(&[0u8; 64]).err(), Some(SerzDeserzError::G1BytesIncorrectSize(64, 65)));
    assert_eq!(G2::from_slice(&[0u8; 127]).err(), Some(SerzDeserzError::G2BytesIncorrectSize(127, 128)));
    assert!(GT::from_bytes(&[0u8; 383]).is_err());
    let mut short = [0u8; 10];
    assert_eq!(G1::random().write_to_slice(&mut short), Err(SerzDeserzError::G1BytesIncorrectSize(10, 65)));
    assert_eq!(short, [0u8; 10]);
}

#[test]
fn group_operations() {
    let a = G1::random();
    assert!(G1::identity().is_identity());
    assert!(G1::new().is_identity());
    assert!(!a.is_identity());
    assert!(!G1::generator().is_identity());
    assert_eq!(a.double(), a.plus(&a));
    assert_eq!(a.minus(&a), G1::identity());
    assert_eq!(a.plus(&G1::identity()), a);
    assert!(a.has_correct_order());
    let b = G2::random();
    assert_eq!(b.double(), b.plus(&b));
    assert!(b.minus(&b).is_identity());
    let multiples = a.get_multiples(4);
    assert_eq!(multiples.len(), 4);
    assert_eq!(multiples[3], a.scalar_mul_const_time(&CurveOrderElement::from(4)));
}

#[test]
fn vector_operations() {
    let v = G1Vector::random(4);
    let w = G1Vector::random(4);
    let short = G1Vector::random(3);
    assert_eq!(v.len(), 4);
    let s = v.sum();
    assert_eq!(s, v.as_slice()[0].plus(&v.as_slice()[1]).plus(&v.as_slice()[2]).plus(&v.as_slice()[3]));
    assert_eq!(GroupElementVector::plus(&v, &short).err(), Some(ValueError::UnequalSizeVectors(4, 3)));
    assert_eq!(GroupElementVector::minus(&v, &short).err(), Some(ValueError::UnequalSizeVectors(4, 3)));
    let h = v.hadamard_product(&w).unwrap();
    let d = GroupElementVector::minus(&h, &w).unwrap();
    for i in 0..4 {
        assert_eq!(h.as_slice()[i], v.as_slice()[i].plus(&w.as_slice()[i]));
        assert_eq!(d.as_slice()[i], h.as_slice()[i].minus(&w.as_slice()[i]));
    }
    let (l, r) = v.split_at(1);
    assert_eq!(l.len(), 1);
    assert_eq!(r.len(), 3);
    assert_eq!(r.as_slice()[0], v.as_slice()[1]);
    let zeros = G1Vector::new(2);
    assert!(zeros.as_slice()[0].is_identity());
    let mut u = G1Vector::with_capacity(2);
    u.push(v.as_slice()[0]);
    u.push(v.as_slice()[1]);
    u.insert(0, v.as_slice()[2]);
    assert_eq!(u.remove(1), v.as_slice()[0]);
    assert_eq!(u.pop(), Some(v.as_slice()[1]));
    assert_eq!(u.len(), 1);
    let k = CurveOrderElement::from(3);
    let mut scaled = G1Vector::from_slice(v.as_slice());
    scaled.scale(&k);
    assert_eq!(scaled.as_slice()[2], v.as_slice()[2].scalar_mul_const_time(&k));
    let fs: Vec<CurveOrderElement> = (0..4).map(|_| CurveOrderElement::random()).collect();
    assert_eq!(v.inner_product_const_time(&fs).unwrap(), v.inner_product_var_time(&fs).unwrap());
    assert_eq!(v.multi_scalar_mul_const_time(&fs).unwrap(), v.multi_scalar_mul_const_time_naive(&fs).unwrap());
}

#[test]
fn malformed_hex_is_rejected() {
    let g = G1::random();
    let h = g.to_hex();
    // one field too few
    let mut fields: Vec<&str> = h.split_whitespace().collect();
    assert_eq!(fields.len(), 6);
    fields.pop();
    fields.pop();
    assert_eq!(G1::from_hex(fields.join(" ")), Err(SerzDeserzError::MalformedHex));
    // a stray token after the last field
    assert_eq!(G1::from_hex(format!("{} 7", h)), Err(SerzDeserzError::MalformedHex));
    // a character that is not a hexadecimal digit
    assert_eq!(G1::from_hex(h.replacen("0", "g", 1)).is_err(), h.contains('0'));
    // surrounding whitespace is accepted
    assert_eq!(G1::from_hex(format!("  {}\n", h)).unwrap(), g);
    assert_eq!(G1::from_hex(String::new()), Err(SerzDeserzError::MalformedHex));
    assert_eq!(G2::from_hex(h.clone()), Err(SerzDeserzError::MalformedHex));
    assert!(GT::from_hex(h).is_err());
    let small = "1 A 2 b 3 0C";
    assert!(G1::from_hex(small.to_string()).is_ok());
    // excesses outside [1, 2^26): zero, negative, leading zero, too large
    assert_eq!(G1::from_hex("0 0 0 0 0 0".to_string()), Err(SerzDeserzError::MalformedHex));
    assert!(G1::from_hex("1 A 2 b -3 0C".to_string()).is_err());
    assert!(G1::from_hex("1 A 2 b 03 0C".to_string()).is_err());
    assert!(G1::from_hex("1 A 2 b 67108864 0C".to_string()).is_err());
    assert!(G1::from_hex("1 A 2 b 67108863 0C".to_string()).is_ok());
    // a value of sixty-five hexadecimal digits
    let long = format!("1 {} 1 1 1 1", "1".repeat(65));
    assert!(G1::from_hex(long).is_err());
    let longest = format!("1 {} 1 1 1 1", "1".repeat(64));
    assert!(G1::from_hex(longest).is_ok());
}

#[test]
fn fp4_text_round_trip() {
    let e = GT::random();
    let h = e.to_hex();
    let tokens: Vec<&str> = h.split_whitespace().collect();
    assert_eq!(tokens.len(), 24);
    let first = tokens[0..8].join(" ");
    let f = amcl_wrapper::extension_field_gt::parse_hex_as_FP4(&first).unwrap();
    assert_eq!(f.to_hex(), first);
    assert_eq!(
        amcl_wrapper::extension_field_gt::parse_hex_as_FP4(&tokens[0..6].join(" ")).err(),
        Some(SerzDeserzError::MalformedHex)
    );
}

fn hex_of(b: &[u8]) -> String {
    b.iter().map(|x| format!("{:02x}", x)).collect()
}

#[test]
fn hash_msg_known_answers() {
    assert_eq!(
        hex_of(&amcl_wrapper::utils::hash_msg(b"abc")),
        "483366601360a8771c6863080cc4114d8db44530f8f1e1ee4f94ea37e78b5739"
    );
    assert_eq!(
        hex_of(&amcl_wrapper::utils::hash_msg(b"")),
        "46b9dd2b0ba88d13233b3feb743eeb243fcd52ea62b81b82b50c27646ed5762f"
    );
}

#[test]
fn barrett_reduction_small_modulus_with_large_estimate_error() {
    // modulus 57 (six bits), where x - q3 * m reaches beyond 2^(k+1)
    let m = BIG::new_int(57);
    let (k, u, v) = barrett_reduction_params(&m);
    assert_eq!(k, 6);
    assert_eq!(BIG::comp(&u, &BIG::new_int(71)), 0);
    assert_eq!(BIG::comp(&v, &BIG::new_int(128)), 0);
    for x in [4061isize, 0, 56, 57, 4095, 1234] {
        let mut d = DBIG::new();
        d.w[0] = x as i64;
        let r = barrett_reduction(&d, &m, k, &u, &v);
        assert_eq!(BIG::comp(&r, &BIG::new_int(x % 57)), 0);
        let r = amcl_wrapper::utils::__barrett_reduction__(&BIG::new_int(x), &m, k, &u, &v);
        assert_eq!(BIG::comp(&r, &BIG::new_int(x % 57)), 0);
    }
}

#[test]
fn gt_from_extension_field_value() {
    let e = GT::random();
    let f = e.to_fp12();
    assert!(GT::from_fp12(f) == e);
}

#[test]
fn random_from_given_generator() {
    let mut rng = amcl_wrapper::utils::get_rand(&[7u8; 64]);
    let a: G1 = amcl_wrapper::group_elem::random_using_rng(&mut rng);
    let b: G1 = amcl_wrapper::group_elem::random_using_rng(&mut rng);
    assert!(a.has_correct_order());
    assert_ne!(a, b);
    let mut rng2 = amcl_wrapper::utils::get_rand(&[7u8; 64]);
    let a2: G1 = amcl_wrapper::group_elem::random_using_rng(&mut rng2);
    assert_eq!(a, a2);
}
