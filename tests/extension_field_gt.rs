use amcl_wrapper::curve_order_elem::FieldElement;
use amcl_wrapper::extension_field_gt::GT;
use amcl_wrapper::group_elem::GroupElement;
use amcl_wrapper::group_elem_g1::G1;
use amcl_wrapper::group_elem_g2::G2;
use std::time::Instant;

#[test]
fn test_unity() {
    let one = GT::one();
    assert!(one.is_one());
}

#[test]
fn test_inverse() {
    let minus_one = FieldElement::minus_one();
    for _ in 0..10 {
        let g1 = G1::random();
        let g2 = G2::random();
        let e = GT::ate_pairing(&g1, &g2);
        let e_inv = e.inverse();
        assert!(GT::mul(&e, &e_inv).is_one());

        assert!(GT::pow(&e, &minus_one) == e_inv);
        assert!(GT::pow(&e_inv, &minus_one) == e);
    }
}

#[test]
fn test_ate_pairing_identity() {
    let g1 = G1::random();
    let g2 = G2::random();
    let g1_identity = G1::identity();
    let g2_identity = G2::identity();

    // e(g1 + identity, g2) == e(g1, g2)*e(identity, g2)
    let lhs = GT::ate_pairing(&g1.plus(&g1_identity), &g2);
    let rhs = GT::mul(&GT::ate_pairing(&g1, &g2), &GT::ate_pairing(&g1_identity, &g2));
    assert!(lhs == rhs);

    // e(g1, g2 + identity) == e(g1, g2)*e(g1, identity)
    let lhs = GT::ate_pairing(&g1, &g2.plus(&g2_identity));
    let rhs = GT::mul(&GT::ate_pairing(&g1, &g2), &GT::ate_pairing(&g1, &g2_identity));
    assert!(lhs == rhs);

    let h1 = G1::random();
    let h2 = G2::random();

    // e(g1, g2)*e(identity, h2) == e(g1, g2)
    let lhs = GT::mul(&GT::ate_pairing(&g1, &g2), &GT::ate_pairing(&g1_identity, &h2));
    let rhs = GT::ate_pairing(&g1, &g2);
    assert!(lhs == rhs);

    // e(identity, g2)*e(h1, h2) == e(h1, h2)
    let lhs = GT::mul(&GT::ate_pairing(&g1_identity, &g2), &GT::ate_pairing(&h1, &h2));
    let rhs = GT::ate_pairing(&h1, &h2);
    assert!(lhs == rhs);

    assert!(GT::ate_pairing(&g1_identity, &g2_identity).is_one());

    // 2-pairing
    assert!(GT::ate_2_pairing(&g1, &g2, &g1_identity, &h2) == GT::ate_pairing(&g1, &g2));
    assert!(GT::ate_2_pairing(&g1, &g2, &h1, &g2_identity) == GT::ate_pairing(&g1, &g2));
    assert!(GT::ate_2_pairing(&g1_identity, &g2, &h1, &h2) == GT::ate_pairing(&h1, &h2));
    assert!(GT::ate_2_pairing(&g1, &g2_identity, &h1, &h2) == GT::ate_pairing(&h1, &h2));
    assert!(GT::ate_2_pairing(&g1_identity, &g2_identity, &g1_identity, &g2_identity).is_one());

    let k1 = G1::random();
    let k2 = G2::random();

    // multi-pairing
    assert!(
        GT::ate_multi_pairing(vec![(&g1, &g2), (&h1, &h2), (&g1_identity, &k2)])
            == GT::ate_multi_pairing(vec![(&g1, &g2), (&h1, &h2)])
    );

    assert!(
        GT::ate_multi_pairing(vec![(&g1, &g2), (&h1, &h2), (&k1, &g2_identity)])
            == GT::ate_multi_pairing(vec![(&g1, &g2), (&h1, &h2)])
    );

    assert!(
        GT::ate_multi_pairing(vec![(&g1, &g2), (&g1_identity, &h2), (&k1, &k2)])
            == GT::ate_multi_pairing(vec![(&g1, &g2), (&k1, &k2)])
    );

    assert!(
        GT::ate_multi_pairing(vec![(&g1, &g2), (&g1_identity, &h2), (&k1, &k2)])
            == GT::ate_multi_pairing(vec![(&g1, &g2), (&k1, &k2)])
    );

    assert!(GT::ate_multi_pairing(vec![
        (&g1_identity, &g2_identity),
        (&g1_identity, &g2_identity),
        (&g1_identity, &g2_identity)
    ])
    .is_one());
}

#[test]
fn test_ate_pairing_negative() {
    let g1 = G1::random();
    let g2 = G2::random();
    let g1_neg = g1.negation();
    let g2_neg = g2.negation();

    // e(g1, -g2) == e(-g1, g2)
    let lhs = GT::ate_pairing(&g1, &g2_neg);
    let rhs = GT::ate_pairing(&g1_neg, &g2);
    assert!(lhs == rhs);

    // e(g1, -g2) == e(-g1, g2) == e(g1, g2)^-1
    let e = GT::ate_pairing(&g1, &g2);
    let e_inv = e.inverse();
    assert!(lhs == e_inv);

    let p = GT::ate_pairing(&g1, &g2);

    // e(g1, g2) = e(-g1, g2)^-1 => e(g1, g2) * e(-g1, g2) == 1
    assert!(GT::mul(&p, &lhs) == GT::one());

    // e(g1, g2) = e(g1, -g2)^-1 => e(g1, g2) * e(g1, -g2) == 1
    assert!(GT::mul(&p, &rhs) == GT::one());
}

#[test]
fn test_ate_pairing() {
    let g1 = G1::random();
    let h1 = G1::random();
    let g2 = G2::random();
    let h2 = G2::random();

    // e(g1 + h1, g2) == e(g1, g2)*e(h1, g2)
    let lhs = GT::ate_pairing(&g1.plus(&h1), &g2);
    let rhs = GT::mul(&GT::ate_pairing(&g1, &g2), &GT::ate_pairing(&h1, &g2));
    let rhs_1 = GT::ate_2_pairing(&g1, &g2, &h1, &g2);
    let rhs_2 = GT::ate_multi_pairing(vec![(&g1, &g2), (&h1, &g2)]);
    assert!(lhs == rhs);
    assert!(rhs_1 == rhs);
    assert!(rhs_2 == rhs);

    // e(g1, g2+h2) == e(g1, g2)*e(g1, h2)
    let lhs = GT::ate_pairing(&g1, &g2.plus(&h2));
    let rhs = GT::mul(&GT::ate_pairing(&g1, &g2), &GT::ate_pairing(&g1, &h2));
    let rhs_1 = GT::ate_2_pairing(&g1, &g2, &g1, &h2);
    let rhs_2 = GT::ate_multi_pairing(vec![(&g1, &g2), (&g1, &h2)]);
    assert!(lhs == rhs);
    assert!(rhs_1 == rhs);
    assert!(rhs_2 == rhs);

    let r = FieldElement::random();
    // e(g1, g2^r) == e(g1^r, g2) == e(g1, g2)^r
    let p1 = GT::ate_pairing(&g1, &g2.scalar_mul_const_time(&r));
    let p2 = GT::ate_pairing(&g1.scalar_mul_const_time(&r), &g2);
    let mut p = GT::ate_pairing(&g1, &g2);
    p = p.pow(&r);
    assert!(p1 == p2);
    assert!(p1 == p);
}

#[test]
fn timing_ate_multi_pairing() {
    let count = 10;
    let g1_vec = (0..count).map(|_| G1::random()).collect::<Vec<G1>>();
    let g2_vec = (0..count).map(|_| G2::random()).collect::<Vec<G2>>();
    let mut tuple_vec = vec![];

    let start = Instant::now();
    let mut accum = GT::ate_pairing(&g1_vec[0], &g2_vec[0]);
    tuple_vec.push((&g1_vec[0], &g2_vec[0]));
    for i in 1..count {
        let e = GT::ate_pairing(&g1_vec[i], &g2_vec[i]);
        accum = GT::mul(&accum, &e);
        tuple_vec.push((&g1_vec[i], &g2_vec[i]));
    }
    println!("Time to compute {} pairings naively is {:?}", count, start.elapsed());

    let start = Instant::now();
    let accum_multi = GT::ate_multi_pairing(tuple_vec);
    println!("Time to compute {} pairings using multi-pairings is {:?}", count, start.elapsed());
    assert!(accum == accum_multi);
}

#[test]
fn timing_pairing_pow() {
    // Compare cost of e(g1, g2)^r with e(g1^r, g2) and e(g1, g2^r)
    let count = 10;
    let g1_vec = (0..count).map(|_| G1::random()).collect::<Vec<G1>>();
    let g2_vec = (0..count).map(|_| G2::random()).collect::<Vec<G2>>();
    let r_vec = (0..count).map(|_| FieldElement::random()).collect::<Vec<FieldElement>>();

    // e(g1, g2)^r
    let mut pairing_exp = vec![];

    // e(g1^r, g2)
    let mut g1_exp = vec![];

    // e(g1, g2^r)
    let mut g2_exp = vec![];

    let start = Instant::now();
    for i in 0..count {
        pairing_exp.push(GT::pow(&GT::ate_pairing(&g1_vec[i], &g2_vec[i]), &r_vec[i]));
    }
    println!("Time to compute {} pairing and then exponentiation is {:?}", count, start.elapsed());

    let start = Instant::now();
    for i in 0..count {
        g1_exp.push(GT::ate_pairing(&g1_vec[i].scalar_mul_const_time(&r_vec[i]), &g2_vec[i]));
    }
    println!("Time to compute {} pairing after exponentiation in G1 is {:?}", count, start.elapsed());

    let start = Instant::now();
    for i in 0..count {
        g2_exp.push(GT::ate_pairing(&g1_vec[i], &g2_vec[i].scalar_mul_const_time(&r_vec[i])));
    }
    println!("Time to compute {} pairing after exponentiation in G2 is {:?}", count, start.elapsed());

    for i in 0..count {
        assert!(pairing_exp[i] == g1_exp[i]);
        assert!(pairing_exp[i] == g2_exp[i]);
    }
}
