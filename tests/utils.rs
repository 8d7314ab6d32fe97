use amcl::bn254::big::BIG;
use amcl::bn254::fp::FP;
use amcl::bn254::rom;
use amcl_wrapper::curve_order_elem::CurveOrderElement;
use amcl_wrapper::utils::{__barrett_reduction__, barrett_reduction, barrett_reduction_params};
use rand::Rng;
use std::time::Instant;

fn curve_order() -> BIG {
    BIG::new_ints(&rom::CURVE_ORDER)
}

#[test]
fn timing_fp_big() {
    let curve_order = curve_order();
    let count = 100;
    let elems: Vec<_> = (0..count).map(|_| CurveOrderElement::random()).collect();
    let bigs: Vec<_> = elems.iter().map(|f| f.to_bignum()).collect();
    let fs: Vec<_> = bigs.iter().map(|b| FP::new_big(&b)).collect();
    let mut res_mul = BIG::new_int(1 as isize);
    let mut start = Instant::now();
    for b in &bigs {
        res_mul = BIG::modmul(&res_mul, &b, &curve_order);
    }
    println!("Multiplication time for {} BIGs = {:?}", count, start.elapsed());

    let mut res_mul = FP::new_int(1 as isize);
    start = Instant::now();
    for f in &fs {
        res_mul.mul(&f);
    }
    println!("Multiplication time for {} FPs = {:?}", count, start.elapsed());

    let res_mul = CurveOrderElement::one();
    start = Instant::now();
    for e in &elems {
        res_mul.multiply(&e);
    }
    println!("Multiplication time for {} FieldElements = {:?}", count, start.elapsed());

    let mut inverses_b: Vec<BIG> = vec![];
    let mut inverses_f: Vec<FP> = vec![];

    start = Instant::now();
    for b in &bigs {
        let mut i = b.clone();
        i.invmodp(&curve_order);
        inverses_b.push(i);
    }
    println!("Inverse time for {} BIGs = {:?}", count, start.elapsed());
    for i in 0..count {
        let r = BIG::modmul(&inverses_b[i], &bigs[i], &curve_order);
        assert_eq!(BIG::comp(&r, &BIG::new_int(1 as isize)), 0);
    }

    start = Instant::now();
    for f in &fs {
        let mut i = f.clone();
        i.inverse();
        inverses_f.push(i);
    }
    println!("Inverse time for {} FPs = {:?}", count, start.elapsed());
    for i in 0..count {
        let mut c = inverses_f[i].clone();
        c.mul(&fs[i]);
        assert!(c.equals(&mut FP::new_int(1 as isize)));
    }

    let c = 50;
    start = Instant::now();
    let mut r = bigs[0];
    for i in 0..c {
        r.add(&bigs[i]);
        r.rmod(&curve_order);
    }
    println!("Addition time for {} BIGs = {:?}", c, start.elapsed());

    let mut r1 = fs[0];
    start = Instant::now();
    for i in 0..c {
        r1.add(&fs[i]);
    }
    println!("Addition time for {} FPs = {:?}", c, start.elapsed());
}

#[test]
fn timing_barrett_reduction() {
    let curve_order = curve_order();
    let (k, u, v) = barrett_reduction_params(&curve_order);
    let mut xs = vec![];
    let mut reduced1 = vec![];
    let mut reduced2 = vec![];
    let mut rng = rand::thread_rng();
    let count = 1000;
    for _ in 0..count {
        let a: u32 = rng.gen();
        let s = BIG::new_int(a as isize);
        let mut x = curve_order.minus(&s);
        x.norm();
        xs.push(BIG::mul(&x, &x));
    }

    let mut start = Instant::now();
    for x in &xs {
        let r = barrett_reduction(&x, &curve_order, k, &u, &v);
        reduced1.push(r);
    }
    println!("Barrett time = {:?}", start.elapsed());

    start = Instant::now();
    for x in &xs {
        let mut y = amcl::bn254::dbig::DBIG::new_copy(x);
        let z = y.dmod(&curve_order);
        reduced2.push(z);
    }
    println!("Normal time = {:?}", start.elapsed());

    for i in 0..count {
        assert_eq!(BIG::comp(&reduced1[i], &reduced2[i]), 0);
    }
}

#[test]
fn timing_rmod_with_barrett_reduction() {
    let curve_order = curve_order();
    let (k, u, v) = barrett_reduction_params(&curve_order);
    let count = 100;
    let elems: Vec<_> = (0..count).map(|_| CurveOrderElement::random()).collect();
    let bigs: Vec<_> = elems.iter().map(|f| f.to_bignum()).collect();

    let mut sum = bigs[0].clone();
    let mut start = Instant::now();
    for i in 0..count {
        sum = BIG::plus(&sum, &bigs[i]);
        sum.rmod(&curve_order)
    }
    println!("rmod time = {:?}", start.elapsed());

    let mut sum_b = bigs[0].clone();
    start = Instant::now();
    for i in 0..count {
        sum_b = BIG::plus(&sum_b, &bigs[i]);
        sum_b.norm();
        sum_b = __barrett_reduction__(&sum_b, &curve_order, k, &u, &v)
    }
    println!("Barrett time = {:?}", start.elapsed());

    assert_eq!(BIG::comp(&sum, &sum_b), 0)
}
