use circuit_sim::rat::Rat;

#[test]
fn from_int_and_accessors() {
    let r = Rat::from_int(7);
    assert_eq!(r.num(), 7);
    assert_eq!(r.den(), 1);
    let q = Rat::new(-3, 4);
    assert_eq!(q.num(), -3);
    assert_eq!(q.den(), 4);
}

#[test]
fn eqv_compares_values_not_representations() {
    assert!(Rat::new(1, 2).eqv(&Rat::new(2, 4)));
    assert!(Rat::new(-1, 2).eqv(&Rat::new(-2, 4)));
    assert!(!Rat::new(1, 2).eqv(&Rat::new(1, 3)));
    assert!(Rat::zero().eqv(&Rat::new(0, 17)));
}

#[test]
fn checked_add_is_exact() {
    let a = Rat::new(1, 2);
    let b = Rat::new(1, 3);
    let c = a.checked_add(&b).unwrap();
    assert!(c.eqv(&Rat::new(5, 6)));
}

#[test]
fn checked_add_reports_overflow() {
    let a = Rat::from_int(i64::MAX);
    assert!(a.checked_add(&a).is_none());
}

#[test]
fn checked_mul_is_exact() {
    let a = Rat::new(3, 4);
    let b = Rat::new(2, 9);
    let c = a.checked_mul(&b).unwrap();
    assert!(c.eqv(&Rat::new(1, 6)));
}

#[test]
fn checked_mul_reports_overflow() {
    let a = Rat::from_int(i64::MAX);
    assert!(a.checked_mul(&a).is_none());
}

#[test]
fn recip_swaps_numerator_and_denominator() {
    let a = Rat::new(3, 7);
    let r = a.recip();
    assert_eq!(r.num(), 7);
    assert_eq!(r.den(), 3);
}

#[test]
fn checked_div_is_exact() {
    let a = Rat::from_int(12);
    let b = Rat::new(330, 7);
    let c = a.checked_div(&b).unwrap();
    assert!(c.eqv(&Rat::new(14, 55)));
}

#[test]
fn sign_queries() {
    assert!(Rat::new(1, 5).is_positive());
    assert!(!Rat::zero().is_positive());
    assert!(!Rat::new(-1, 5).is_positive());
    assert!(Rat::zero().is_zero());
    assert!(!Rat::new(1, 5).is_zero());
}
