use groth16::curve::pairing;
use groth16::curve::Group;
use groth16::curve::G1;
use groth16::curve::G2;
use groth16::field::Scalar;

#[test]
fn g1_operations_agree() {
    let two = G1::generator_times(&Scalar::from(2));
    let three = G1::generator_times(&Scalar::from(3));
    let five = G1::generator_times(&Scalar::from(5));
    let six = G1::generator_times(&Scalar::from(6));
    assert_ne!(two, three);
    assert_eq!(two.plus(&three), five);
    assert_eq!(five.minus(&three), two);
    assert_eq!(two.times(&Scalar::from(3)), six);
    assert_ne!(two.times(&Scalar::from(3)), two);
    let copy = two;
    assert_eq!(copy, two);
    assert_eq!(two.clone(), two);
}

#[test]
fn g2_operations_agree() {
    let two = G2::generator_times(&Scalar::from(2));
    let three = G2::generator_times(&Scalar::from(3));
    let five = G2::generator_times(&Scalar::from(5));
    let six = G2::generator_times(&Scalar::from(6));
    assert_ne!(two, three);
    assert_eq!(two.plus(&three), five);
    assert_eq!(two.times(&Scalar::from(3)), six);
    assert_eq!(two.clone(), two);
}

#[test]
fn pairing_is_bilinear() {
    let g = G1::generator_times(&Scalar::one());
    let h = G2::generator_times(&Scalar::one());
    let e = pairing(&g, &h).unwrap();
    let e2 = pairing(&g.times(&Scalar::from(2)), &h).unwrap();
    let e6a = pairing(&g.times(&Scalar::from(2)), &h.times(&Scalar::from(3))).unwrap();
    let e6b = pairing(&g.times(&Scalar::from(6)), &h).unwrap();
    assert!(e6a.same(&e6b));
    assert!(!e.same(&e2));
    assert!(e.plus(&e).same(&e2));
    assert_eq!(e.plus(&e), e2);
    assert_eq!(e.clone(), e);
}

#[test]
fn pairing_with_the_identity() {
    let g = G1::generator_times(&Scalar::one());
    let h = G2::generator_times(&Scalar::one());
    let zero1 = G1::generator_times(&Scalar::zero());
    let zero2 = G2::generator_times(&Scalar::zero());
    let e = pairing(&g, &h).unwrap();
    // the identity of the first group pairs to the neutral element
    assert_eq!(e.plus(&pairing(&zero1, &h).unwrap()), e);
    // for the identity of the second group the final exponentiation is not defined
    assert_eq!(pairing(&g, &zero2), None);
}
