use groth16::circuits::R1CS;
use groth16::field::Scalar;
use groth16::integers::Integer;
use groth16::polynomial::Polynomial;

#[test]
fn unsigned_integers_stand_for_themselves() {
    assert_eq!(7u8.to_scalar(), Scalar::from_u64(7));
    assert_eq!(u8::MAX.to_scalar(), Scalar::from_u64(255));
    assert_eq!(u16::MAX.to_scalar(), Scalar::from_u64(65535));
    assert_eq!(u32::MAX.to_scalar(), Scalar::from_u64(4294967295));
    assert_eq!(u64::MAX.to_scalar(), Scalar::from_u64(u64::MAX));
    assert_eq!(u128::MAX.to_scalar(), Scalar::from_u128(u128::MAX));
    let mut limbs = [0u64; 12];
    limbs[0] = u64::MAX;
    limbs[1] = u64::MAX;
    assert_eq!(u128::MAX.to_scalar().to_limbs(), limbs);
    assert_eq!(0u64.to_scalar(), Scalar::zero());
}

#[test]
fn signed_integers_stand_for_their_residues() {
    let zero = Scalar::zero();
    assert_eq!(5i8.to_scalar(), Scalar::from_u64(5));
    assert_eq!((-5i8).to_scalar(), zero.minus(&Scalar::from_u64(5)));
    assert_eq!(i8::MIN.to_scalar(), zero.minus(&Scalar::from_u64(128)));
    assert_eq!(i16::MIN.to_scalar(), zero.minus(&Scalar::from_u64(32768)));
    assert_eq!(i32::MIN.to_scalar(), zero.minus(&Scalar::from_u64(2147483648)));
    assert_eq!(i32::MAX.to_scalar(), Scalar::from_u64(2147483647));
    assert_eq!(i64::MIN.to_scalar(), zero.minus(&Scalar::from_u64(1 << 63)));
    assert_eq!(i64::MAX.to_scalar(), Scalar::from_u64(i64::MAX as u64));
    assert_eq!(i128::MIN.to_scalar(), zero.minus(&Scalar::from_u128(1 << 127)));
    assert_eq!(i128::MAX.to_scalar(), Scalar::from_u128(i128::MAX as u128));
    assert_eq!((-1i128).to_scalar(), Scalar::from(-1));
    assert_eq!((-1i64).to_scalar().plus(&Scalar::one()), zero);
    assert_eq!(Scalar::from_i128(-3), Scalar::from(-3));
}

#[test]
fn polynomials_are_made_from_any_integer_type() {
    let expected = Polynomial::new(vec![
        Scalar::from_u64(3),
        Scalar::from_u64(0),
        Scalar::from_u64(200),
    ]);
    assert_eq!(Polynomial::from(vec![3u8, 0, 200]), expected);
    assert_eq!(Polynomial::from(vec![3u16, 0, 200]), expected);
    assert_eq!(Polynomial::from(vec![3u32, 0, 200]), expected);
    assert_eq!(Polynomial::from(vec![3u64, 0, 200]), expected);
    assert_eq!(Polynomial::from(vec![3u128, 0, 200]), expected);
    assert_eq!(Polynomial::from(vec![3i16, 0, 200]), expected);
    assert_eq!(Polynomial::from(vec![3i64, 0, 200]), expected);
    assert_eq!(Polynomial::from(vec![3i128, 0, 200]), expected);
    assert_eq!(Polynomial::from(vec![3, 0, 200]), expected);
    assert_eq!(Polynomial::from_ints(&vec![3i64, 0, 200]), expected);
    let negative = Polynomial::from(vec![-1i64, 2]);
    assert_eq!(negative, Polynomial::from(vec![-1, 2]));
    assert_eq!(negative.coefficients()[0], Scalar::zero().minus(&Scalar::one()));
    assert_eq!(Polynomial::from(Vec::<u8>::new()), Polynomial::new(vec![]));
}

#[test]
fn constraint_systems_are_made_from_any_integer_type() {
    let by_default = R1CS::new(vec![vec![-1, 2]], vec![vec![0, 3]], vec![vec![4, 0]], vec![7]);
    let wide = R1CS::new(
        vec![vec![-1i64, 2]],
        vec![vec![0i64, 3]],
        vec![vec![4i64, 0]],
        vec![7u8],
    );
    assert_eq!(wide.L, by_default.L);
    assert_eq!(wide.R, by_default.R);
    assert_eq!(wide.O, by_default.O);
    assert_eq!(wide.public_witness, by_default.public_witness);
    let large = R1CS::new(
        vec![vec![u128::MAX]],
        vec![vec![1u128]],
        vec![vec![u128::MAX]],
        Vec::<i8>::new(),
    );
    assert_eq!(large.L[0][0], Scalar::from_u128(u128::MAX));
    assert_eq!(large.verify(&vec![Scalar::one()]), Ok(true));
    assert_eq!(large.verify(&vec![Scalar::from_u64(2)]), Ok(false));
}
