use groth16::error::Error;
use groth16::error::Operation;
use groth16::field::Scalar;
use groth16::polynomial::Polynomial;
use groth16::curve::G1;
use rand::Rng;
use rand::RngCore;

type Field = Scalar;

#[test]
fn polynomial_add() {
    let a = Polynomial::new(vec![Field::from(1), Field::from(3), Field::from(5)]);
    let b = Polynomial::new(vec![Field::from(0), Field::from(10), Field::from(2)]);
    let c = Polynomial::new(vec![Field::from(1), Field::from(13), Field::from(7)]);
    assert_eq!(a + b, c);
}

#[test]
fn polynomial_add_different_order() {
    let a = Polynomial::new(vec![Field::from(1), Field::from(3), Field::from(5)]);
    let b = Polynomial::new(vec![Field::from(10), Field::from(2)]);
    let c = Polynomial::new(vec![Field::from(11), Field::from(5), Field::from(5)]);
    assert_eq!(a + b, c);

    let a = Polynomial::new(vec![]);
    let b = Polynomial::from(vec![0, 0, 10]);
    assert_eq!(&a + &b, b);
}

#[test]
fn polynomial_mult() {
    let a = Polynomial::new(vec![Field::from(1), Field::from(3), Field::from(5)]);
    let b = Polynomial::new(vec![Field::from(10), Field::from(2)]);
    let c = Polynomial::new(vec![
        Field::from(10),
        Field::from(32),
        Field::from(56),
        Field::from(10),
    ]);
    assert_eq!(a * b, c);

    let a: Polynomial = Polynomial::from(vec![-3, 1]);
    let b: Polynomial = Polynomial::from(vec![-4, 1]);
    let c: Polynomial = Polynomial::from(vec![12, -7, 1]);
    assert_eq!(a * b, c);
}

#[test]
fn polynomial_interpolation() {
    let mut rng = rand::rng();
    let length: usize = rng.random_range(1..30);
    let vec: Vec<Field> = (1..length + 1)
        .map(|_| {
            let mut bytes = [0u8; 32];
            rng.fill_bytes(&mut bytes);
            Field::from_random_bytes(&bytes).unwrap()
        })
        .collect();
    assert_eq!(vec.len(), length);
    let poly = Polynomial::interpolate_from_vector(&vec);
    assert_eq!(poly.degree(), length - 1);
    let out: Vec<Field> = (1..length + 1)
        .map(|x| poly.evaluate(&Field::from(x as u128)))
        .collect();

    println!("Poly: {:?}", poly);
    assert_eq!(vec, out);
}

#[test]
fn polynomial_evaluation() {
    let poly = Polynomial::from(vec![3, 2, 4]);
    let out = poly.evaluate(&Field::from(3));
    assert_eq!(out, Field::from(45))
}

#[test]
fn polynomial_division() -> Result<(), Error> {
    let a: Polynomial = Polynomial::from(vec![3, 5, 10]);
    let b = Polynomial::from(vec![3, 5, 10]);
    let c = &a * &b;
    assert_eq!((c / b)?, a);
    Ok(())
}

#[test]
fn polynomial_sub() {
    let a = Polynomial::from(vec![1, 3, 5]);
    let b = Polynomial::from(vec![10, 2]);
    assert_eq!(&a - &b, Polynomial::from(vec![-9, 1, 5]));
    assert_eq!(&b - &a, Polynomial::from(vec![9, -1, -5]));
    let empty = Polynomial::new(vec![]);
    assert_eq!(&a - &empty, a);
}

#[test]
fn polynomial_scalar_operations() {
    let a = Polynomial::from(vec![2, 4, 6]);
    assert_eq!(&a * Field::from(3), Polynomial::from(vec![6, 12, 18]));
    assert_eq!(&a / Field::from(2), Polynomial::from(vec![1, 2, 3]));
    assert_eq!(a.scale(&Field::from(0)), Polynomial::from(vec![0, 0, 0]));
}

#[test]
fn polynomial_mul_cuts_trailing_zeros() {
    let a = Polynomial::from(vec![1, 2, 0, 0]);
    let b = Polynomial::from(vec![3, 0]);
    assert_eq!(&a * &b, Polynomial::from(vec![3, 6]));
    let zero = Polynomial::from(vec![0, 0]);
    assert_eq!(&a * &zero, Polynomial::new(vec![]));
    let empty = Polynomial::new(vec![]);
    assert_eq!(&empty * &a, Polynomial::new(vec![]));
    let one = Polynomial::from(vec![1]);
    assert_eq!((&a * &one).degree(), 1);
}

#[test]
fn polynomial_degree_and_zero() {
    assert_eq!(Polynomial::new(vec![]).degree(), 0);
    assert_eq!(Polynomial::from(vec![7]).degree(), 0);
    assert_eq!(Polynomial::from(vec![7, 0, 0]).degree(), 2);
    assert!(Polynomial::new(vec![]).is_zero());
    assert!(Polynomial::from(vec![0, 0]).is_zero());
    assert!(!Polynomial::from(vec![0, 1]).is_zero());
    assert_eq!(Polynomial::new(vec![]).evaluate(&Field::from(9)), Field::zero());
}

#[test]
fn polynomial_lead() {
    let a = Polynomial::from(vec![1, 2, 3]);
    assert_eq!(a.lead(), Polynomial::from(vec![0, 0, 3]));
    assert!(!a.is_lead());
    assert!(a.lead().is_lead());
    assert!(Polynomial::new(vec![]).is_lead());
    assert!(Polynomial::from(vec![5]).is_lead());
    assert!(!Polynomial::from(vec![5, 0]).is_lead());
    assert_eq!(Polynomial::new(vec![]).lead(), Polynomial::new(vec![]));
}

#[test]
fn polynomial_division_by_zero() {
    let a = Polynomial::from(vec![1, 2]);
    let zero = Polynomial::from(vec![0, 0]);
    let empty = Polynomial::new(vec![]);
    assert_eq!(a.clone() / zero, Err(Error::DivisionByZero));
    assert_eq!(a.clone() / empty.clone(), Err(Error::DivisionByZero));
    assert_eq!(empty.clone() / empty, Err(Error::DivisionByZero));
    // a divisor that ends in zero has no leading coefficient to divide by
    let in_step = Polynomial::from(vec![1, 2, 3]) / Polynomial::from(vec![1, 0]);
    assert_eq!(in_step, Err(Error::DivisionByZero.within(Operation::DividingLead)));
    let in_step = in_step.unwrap_err();
    assert_eq!(in_step.message(), "Dividing lead");
    assert_eq!(in_step.root(), &Error::DivisionByZero);
    assert_eq!(
        Polynomial::from(vec![1]) / Polynomial::from(vec![1, 0]),
        Err(Error::NonZeroRemainder { remainder: Polynomial::from(vec![1]) })
    );
}

#[test]
fn polynomial_division_of_zero() {
    let b = Polynomial::from(vec![1, 2]);
    assert_eq!(Polynomial::from(vec![0, 0, 0]) / b.clone(), Ok(Polynomial::new(vec![])));
    assert_eq!(Polynomial::new(vec![]) / b, Ok(Polynomial::new(vec![])));
}

#[test]
fn polynomial_division_with_remainder() {
    // x^2 + 1 = (x + 1)(x - 1) + 2
    let a = Polynomial::from(vec![1, 0, 1]);
    let b = Polynomial::from(vec![1, 1]);
    assert_eq!(a / b, Err(Error::NonZeroRemainder { remainder: Polynomial::from(vec![2]) }));
    // a dividend of lower degree is its own remainder
    let a = Polynomial::from(vec![5]);
    let b = Polynomial::from(vec![1, 1]);
    assert_eq!(a.clone() / b, Err(Error::NonZeroRemainder { remainder: a }));
}

#[test]
fn polynomial_division_of_monomials() {
    // 6 x^3 / 2 x = 3 x^2
    let a = Polynomial::from(vec![0, 0, 0, 6]);
    let b = Polynomial::from(vec![0, 2]);
    assert_eq!(a / b, Ok(Polynomial::from(vec![0, 0, 3])));
}

#[test]
fn polynomial_division_undoes_multiplication() {
    let p = Polynomial::from(vec![7, 0, -3, 1]);
    let q = Polynomial::from(vec![-2, 5, 1]);
    assert_eq!((&p * &q) / q.clone(), Ok(p.clone()));
    assert_eq!((&p * &q) / p.clone(), Ok(q.clone()));
    // trailing zeros of the first factor are not recovered
    let padded = Polynomial::from(vec![7, 0, -3, 1, 0]);
    assert_eq!((&padded * &q) / q, Ok(p));
}

#[test]
fn polynomial_addition_is_associative() {
    let p = Polynomial::from(vec![1, 2, 3]);
    let q = Polynomial::from(vec![-4, 5]);
    let r = Polynomial::from(vec![9, 0, 0, 7]);
    assert_eq!(&(&p + &q) + &r, &p + &(&q + &r));
    assert_eq!(&(&p + &q) + &r, Polynomial::from(vec![6, 7, 3, 7]));
}

#[test]
fn polynomial_multiplication_is_associative() {
    let p = Polynomial::from(vec![1, 2, 3]);
    let q = Polynomial::from(vec![-4, 5]);
    let r = Polynomial::from(vec![9, 0, 0, 7]);
    assert_eq!(&(&p * &q) * &r, &p * &(&q * &r));
    // (1 + 2x + 3x^2)(-4 + 5x) = -4 - 3x - 2x^2 + 15x^3
    assert_eq!(&p * &q, Polynomial::from(vec![-4, -3, -2, 15]));
}

#[test]
fn polynomial_multiplication_distributes() {
    let a = Polynomial::from(vec![1, 2, 3]);
    let b = Polynomial::from(vec![-4, 5]);
    let c = Polynomial::from(vec![9, 0, 7]);
    assert_eq!(&(&a + &b) * &c, &(&a * &c) + &(&b * &c));
}

#[test]
fn polynomial_sum_of_many() {
    let terms = vec![
        Polynomial::from(vec![1]),
        Polynomial::from(vec![0, 2]),
        Polynomial::from(vec![0, 0, 3]),
    ];
    assert_eq!(Polynomial::sum(&terms), Polynomial::from(vec![1, 2, 3]));
    assert_eq!(Polynomial::sum(&Vec::new()), Polynomial::new(vec![]));
}

#[test]
fn interpolation_of_known_polynomials() {
    // the squares are the values of x^2
    let squares: Vec<Field> = [1, 4, 9].iter().map(|x| Field::from(*x)).collect();
    assert_eq!(Polynomial::interpolate_from_vector(&squares), Polynomial::from(vec![0, 0, 1]));
    // a single value is a constant
    assert_eq!(Polynomial::interpolate_from_vector(&vec![Field::from(9)]), Polynomial::from(vec![9]));
    // no value, no coefficient
    assert_eq!(Polynomial::interpolate_from_vector(&Vec::new()), Polynomial::new(vec![]));
    // (1, 1), (2, 0), (3, 0): (x - 2)(x - 3) / 2
    let unit: Vec<Field> = [1, 0, 0].iter().map(|x| Field::from(*x)).collect();
    let basis = Polynomial::interpolate_from_vector(&unit);
    assert_eq!(basis.scale(&Field::from(2)), Polynomial::from(vec![6, -5, 1]));
    assert_eq!(Polynomial::lagrange_basis(0, 3), basis);
}

#[test]
fn root_factors_and_monomials() {
    assert_eq!(Polynomial::root_factor(0), Polynomial::from(vec![-1, 1]));
    assert_eq!(Polynomial::root_factor(4), Polynomial::from(vec![-5, 1]));
    assert_eq!(Polynomial::monomial(0), Polynomial::from(vec![1]));
    assert_eq!(Polynomial::monomial(2), Polynomial::from(vec![0, 0, 1]));
}

#[test]
fn evaluation_over_a_reference_string() {
    let tau = Field::from(5);
    let srs: Vec<G1> = (0..3).map(|i| G1::generator_times(&tau.pow(i))).collect();
    // 3 + 2x + 4x^2 at 5 is 113
    let poly = Polynomial::from(vec![3, 2, 4]);
    assert_eq!(poly.evaluate_over_srs(&srs), Ok(G1::generator_times(&Field::from(113))));
    assert_eq!(poly.evaluate(&tau), Field::from(113));
    let longer = Polynomial::from(vec![3, 2, 4, 1]);
    assert_eq!(
        longer.evaluate_over_srs(&srs),
        Err(Error::SrsTooSmall { srs_len: 3, coefficients: 4 })
    );
    let empty = Polynomial::new(vec![]);
    assert_eq!(empty.evaluate_over_srs(&srs), Err(Error::NoCoefficients));
    assert_eq!(empty.evaluate_over_srs(&Vec::<G1>::new()), Err(Error::NoCoefficients));
    assert_eq!(
        poly.evaluate_over_srs(&Vec::<G1>::new()),
        Err(Error::SrsTooSmall { srs_len: 0, coefficients: 3 })
    );
}

#[test]
fn error_messages() {
    assert_eq!(Error::DivisionByZero.message(), "Divisor is zero");
    assert_eq!(Error::SrsTooSmall { srs_len: 1, coefficients: 2 }.message(), "SRS too small for polynomial");
    assert_eq!(Error::NoCoefficients.message(), "Polynomial has no coefficients");
    assert_eq!(Error::EmptyWitness.message(), "Empty witness");
    assert_eq!(Error::EmptyMatrix.message(), "Empty vec");
    assert_eq!(Error::WitnessSizeMismatch { witness_len: 1, expected: 2 }.message(), "Witness wrong size for QAP");
    assert_eq!(Error::DegreeZeroQAP.message(), "QAP has degree zero");
    assert_eq!(Error::RandomnessUnavailable.message(), "No randomness available");
    assert_eq!(Error::EmptyMatrix.root(), &Error::EmptyMatrix);
    assert_eq!(Operation::DividingLead.name(), "Dividing lead");
    assert_eq!(Operation::EvaluatingOverSrs.name(), "Evaluating over group_1_srs");
    assert_eq!(Operation::ZeroPolynomialSrs.name(), "Calculating zero polynomial SRS");
    assert_eq!(
        Error::NonZeroRemainder { remainder: Polynomial::new(vec![]) }.message(),
        "Non zero remainder"
    );
}

#[test]
fn polynomial_assign_operators() {
    let mut a = Polynomial::from(vec![1, 3, 5]);
    a += Polynomial::from(vec![10, 2]);
    assert_eq!(a, Polynomial::from(vec![11, 5, 5]));
    a -= Polynomial::from(vec![1, 1, 1, 1]);
    assert_eq!(a, Polynomial::from(vec![10, 4, 4, -1]));
}
