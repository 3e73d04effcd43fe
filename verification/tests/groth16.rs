use groth16::circuits::QAP;
use groth16::circuits::R1CS;
use groth16::curve::pairing;
use groth16::curve::Group;
use groth16::curve::G1;
use groth16::curve::G2;
use groth16::error::Error;
use groth16::error::Operation;
use groth16::field::Scalar;
use groth16::groth16::Proof;
use groth16::groth16::TrustedSetupOutput;
use groth16::helpers::os_rng;
use groth16::helpers::rand_scalar;
use groth16::polynomial::Polynomial;
use rand::Rng;
use std::iter::zip;

type Field = Scalar;

#[test]
fn groth16() -> Result<(), Error> {
    let l = vec![
        vec![0, 0, 0],
        vec![0, 0, 0],
        vec![1, 0, 0],
        vec![0, 0, 0],
        vec![0, 1, 0],
        vec![0, 0, 0],
        vec![0, 0, 1],
        vec![0, 0, 0],
    ];

    let r = vec![
        vec![0, 0, 0],
        vec![0, 0, 0],
        vec![0, 0, 0],
        vec![1, 0, 0],
        vec![0, 0, 0],
        vec![0, 1, 0],
        vec![0, 0, 0],
        vec![0, 0, 1],
    ];

    let o = vec![
        vec![0, 0, 0],
        vec![0, 0, 1],
        vec![0, 0, 0],
        vec![0, 0, 0],
        vec![0, 0, 0],
        vec![0, 0, 0],
        vec![1, 0, 0],
        vec![0, 1, 0],
    ];

    println!("Matrices initialised");
    let r1cs: R1CS = R1CS::new(l, r, o, Vec::<i32>::new());

    println!("R1CS initialised: {:?}", r1cs);
    let qap = QAP::from(r1cs.clone());

    println!("QAP derived");
    let trusted_setup: TrustedSetupOutput = TrustedSetupOutput::new(qap.clone())?;

    println!("Trusted Setup complete");
    let mut rng = rand::rng();
    let x = Field::from(rng.random_range(0..1000));
    let y = Field::from(rng.random_range(0..1000));
    let z = Field::from(rng.random_range(0..1000));
    let u = Field::from(rng.random_range(0..1000));
    let r = x.times(&y).times(&z).times(&u);
    let v1 = x.times(&y);
    let v2 = z.times(&u);
    let w = vec![Field::from(1), r, x, y, z, u, v1, v2];

    println!("Generating proof for witness {:?}", w);
    assert_eq!(r, x.times(&y).times(&z).times(&u));
    assert!(r1cs.verify(&w)?);
    assert!(qap.verify(&w));
    let proof = trusted_setup.prove(&w)?;

    println!("Proof generated");
    assert!(proof.verify(&trusted_setup, &qap.public_witness));
    Ok(())
}

#[test]
fn group_1_srs() -> Result<(), Error> {
    let mut rng = os_rng().unwrap();
    let tau: Scalar = rand_scalar(&mut rng).unwrap();

    let srs = TrustedSetupOutput::group_1_srs(16, &tau);

    let polynomial: Polynomial = Polynomial::from(vec![3, 5, 10, 20]);

    assert_eq!(
        G1::generator_times(&polynomial.evaluate(&tau)),
        polynomial.evaluate_over_srs(&srs)?
    );
    Ok(())
}

#[test]
fn zero_polynomial_is_zero() -> Result<(), Error> {
    let l = vec![
        vec![0, 0, 0],
        vec![0, 0, 0],
        vec![1, 0, 0],
        vec![0, 0, 0],
        vec![0, 1, 0],
        vec![0, 0, 0],
        vec![0, 0, 1],
        vec![0, 0, 0],
    ];

    let r = vec![
        vec![0, 0, 0],
        vec![0, 0, 0],
        vec![0, 0, 0],
        vec![1, 0, 0],
        vec![0, 0, 0],
        vec![0, 1, 0],
        vec![0, 0, 0],
        vec![0, 0, 1],
    ];

    let o = vec![
        vec![0, 0, 0],
        vec![0, 0, 1],
        vec![0, 0, 0],
        vec![0, 0, 0],
        vec![0, 0, 0],
        vec![0, 0, 0],
        vec![1, 0, 0],
        vec![0, 1, 0],
    ];

    println!("Matrices initialised");
    let r1cs: R1CS = R1CS::new(l, r, o, Vec::<i32>::new());

    println!("R1CS initialised: {:?}", r1cs);
    let qap = QAP::from(r1cs.clone());

    println!("QAP derived");
    let _trusted_setup: TrustedSetupOutput = TrustedSetupOutput::new(qap.clone())?;

    println!("Trusted Setup complete");

    let zero_polynomial = TrustedSetupOutput::t(qap.degree())?;

    println!("QAP has degree {}", qap.max_polynomial_degree());
    for i in 1..qap.max_polynomial_degree() + 1 {
        println!("Running on X={}", i);
        assert_eq!(
            zero_polynomial.evaluate(&Field::from(i as u128)),
            Field::default()
        )
    }

    Ok(())
}

#[test]
fn naive() -> Result<(), Error> {
    let l = vec![
        vec![0, 0, 0],
        vec![0, 0, 0],
        vec![1, 0, 0],
        vec![0, 0, 0],
        vec![0, 1, 0],
        vec![0, 0, 0],
        vec![0, 0, 1],
        vec![0, 0, 0],
    ];

    let r = vec![
        vec![0, 0, 0],
        vec![0, 0, 0],
        vec![0, 0, 0],
        vec![1, 0, 0],
        vec![0, 0, 0],
        vec![0, 1, 0],
        vec![0, 0, 0],
        vec![0, 0, 1],
    ];

    let o = vec![
        vec![0, 0, 0],
        vec![0, 0, 1],
        vec![0, 0, 0],
        vec![0, 0, 0],
        vec![0, 0, 0],
        vec![0, 0, 0],
        vec![1, 0, 0],
        vec![0, 1, 0],
    ];

    println!("Matrices initialised");
    let r1cs: R1CS = R1CS::new(l, r, o, Vec::<i32>::new());

    println!("R1CS initialised: {:?}", r1cs);
    let qap = QAP::from(r1cs.clone());
    assert_eq!(qap.degree(), 3);

    println!("QAP derived");
    let trusted_setup: TrustedSetupOutput = TrustedSetupOutput::new(qap.clone())?;

    println!("Trusted Setup complete");

    let mut rng = rand::rng();
    let x = Field::from(rng.random_range(0..1000));
    let y = Field::from(rng.random_range(0..1000));
    let z = Field::from(rng.random_range(0..1000));
    let u = Field::from(rng.random_range(0..1000));
    let r = x.times(&y).times(&z).times(&u);
    let v1 = x.times(&y);
    let v2 = z.times(&u);
    let w = vec![Field::from(1), r, x, y, z, u, v1, v2];

    println!(
        "QAP Max Polynomial Degree: {:?}",
        qap.max_polynomial_degree()
    );

    let zero_polynomial_srs: Vec<G1> = TrustedSetupOutput::zero_polynomial_srs(
        qap.degree(),
        (qap.degree()) - 1,
        &Field::from(1),
        &trusted_setup.group_1_srs,
    )?;

    assert_eq!(zero_polynomial_srs.len(), qap.degree() - 1);

    let ht = trusted_setup.calculate_zero_polynomial(&w)?;
    println!("zero polynomial: {:?}", ht);
    let ht_tau = ht.evaluate_over_srs(&zero_polynomial_srs)?;

    let a = trusted_setup.evaluate_u(&w)?;
    let b = trusted_setup.evaluate_v(&w)?;
    let c = trusted_setup.evaluate_w(&w)?.plus(&ht_tau);

    let lhs = pairing(&a, &b).unwrap();
    let rhs = pairing(&c, &G2::generator_times(&Field::from(1))).unwrap();

    println!("{:?} == {:?}", lhs, rhs);

    assert_eq!(lhs, rhs);

    Ok(())
}

#[test]
fn naive_plus_alpha_beta() -> Result<(), Error> {
    let l = vec![
        vec![0, 0, 0],
        vec![0, 0, 0],
        vec![1, 0, 0],
        vec![0, 0, 0],
        vec![0, 1, 0],
        vec![0, 0, 0],
        vec![0, 0, 1],
        vec![0, 0, 0],
    ];

    let r = vec![
        vec![0, 0, 0],
        vec![0, 0, 0],
        vec![0, 0, 0],
        vec![1, 0, 0],
        vec![0, 0, 0],
        vec![0, 1, 0],
        vec![0, 0, 0],
        vec![0, 0, 1],
    ];

    let o = vec![
        vec![0, 0, 0],
        vec![0, 0, 1],
        vec![0, 0, 0],
        vec![0, 0, 0],
        vec![0, 0, 0],
        vec![0, 0, 0],
        vec![1, 0, 0],
        vec![0, 1, 0],
    ];

    println!("Matrices initialised");
    let r1cs: R1CS = R1CS::new(l, r, o, Vec::<i32>::new());

    println!("R1CS initialised: {:?}", r1cs);
    let qap = QAP::from(r1cs.clone());
    assert_eq!(qap.degree(), 3);

    println!("QAP derived");
    let trusted_setup: TrustedSetupOutput = TrustedSetupOutput::new(qap.clone())?;

    println!("Trusted Setup complete");

    let mut rng = rand::rng();
    let x = Field::from(rng.random_range(0..1000));
    let y = Field::from(rng.random_range(0..1000));
    let z = Field::from(rng.random_range(0..1000));
    let u = Field::from(rng.random_range(0..1000));
    let r = x.times(&y).times(&z).times(&u);
    let v1 = x.times(&y);
    let v2 = z.times(&u);
    let w = vec![Field::from(1), r, x, y, z, u, v1, v2];

    println!(
        "QAP Max Polynomial Degree: {:?}",
        qap.max_polynomial_degree()
    );

    let zero_polynomial_srs: Vec<G1> = TrustedSetupOutput::zero_polynomial_srs(
        qap.degree(),
        (qap.degree()) - 1,
        &Field::from(1),
        &trusted_setup.group_1_srs,
    )?;

    assert_eq!(zero_polynomial_srs.len(), qap.degree() - 1);

    let ht = trusted_setup.calculate_zero_polynomial(&w)?;
    println!("zero polynomial: {:?}", ht);
    let ht_tau = ht.evaluate_over_srs(&zero_polynomial_srs)?;

    let mut secrets = os_rng().unwrap();
    let alpha = rand_scalar(&mut secrets).unwrap();
    let beta = rand_scalar(&mut secrets).unwrap();
    let alpha_1 = G1::generator_times(&alpha);
    let beta_2 = G2::generator_times(&beta);
    let psi_polynomials = TrustedSetupOutput::psi_polynomials(
        &qap,
        &trusted_setup.group_1_srs,
        &alpha,
        &beta,
        &Field::from(1),
        &Field::from(1),
    )?;

    assert_eq!(psi_polynomials.len(), w.len());

    let a = alpha_1.plus(&trusted_setup.evaluate_u(&w)?);
    let b = beta_2.plus(&trusted_setup.evaluate_v(&w)?);
    let c = zip(&psi_polynomials, &w)
        .skip(qap.public_witness.len())
        .map(|(psi, a_i)| psi.times(a_i))
        .reduce(|p, q| p.plus(&q))
        .ok_or(Error::EmptyWitness)?
        .plus(&ht_tau);

    let lhs = pairing(&a, &b).unwrap();
    let rhs = pairing(&alpha_1, &beta_2)
        .unwrap()
        .plus(&pairing(&c, &G2::generator_times(&Field::from(1))).unwrap());

    assert_eq!(lhs, rhs);

    Ok(())
}

#[test]
fn naive_plus_gamma_delta() -> Result<(), Error> {
    let l = vec![
        vec![0, 0, 0],
        vec![0, 0, 0],
        vec![1, 0, 0],
        vec![0, 0, 0],
        vec![0, 1, 0],
        vec![0, 0, 0],
        vec![0, 0, 1],
        vec![0, 0, 0],
    ];

    let r = vec![
        vec![0, 0, 0],
        vec![0, 0, 0],
        vec![0, 0, 0],
        vec![1, 0, 0],
        vec![0, 0, 0],
        vec![0, 1, 0],
        vec![0, 0, 0],
        vec![0, 0, 1],
    ];

    let o = vec![
        vec![0, 0, 0],
        vec![0, 0, 1],
        vec![0, 0, 0],
        vec![0, 0, 0],
        vec![0, 0, 0],
        vec![0, 0, 0],
        vec![1, 0, 0],
        vec![0, 1, 0],
    ];

    println!("Matrices initialised");
    let r1cs: R1CS = R1CS::new(l, r, o, Vec::<i32>::new());

    println!("R1CS initialised: {:?}", r1cs);
    let qap = QAP::from(r1cs.clone());
    assert_eq!(qap.degree(), 3);

    println!("QAP derived");
    let trusted_setup: TrustedSetupOutput = TrustedSetupOutput::new(qap.clone())?;

    println!("Trusted Setup complete");

    let mut rng = rand::rng();
    let x = Field::from(rng.random_range(0..1000));
    let y = Field::from(rng.random_range(0..1000));
    let z = Field::from(rng.random_range(0..1000));
    let u = Field::from(rng.random_range(0..1000));
    let r = x.times(&y).times(&z).times(&u);
    let v1 = x.times(&y);
    let v2 = z.times(&u);
    let w = vec![Field::from(1), r, x, y, z, u, v1, v2];

    println!(
        "QAP Max Polynomial Degree: {:?}",
        qap.max_polynomial_degree()
    );

    let mut secrets = os_rng().unwrap();
    let delta = rand_scalar(&mut secrets).unwrap();
    let zero_polynomial_srs: Vec<G1> = TrustedSetupOutput::zero_polynomial_srs(
        qap.degree(),
        (qap.degree()) - 1,
        &delta,
        &trusted_setup.group_1_srs,
    )?;

    assert_eq!(zero_polynomial_srs.len(), qap.degree() - 1);

    let ht = trusted_setup.calculate_zero_polynomial(&w)?;
    println!("zero polynomial: {:?}", ht);
    let ht_tau = ht.evaluate_over_srs(&zero_polynomial_srs)?;

    let alpha = rand_scalar(&mut secrets).unwrap();
    let beta = rand_scalar(&mut secrets).unwrap();
    let alpha_1 = G1::generator_times(&alpha);
    let beta_2 = G2::generator_times(&beta);
    let psi_polynomials = TrustedSetupOutput::psi_polynomials(
        &qap,
        &trusted_setup.group_1_srs,
        &alpha,
        &beta,
        &Field::from(1),
        &delta,
    )?;

    assert_eq!(psi_polynomials.len(), w.len());

    let a = alpha_1.plus(&trusted_setup.evaluate_u(&w)?);
    let b = beta_2.plus(&trusted_setup.evaluate_v(&w)?);
    let c = zip(&psi_polynomials, &w)
        .skip(qap.public_witness.len())
        .map(|(psi, a_i)| psi.times(a_i))
        .reduce(|p, q| p.plus(&q))
        .ok_or(Error::EmptyWitness)?
        .plus(&ht_tau);

    let delta_2 = G2::generator_times(&delta);
    let lhs = pairing(&a, &b).unwrap();
    let rhs = pairing(&alpha_1, &beta_2)
        .unwrap()
        .plus(&pairing(&c, &delta_2).unwrap());

    assert_eq!(lhs, rhs);

    Ok(())
}

#[test]
fn proof_for_another_witness_is_rejected() -> Result<(), Error> {
    let (l, r, o) = groth16::helpers::r1cs_matrices();
    let r1cs = R1CS::new(l, r, o, Vec::<i32>::new());
    let qap = QAP::from(r1cs);
    let setup = TrustedSetupOutput::new(qap.clone())?;
    let w: Vec<Field> = [1, 120, 2, 3, 4, 5, 6, 20].iter().map(|x| Field::from(*x)).collect();
    let proof = setup.prove(&w)?;
    assert!(proof.verify(&setup, &qap.public_witness));
    let forged = Proof { a: proof.a, b: proof.b, c: proof.a };
    assert!(!forged.verify(&setup, &qap.public_witness));
    Ok(())
}

#[test]
fn vanishing_polynomial_is_zero_on_its_domain() -> Result<(), Error> {
    let t = TrustedSetupOutput::t(3)?;
    // (x - 1)(x - 2)(x - 3) = x^3 - 6x^2 + 11x - 6
    assert_eq!(t, Polynomial::from(vec![-6, 11, -6, 1]));
    for k in 1..4 {
        assert_eq!(t.evaluate(&Field::from(k)), Field::default());
    }
    assert_eq!(t.evaluate(&Field::from(4)), Field::from(6));
    assert_eq!(TrustedSetupOutput::t(1)?, Polynomial::from(vec![-1, 1]));
    assert_eq!(TrustedSetupOutput::t(0), Err(Error::DegreeZeroQAP));
    Ok(())
}

#[test]
fn setup_has_the_stated_sizes() -> Result<(), Error> {
    let (l, r, o) = groth16::helpers::r1cs_matrices();
    let qap = QAP::from(R1CS::new(l, r, o, vec![1]));
    let tau = Field::from(3);
    let setup = TrustedSetupOutput::with_secrets(
        qap.clone(),
        &Field::from(5),
        &Field::from(7),
        &tau,
        &Field::from(11),
        &Field::from(13),
    )?;
    assert_eq!(setup.qap, qap);
    assert_eq!(setup.group_1_srs.len(), 5);
    assert_eq!(setup.group_2_srs.len(), 3);
    assert_eq!(setup.zero_polynomial_srs.len(), 2);
    assert_eq!(setup.psi_polynomials.len(), 8);
    assert_eq!(setup.alpha, G1::generator_times(&Field::from(5)));
    assert_eq!(setup.beta_1, G1::generator_times(&Field::from(7)));
    assert_eq!(setup.beta_2, G2::generator_times(&Field::from(7)));
    assert_eq!(setup.gamma, G2::generator_times(&Field::from(11)));
    assert_eq!(setup.delta_1, G1::generator_times(&Field::from(13)));
    assert_eq!(setup.delta_2, G2::generator_times(&Field::from(13)));
    assert_eq!(setup.group_1_srs[4], G1::generator_times(&Field::from(81)));
    assert_eq!(setup.group_2_srs[2], G2::generator_times(&Field::from(9)));
    // t(3) = (3 - 1)(3 - 2)(3 - 3) = 0, so the whole string of t is the identity
    let identity = G1::generator_times(&Field::from(0));
    assert_eq!(setup.zero_polynomial_srs, vec![identity, identity]);
    // slot 0 is public: (alpha v_0 + beta u_0 + w_0)(tau) / gamma, and its polynomials are zero
    assert_eq!(setup.psi_polynomials[0], identity);
    // slot 2 is private: u_2 interpolates (1, 0, 0), so u_2(3) = 0, as v_2 and w_2 are
    assert_eq!(setup.psi_polynomials[2], identity);
    assert_eq!(TrustedSetupOutput::group_1_srs(0, &tau), Vec::<G1>::new());
    assert_eq!(TrustedSetupOutput::group_2_srs(0, &tau), Vec::<G2>::new());
    Ok(())
}

#[test]
fn setup_with_a_zero_divisor_fails() {
    let (l, r, o) = groth16::helpers::r1cs_matrices();
    let qap = QAP::from(R1CS::new(l, r, o, vec![1]));
    let one = Field::from(1);
    let zero = Field::from(0);
    let delta_zero =
        TrustedSetupOutput::with_secrets(qap.clone(), &one, &one, &Field::from(5), &one, &zero);
    // the reference string of the vanishing polynomial is the first to divide by delta
    let in_step = Error::DivisionByZero.within(Operation::ZeroPolynomialSrs);
    assert_eq!(in_step.message(), "Calculating zero polynomial SRS");
    assert_eq!(in_step.root(), &Error::DivisionByZero);
    assert_eq!(delta_zero, Err(in_step));
    let gamma_zero =
        TrustedSetupOutput::with_secrets(qap.clone(), &one, &one, &Field::from(5), &zero, &one);
    assert_eq!(gamma_zero, Err(Error::DivisionByZero));
}

#[test]
fn reference_string_of_the_vanishing_polynomial() -> Result<(), Error> {
    let tau = Field::from(5);
    let srs = TrustedSetupOutput::group_1_srs(5, &tau);
    // t(5) = 4 * 3 * 2 = 24; entries are tau^i t(tau) / delta
    let z = TrustedSetupOutput::zero_polynomial_srs(3, 2, &Field::from(2), &srs)?;
    assert_eq!(z, vec![G1::generator_times(&Field::from(12)), G1::generator_times(&Field::from(60))]);
    let short = TrustedSetupOutput::group_1_srs(4, &tau);
    assert_eq!(
        TrustedSetupOutput::zero_polynomial_srs(3, 2, &Field::from(2), &short),
        Err(Error::SrsTooSmall { srs_len: 4, coefficients: 5 }.within(Operation::EvaluatingOverSrs))
    );
    assert_eq!(
        TrustedSetupOutput::zero_polynomial_srs(0, 2, &Field::from(2), &srs),
        Err(Error::DegreeZeroQAP)
    );
    assert_eq!(
        TrustedSetupOutput::zero_polynomial_srs(3, 2, &Field::from(0), &srs),
        Err(Error::DivisionByZero)
    );
    assert_eq!(TrustedSetupOutput::zero_polynomial_srs(3, 0, &Field::from(0), &srs), Ok(Vec::new()));
    Ok(())
}

#[test]
fn prover_rejects_bad_witnesses() -> Result<(), Error> {
    let (l, r, o) = groth16::helpers::r1cs_matrices();
    let qap = QAP::from(R1CS::new(l, r, o, Vec::<i32>::new()));
    let setup = TrustedSetupOutput::new(qap)?;
    let short: Vec<Field> = [1, 120, 2].iter().map(|x| Field::from(*x)).collect();
    assert_eq!(setup.prove(&short), Err(Error::WitnessSizeMismatch { witness_len: 3, expected: 8 }));
    assert_eq!(
        setup.prove(&Vec::new()),
        Err(Error::WitnessSizeMismatch { witness_len: 0, expected: 8 })
    );
    assert_eq!(setup.evaluate_u(&short), Err(Error::WitnessSizeMismatch { witness_len: 3, expected: 8 }));
    assert_eq!(setup.evaluate_v(&short), Err(Error::WitnessSizeMismatch { witness_len: 3, expected: 8 }));
    assert_eq!(setup.evaluate_v_1(&short), Err(Error::WitnessSizeMismatch { witness_len: 3, expected: 8 }));
    assert_eq!(setup.evaluate_w(&short), Err(Error::WitnessSizeMismatch { witness_len: 3, expected: 8 }));
    // r = 121 is not 2 * 3 * 4 * 5: the division by the vanishing polynomial is not exact
    let wrong: Vec<Field> = [1, 121, 2, 3, 4, 5, 6, 20].iter().map(|x| Field::from(*x)).collect();
    assert!(matches!(setup.prove(&wrong), Err(Error::NonZeroRemainder { .. })));
    assert!(matches!(
        setup.calculate_zero_polynomial(&wrong),
        Err(Error::NonZeroRemainder { .. })
    ));
    Ok(())
}

#[test]
fn prover_without_private_slots_has_nothing_to_commit_to() -> Result<(), Error> {
    let (l, r, o) = groth16::helpers::r1cs_matrices();
    let all_public = vec![1, 120, 2, 3, 4, 5, 6, 20];
    let qap = QAP::from(R1CS::new(l, r, o, all_public));
    let setup = TrustedSetupOutput::new(qap.clone())?;
    assert_eq!(setup.prove(&qap.public_witness), Err(Error::EmptyWitness));
    Ok(())
}

#[test]
fn commitment_to_an_empty_program() {
    let empty = QAP { w: Vec::new(), u: Vec::new(), v: Vec::new(), public_witness: Vec::new() };
    assert_eq!(empty.degree(), 1);
    assert_eq!(empty.max_polynomial_degree(), 0);
    let setup = TrustedSetupOutput::with_secrets(
        empty,
        &Field::from(5),
        &Field::from(7),
        &Field::from(3),
        &Field::from(11),
        &Field::from(13),
    )
    .unwrap();
    assert_eq!(setup.evaluate_u(&Vec::new()), Err(Error::EmptyWitness));
}

#[test]
fn groth16_with_public_witness() -> Result<(), Error> {
    let (l, r, o) = groth16::helpers::r1cs_matrices();
    let r1cs = R1CS::new(l, r, o, vec![1, 120]);
    let qap = QAP::from(r1cs.clone());
    let setup = TrustedSetupOutput::new(qap.clone())?;
    let w: Vec<Field> = [1, 120, 2, 3, 4, 5, 6, 20].iter().map(|x| Field::from(*x)).collect();
    assert_eq!(r1cs.verify(&w), Ok(true));
    let proof = setup.prove(&w)?;
    assert!(proof.verify(&setup, &qap.public_witness));
    let other: Vec<Field> = [1, 121].iter().map(|x| Field::from(*x)).collect();
    assert!(!proof.verify(&setup, &other));
    assert!(!proof.verify(&setup, &Vec::new()));
    let too_long: Vec<Field> = (0..9).map(|x| Field::from(x as u128)).collect();
    assert!(!proof.verify(&setup, &too_long));
    // two proofs of one witness differ, and both are accepted
    let again = setup.prove(&w)?;
    assert_ne!(proof, again);
    assert!(again.verify(&setup, &qap.public_witness));
    Ok(())
}

#[test]
fn proofs_are_fixed_by_their_blinding_scalars() -> Result<(), Error> {
    let (l, r, o) = groth16::helpers::r1cs_matrices();
    let qap = QAP::from(R1CS::new(l, r, o, Vec::<i32>::new()));
    let setup = TrustedSetupOutput::new(qap.clone())?;
    let w: Vec<Field> = [1, 120, 2, 3, 4, 5, 6, 20].iter().map(|x| Field::from(*x)).collect();
    let first = setup.prove_with(&w, &Field::from(2), &Field::from(3))?;
    let second = setup.prove_with(&w, &Field::from(2), &Field::from(3))?;
    let third = setup.prove_with(&w, &Field::from(2), &Field::from(4))?;
    assert_eq!(first, second);
    assert_ne!(first, third);
    assert!(first.verify(&setup, &qap.public_witness));
    assert!(third.verify(&setup, &qap.public_witness));
    Ok(())
}

#[test]
fn proof_is_rejected_where_a_pairing_is_not_defined() -> Result<(), Error> {
    let (l, r, o) = groth16::helpers::r1cs_matrices();
    let qap = QAP::from(R1CS::new(l, r, o, Vec::<i32>::new()));
    let setup = TrustedSetupOutput::new(qap.clone())?;
    let w: Vec<Field> = [1, 120, 2, 3, 4, 5, 6, 20].iter().map(|x| Field::from(*x)).collect();
    let proof = setup.prove(&w)?;
    let identity = G2::generator_times(&Field::from(0));
    let broken = Proof { a: proof.a, b: identity, c: proof.c };
    assert!(!broken.verify(&setup, &qap.public_witness));
    Ok(())
}

#[test]
fn prover_has_nothing_to_evaluate_for_a_vanishing_quotient() -> Result<(), Error> {
    let (l, r, o) = groth16::helpers::r1cs_matrices();
    let r1cs = R1CS::new(l, r, o, Vec::<i32>::new());
    let qap = QAP::from(r1cs.clone());
    let setup = TrustedSetupOutput::new(qap)?;
    // x = 0 and z = 0: every left factor is zero, and so are all products
    let w: Vec<Field> = [1, 0, 0, 3, 0, 5, 0, 0].iter().map(|x| Field::from(*x)).collect();
    assert_eq!(r1cs.verify(&w), Ok(true));
    assert_eq!(setup.calculate_zero_polynomial(&w), Ok(Polynomial::new(vec![])));
    assert_eq!(setup.prove(&w), Err(Error::NoCoefficients));
    Ok(())
}

#[test]
fn setup_names_the_steps_of_a_failure() {
    let (l, r, o) = groth16::helpers::r1cs_matrices();
    let qap = QAP::from(R1CS::new(l, r, o, vec![1]));
    let one = Field::from(1);
    let failed =
        TrustedSetupOutput::with_secrets(qap, &one, &one, &Field::from(5), &one, &Field::from(0))
            .unwrap_err();
    assert_eq!(
        failed,
        Error::Within {
            operation: Operation::ZeroPolynomialSrs,
            cause: Box::new(Error::DivisionByZero),
        }
    );
    // a string that is too short for the second entry: two steps are named
    let short = TrustedSetupOutput::group_1_srs(4, &Field::from(5));
    let failed =
        TrustedSetupOutput::zero_polynomial_srs(3, 2, &Field::from(2), &short).unwrap_err();
    assert_eq!(failed.message(), "Evaluating over group_1_srs");
    assert_eq!(failed.root(), &Error::SrsTooSmall { srs_len: 4, coefficients: 5 });
    let outer = failed.within(Operation::ZeroPolynomialSrs);
    assert_eq!(outer.message(), "Calculating zero polynomial SRS");
    assert_eq!(outer.root(), &Error::SrsTooSmall { srs_len: 4, coefficients: 5 });
    assert_eq!(
        outer,
        Error::Within {
            operation: Operation::ZeroPolynomialSrs,
            cause: Box::new(Error::Within {
                operation: Operation::EvaluatingOverSrs,
                cause: Box::new(Error::SrsTooSmall { srs_len: 4, coefficients: 5 }),
            }),
        }
    );
}
