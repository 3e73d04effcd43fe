use groth16::circuits::QAP;
use groth16::circuits::R1CS;
use groth16::error::Error;
use groth16::field::Scalar;
use groth16::helpers::r1cs_matrices;
use groth16::polynomial::Polynomial;
use rand::Rng;

type Field = Scalar;

#[test]
fn r1cs_verification() -> Result<(), Error> {
    let l = vec![
        vec![0, 0, 0],
        vec![0, 0, 0],
        vec![1, 0, 0],
        vec![0, 0, 0],
        vec![0, 1, 0],
        vec![0, 0, 0],
        vec![0, 0, 1],
        vec![0, 0, 0],
    ];

    let r = vec![
        vec![0, 0, 0],
        vec![0, 0, 0],
        vec![0, 0, 0],
        vec![1, 0, 0],
        vec![0, 0, 0],
        vec![0, 1, 0],
        vec![0, 0, 0],
        vec![0, 0, 1],
    ];

    let o = vec![
        vec![0, 0, 0],
        vec![0, 0, 1],
        vec![0, 0, 0],
        vec![0, 0, 0],
        vec![0, 0, 0],
        vec![0, 0, 0],
        vec![1, 0, 0],
        vec![0, 1, 0],
    ];

    println!("Matrices initialised");
    let r1cs: R1CS = R1CS::new(l, r, o, Vec::<i32>::new());
    let mut rng = rand::rng();
    let x = Field::from(rng.random_range(0..1000));
    let y = Field::from(rng.random_range(0..1000));
    let z = Field::from(rng.random_range(0..1000));
    let u = Field::from(rng.random_range(0..1000));
    let r = x.times(&y).times(&z).times(&u);
    let v1 = x.times(&y);
    let v2 = z.times(&u);
    let w = vec![Field::from(1), r, x, y, z, u, v1, v2];

    println!("Generating proof for witness {:?}", w);
    assert_eq!(r, x.times(&y).times(&z).times(&u));
    assert!(r1cs.verify(&w)?);
    Ok(())
}

#[test]
fn r1cs_matrices_describe_the_product_circuit() {
    let (l, r, o) = r1cs_matrices();
    assert_eq!(l.len(), 8);
    assert_eq!(r.len(), 8);
    assert_eq!(o.len(), 8);
    assert_eq!(l[2], vec![1, 0, 0]);
    assert_eq!(l[4], vec![0, 1, 0]);
    assert_eq!(l[6], vec![0, 0, 1]);
    assert_eq!(r[3], vec![1, 0, 0]);
    assert_eq!(r[5], vec![0, 1, 0]);
    assert_eq!(r[7], vec![0, 0, 1]);
    assert_eq!(o[6], vec![1, 0, 0]);
    assert_eq!(o[7], vec![0, 1, 0]);
    assert_eq!(o[1], vec![0, 0, 1]);
    assert_eq!(l[0], vec![0, 0, 0]);
}

#[test]
fn r1cs_rejects_a_wrong_witness() {
    let (l, r, o) = r1cs_matrices();
    let r1cs = R1CS::new(l, r, o, Vec::<i32>::new());
    // r = 25 is not 2 * 3 * 4 * 5
    let w: Vec<Field> = [1, 25, 2, 3, 4, 5, 6, 20].iter().map(|x| Field::from(*x)).collect();
    assert_eq!(r1cs.verify(&w), Ok(false));
    let w: Vec<Field> = [1, 120, 2, 3, 4, 5, 6, 20].iter().map(|x| Field::from(*x)).collect();
    assert_eq!(r1cs.verify(&w), Ok(true));
}

#[test]
fn r1cs_without_columns_is_an_error() {
    let r1cs = R1CS::new(Vec::<Vec<i32>>::new(), Vec::new(), Vec::new(), Vec::<i32>::new());
    let w = vec![Field::from(1)];
    assert_eq!(r1cs.verify(&w), Err(Error::EmptyMatrix));
    let (l, r, o) = r1cs_matrices();
    let r1cs = R1CS::new(l, r, o, Vec::<i32>::new());
    assert_eq!(r1cs.verify(&Vec::new()), Err(Error::EmptyMatrix));
}

#[test]
fn r1cs_new_takes_residues() {
    let r1cs = R1CS::new(vec![vec![-1, 2]], vec![vec![0, 0]], vec![vec![0, 0]], vec![7]);
    assert_eq!(r1cs.L[0][0], Field::from(0).minus(&Field::from(1)));
    assert_eq!(r1cs.L[0][1], Field::from(2));
    assert_eq!(r1cs.public_witness, vec![Field::from(7)]);
}

#[test]
fn qap_interpolates_the_columns() {
    let (l, r, o) = r1cs_matrices();
    let r1cs = R1CS::new(l, r, o, Vec::<i32>::new());
    let qap = QAP::from(r1cs.clone());
    assert_eq!(qap.u.len(), 8);
    assert_eq!(qap.v.len(), 8);
    assert_eq!(qap.w.len(), 8);
    assert_eq!(qap.degree(), 3);
    assert_eq!(qap.max_polynomial_degree(), 2);
    for i in 0..8 {
        for row in 0..3 {
            let x = Field::from((row + 1) as u128);
            assert_eq!(qap.u[i].evaluate(&x), r1cs.L[i][row]);
            assert_eq!(qap.v[i].evaluate(&x), r1cs.R[i][row]);
            assert_eq!(qap.w[i].evaluate(&x), r1cs.O[i][row]);
        }
    }
}

#[test]
fn qap_accepts_witnesses_of_the_right_length() {
    let (l, r, o) = r1cs_matrices();
    let r1cs = R1CS::new(l, r, o, Vec::<i32>::new());
    let qap = QAP::from(r1cs.clone());
    let w: Vec<Field> = [1, 120, 2, 3, 4, 5, 6, 20].iter().map(|x| Field::from(*x)).collect();
    assert_eq!(r1cs.verify(&w), Ok(true));
    assert!(qap.verify(&w));
    assert!(qap.verify_at(&w, &Field::from(17)));
    let short: Vec<Field> = [1, 120, 2].iter().map(|x| Field::from(*x)).collect();
    assert!(!qap.verify(&short));
}

/// The residue modulo 641 of a coefficient that is a rational number with
/// denominator 6: six times the coefficient is a small integer.
fn residue_modulo_641(c: &Field) -> u64 {
    let six = c.times(&Field::from(6));
    let limbs = six.to_limbs();
    let numerator = if limbs[1..].iter().all(|l| *l == 0) && limbs[0] < (1 << 32) {
        limbs[0] as i64
    } else {
        let negated = six.negated().to_limbs();
        assert!(negated[1..].iter().all(|l| *l == 0) && negated[0] < (1 << 32));
        -(negated[0] as i64)
    };
    // 107 is the inverse of 6 modulo 641
    (numerator.rem_euclid(641) as u64 * 107) % 641
}

fn residues_modulo_641(polys: &Vec<Polynomial>) -> Vec<Vec<u64>> {
    polys.iter().map(|p| p.coefficients().iter().map(residue_modulo_641).collect()).collect()
}

#[test]
fn r1cs_to_qap() {
    // Test case from https://risencrypto.github.io/R1CSQAP/
    let l = vec![
        vec![0, 0, 0, 5],
        vec![0, 0, 0, 0],
        vec![1, 0, 1, 0],
        vec![0, 1, 0, 0],
        vec![0, 0, 1, 0],
        vec![0, 0, 0, 1],
    ];

    let r = vec![
        vec![0, 0, 1, 1],
        vec![0, 0, 0, 0],
        vec![1, 1, 0, 0],
        vec![0, 0, 0, 0],
        vec![0, 0, 0, 0],
        vec![0, 0, 0, 0],
    ];

    let o = vec![
        vec![0, 0, 0, 0],
        vec![0, 0, 0, 1],
        vec![0, 0, 0, 0],
        vec![1, 0, 0, 0],
        vec![0, 1, 0, 0],
        vec![0, 0, 1, 0],
    ];

    let r1cs = R1CS::new(l, r, o, Vec::<i32>::new());

    let qap = QAP::from(r1cs);

    // The coefficients of the interpolating polynomials are rational numbers with
    // denominator 6; the reference values are their residues in the field of 641
    // elements.
    let known_good_u: Vec<Vec<u64>> = vec![
        vec![636, 116, 636, 535],
        vec![0, 0, 0, 0],
        vec![8, 416, 5, 213],
        vec![635, 330, 637, 321],
        vec![4, 634, 324, 320],
        vec![640, 536, 640, 107],
    ];
    let known_good_v: Vec<Vec<u64>> = vec![
        vec![3, 529, 323, 427],
        vec![0, 0, 0, 0],
        vec![639, 112, 318, 214],
        vec![0, 0, 0, 0],
        vec![0, 0, 0, 0],
        vec![0, 0, 0, 0],
    ];
    let known_good_w: Vec<Vec<u64>> = vec![
        vec![0, 0, 0, 0],
        vec![640, 536, 640, 107],
        vec![0, 0, 0, 0],
        vec![4, 423, 322, 534],
        vec![635, 330, 637, 321],
        vec![4, 634, 324, 320],
    ];

    assert_eq!(residues_modulo_641(&qap.u), known_good_u);
    assert_eq!(residues_modulo_641(&qap.v), known_good_v);
    assert_eq!(residues_modulo_641(&qap.w), known_good_w);
    assert_eq!(qap.public_witness, Vec::new());
}
