use groth16::circuits::QAP;
use groth16::circuits::R1CS;
use groth16::curve::G1;
use groth16::curve::G2;
use groth16::error::Error;
use groth16::field::Scalar;
use groth16::groth16::Proof;
use groth16::groth16::TrustedSetupOutput;
use groth16::helpers::os_rng;
use groth16::helpers::r1cs_matrices;
use groth16::helpers::rand_scalar;
use groth16::helpers::rand_small_scalar;
use groth16::polynomial::Polynomial;
use rand::rngs::StdRng;
use rand::Rng;
use rand::RngCore;
use rand::SeedableRng;
use serde_json::Value;

type Field = Scalar;

fn scalar_to_json(s: &Scalar) -> Value {
    Value::Array(s.to_limbs().iter().map(|l| Value::from(*l)).collect())
}

fn scalar_from_json(v: &Value) -> Scalar {
    let limbs: Vec<u64> = v.as_array().unwrap().iter().map(|l| l.as_u64().unwrap()).collect();
    let mut array = [0u64; 12];
    array.copy_from_slice(&limbs);
    Scalar::from_limbs(array).unwrap()
}

fn scalars_to_json(v: &Vec<Scalar>) -> Value {
    Value::Array(v.iter().map(scalar_to_json).collect())
}

fn scalars_from_json(v: &Value) -> Vec<Scalar> {
    v.as_array().unwrap().iter().map(scalar_from_json).collect()
}

fn polynomials_to_json(v: &Vec<Polynomial>) -> Value {
    Value::Array(v.iter().map(|p| scalars_to_json(p.coefficients())).collect())
}

fn polynomials_from_json(v: &Value) -> Vec<Polynomial> {
    v.as_array().unwrap().iter().map(|p| Polynomial::new(scalars_from_json(p))).collect()
}

fn bytes_to_json(bytes: Vec<u8>) -> Value {
    Value::Array(bytes.into_iter().map(Value::from).collect())
}

fn bytes_from_json(v: &Value) -> Vec<u8> {
    v.as_array().unwrap().iter().map(|b| b.as_u64().unwrap() as u8).collect()
}

fn g1_to_json(p: &G1) -> Value {
    bytes_to_json(p.to_bytes())
}

fn g1_from_json(v: &Value) -> G1 {
    G1::from_bytes(&bytes_from_json(v)).unwrap()
}

fn g2_to_json(p: &G2) -> Value {
    bytes_to_json(p.to_bytes())
}

fn g2_from_json(v: &Value) -> G2 {
    G2::from_bytes(&bytes_from_json(v)).unwrap()
}

fn qap_to_json(qap: &QAP) -> Value {
    let mut m = serde_json::Map::new();
    m.insert("w".to_string(), polynomials_to_json(&qap.w));
    m.insert("u".to_string(), polynomials_to_json(&qap.u));
    m.insert("v".to_string(), polynomials_to_json(&qap.v));
    m.insert("public_witness".to_string(), scalars_to_json(&qap.public_witness));
    Value::Object(m)
}

fn qap_from_json(v: &Value) -> QAP {
    QAP {
        w: polynomials_from_json(&v["w"]),
        u: polynomials_from_json(&v["u"]),
        v: polynomials_from_json(&v["v"]),
        public_witness: scalars_from_json(&v["public_witness"]),
    }
}

fn setup_to_json(s: &TrustedSetupOutput) -> Value {
    let mut m = serde_json::Map::new();
    m.insert("qap".to_string(), qap_to_json(&s.qap));
    m.insert("alpha".to_string(), g1_to_json(&s.alpha));
    m.insert("beta_1".to_string(), g1_to_json(&s.beta_1));
    m.insert("beta_2".to_string(), g2_to_json(&s.beta_2));
    m.insert("gamma".to_string(), g2_to_json(&s.gamma));
    m.insert("delta_1".to_string(), g1_to_json(&s.delta_1));
    m.insert("delta_2".to_string(), g2_to_json(&s.delta_2));
    m.insert(
        "group_1_srs".to_string(),
        Value::Array(s.group_1_srs.iter().map(g1_to_json).collect()),
    );
    m.insert(
        "group_2_srs".to_string(),
        Value::Array(s.group_2_srs.iter().map(g2_to_json).collect()),
    );
    m.insert(
        "zero_polynomial_srs".to_string(),
        Value::Array(s.zero_polynomial_srs.iter().map(g1_to_json).collect()),
    );
    m.insert(
        "psi_polynomials".to_string(),
        Value::Array(s.psi_polynomials.iter().map(g1_to_json).collect()),
    );
    Value::Object(m)
}

fn setup_from_json(v: &Value) -> TrustedSetupOutput {
    TrustedSetupOutput {
        qap: qap_from_json(&v["qap"]),
        alpha: g1_from_json(&v["alpha"]),
        beta_1: g1_from_json(&v["beta_1"]),
        beta_2: g2_from_json(&v["beta_2"]),
        gamma: g2_from_json(&v["gamma"]),
        delta_1: g1_from_json(&v["delta_1"]),
        delta_2: g2_from_json(&v["delta_2"]),
        group_1_srs: v["group_1_srs"].as_array().unwrap().iter().map(g1_from_json).collect(),
        group_2_srs: v["group_2_srs"].as_array().unwrap().iter().map(g2_from_json).collect(),
        zero_polynomial_srs: v["zero_polynomial_srs"]
            .as_array()
            .unwrap()
            .iter()
            .map(g1_from_json)
            .collect(),
        psi_polynomials: v["psi_polynomials"]
            .as_array()
            .unwrap()
            .iter()
            .map(g1_from_json)
            .collect(),
    }
}

fn proof_to_json(p: &Proof) -> Value {
    let mut m = serde_json::Map::new();
    m.insert("a".to_string(), g1_to_json(&p.a));
    m.insert("b".to_string(), g2_to_json(&p.b));
    m.insert("c".to_string(), g1_to_json(&p.c));
    Value::Object(m)
}

fn proof_from_json(v: &Value) -> Proof {
    Proof { a: g1_from_json(&v["a"]), b: g2_from_json(&v["b"]), c: g1_from_json(&v["c"]) }
}

#[test]
fn serialisation_matches() -> Result<(), Error> {
    let (l, r, o) = r1cs_matrices();

    println!("Matrices initialised");
    let r1cs: R1CS = R1CS::new(l, r, o, Vec::<i32>::new());

    println!("R1CS initialised: {:?}", r1cs);
    let qap = QAP::from(r1cs.clone());

    println!("QAP derived");
    let trusted_setup: TrustedSetupOutput = TrustedSetupOutput::new(qap.clone())?;

    println!("Trusted Setup complete");
    let mut rng = rand::rng();
    let x = Field::from(rng.random_range(0..1000));
    let y = Field::from(rng.random_range(0..1000));
    let z = Field::from(rng.random_range(0..1000));
    let u = Field::from(rng.random_range(0..1000));
    let r = x.times(&y).times(&z).times(&u);
    let v1 = x.times(&y);
    let v2 = z.times(&u);
    let w = vec![Field::from(1), r, x, y, z, u, v1, v2];

    println!("Generating proof for witness {:?}", w);
    assert_eq!(r, x.times(&y).times(&z).times(&u));
    assert!(r1cs.verify(&w)?);
    assert!(qap.verify(&w));
    let proof = trusted_setup.prove(&w)?;

    println!("Proof generated");
    assert!(proof.verify(&trusted_setup, &qap.public_witness));

    let trusted_setup_serialized = serde_json::to_string(&setup_to_json(&trusted_setup)).unwrap();
    let trusted_setup_deserialized =
        setup_from_json(&serde_json::from_str(&trusted_setup_serialized).unwrap());
    assert_eq!(trusted_setup, trusted_setup_deserialized);

    let proof_serialized = serde_json::to_string(&proof_to_json(&proof)).unwrap();
    let proof_deserialized = proof_from_json(&serde_json::from_str(&proof_serialized).unwrap());
    assert_eq!(proof, proof_deserialized);
    Ok(())
}

#[test]
fn scalar_limbs_roundtrip() {
    let mut rng = os_rng().unwrap();
    let s = rand_scalar(&mut rng).unwrap();
    assert_eq!(Scalar::from_limbs(s.to_limbs()), Some(s));
    assert_eq!(Scalar::from(5).to_limbs(), [5, 0, 0, 0, 0, 0, 0, 0, 0, 0, 0, 0]);
    assert_eq!(Scalar::from_limbs([u64::MAX; 12]), None);
}

#[test]
fn point_bytes_roundtrip() {
    let p = G1::generator_times(&Scalar::from(7));
    assert_eq!(G1::from_bytes(&p.to_bytes()), Some(p));
    let q = G2::generator_times(&Scalar::from(7));
    assert_eq!(G2::from_bytes(&q.to_bytes()), Some(q));
    assert_eq!(G1::from_bytes(&vec![1, 2, 3]), None);
    assert_eq!(G2::from_bytes(&Vec::new()), None);
}

#[test]
fn rand_scalar_draws_different_scalars() {
    let mut rng = os_rng().unwrap();
    let a = rand_scalar(&mut rng).unwrap();
    let b = rand_scalar(&mut rng).unwrap();
    assert_ne!(a, b);
}

#[test]
fn small_scalars_are_below_a_thousand() {
    let mut seen_different = false;
    let mut rng = os_rng().unwrap();
    let first = rand_small_scalar(&mut rng);
    for _ in 0..200 {
        let x = rand_small_scalar(&mut rng);
        let limbs = x.to_limbs();
        assert!(limbs[0] < 1000);
        assert!(limbs[1..].iter().all(|l| *l == 0));
        if x != first {
            seen_different = true;
        }
    }
    assert!(seen_different);
}

#[test]
fn rand_scalar_returns_the_first_buffer_that_the_field_accepts() {
    for seed in 0..20u64 {
        let mut rng = StdRng::seed_from_u64(seed);
        let drawn = rand_scalar(&mut rng).unwrap();
        // the same stream, read by hand
        let mut again = StdRng::seed_from_u64(seed);
        let mut draws = 0;
        let expected = loop {
            let mut bytes = vec![0u8; 256];
            again.fill_bytes(&mut bytes);
            draws += 1;
            if let Some(s) = Scalar::from_random_bytes(&bytes) {
                break s;
            }
        };
        assert!(draws >= 1);
        assert_eq!(drawn, expected);
        // both generators have been read equally far
        assert_eq!(rand_scalar(&mut rng), rand_scalar(&mut again));
    }
}
