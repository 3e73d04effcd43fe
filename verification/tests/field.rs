use groth16::field::Scalar;

#[test]
fn scalar_sum() {
    assert_eq!(Scalar::from(3).plus(&Scalar::from(4)), Scalar::from(7));
    assert_eq!(Scalar::from(-3).plus(&Scalar::from(3)), Scalar::zero());
}

#[test]
fn scalar_difference() {
    assert_eq!(Scalar::from(3).minus(&Scalar::from(4)), Scalar::from(-1));
    assert_eq!(Scalar::from(10).minus(&Scalar::from(4)), Scalar::from(6));
}

#[test]
fn scalar_product() {
    assert_eq!(Scalar::from(3).times(&Scalar::from(4)), Scalar::from(12));
    assert_eq!(Scalar::from(-1).times(&Scalar::from(-1)), Scalar::one());
    assert!(Scalar::from(5).times(&Scalar::zero()).is_zero());
}

#[test]
fn scalar_negation() {
    assert_eq!(Scalar::from(3).negated(), Scalar::from(-3));
    assert_eq!(Scalar::zero().negated(), Scalar::zero());
}

#[test]
fn scalar_quotient() {
    assert_eq!(Scalar::from(12).divided_by(&Scalar::from(4)), Scalar::from(3));
    let third = Scalar::one().divided_by(&Scalar::from(3));
    assert_ne!(third, Scalar::one());
    assert_eq!(third.times(&Scalar::from(3)), Scalar::one());
}

#[test]
fn scalar_power() {
    assert_eq!(Scalar::from(3).pow(4), Scalar::from(81));
    assert_eq!(Scalar::from(3).pow(0), Scalar::one());
    assert_eq!(Scalar::from(2).pow(64), Scalar::from(1u128 << 64));
}

#[test]
fn scalar_from_integers() {
    assert_eq!(Scalar::from(7u128), Scalar::from_u64(7));
    assert_eq!(Scalar::from((1u128 << 64) + 5).to_limbs()[..2], [5, 1]);
    assert_eq!(Scalar::from(-1).plus(&Scalar::one()), Scalar::zero());
    assert_eq!(Scalar::from(i32::MIN).plus(&Scalar::from(1u128 << 31)), Scalar::zero());
    assert_eq!(Scalar::default(), Scalar::zero());
    assert_eq!(Scalar::one().to_limbs()[0], 1);
}

#[test]
fn scalar_modulus_is_the_order_of_the_field() {
    // -1 is the largest canonical representative: the modulus less one.
    let top = Scalar::from(-1).to_limbs();
    assert_eq!(
        top,
        [
            0x5e9063de245e8000,
            0xe39d54522cdd119f,
            0x638810719ac425f0,
            0x685acce9767254a4,
            0xb80f0da5cb537e38,
            0xb117e776f218059d,
            0x99d124d9a15af79d,
            0x07fdb925e8a0ed8d,
            0x5eb7e8f96c97d873,
            0xb7f997505b8fafed,
            0x10229022eee2cdad,
            0x0001c4c62d92c411,
        ]
    );
    let mut above = top;
    above[0] += 1;
    assert_eq!(Scalar::from_limbs(top), Some(Scalar::from(-1)));
    assert_eq!(Scalar::from_limbs(above), None);
}

#[test]
fn scalar_equality() {
    assert!(Scalar::from(5).same(&Scalar::from(5)));
    assert!(!Scalar::from(5).same(&Scalar::from(6)));
    assert!(Scalar::zero().is_zero());
    assert!(!Scalar::one().is_zero());
}

#[test]
fn scalar_from_random_bytes_depends_on_the_bytes() {
    let zeros = [0u8; 32];
    assert_eq!(Scalar::from_random_bytes(&zeros), Some(Scalar::zero()));
    let mut one = [0u8; 32];
    one[0] = 1;
    assert_eq!(Scalar::from_random_bytes(&one), Some(Scalar::one()));
    let ones = [0xFFu8; 256];
    assert_eq!(Scalar::from_random_bytes(&ones), None);
}

fn limbs_to_bytes(limbs: [u64; 12]) -> Vec<u8> {
    limbs.iter().flat_map(|l| l.to_le_bytes()).collect()
}

#[test]
fn scalar_from_random_bytes_keeps_the_low_bits_of_the_first_bytes() {
    // fewer than 96 bytes: all of them, least significant first
    let short = Scalar::from_random_bytes(&[1, 2, 3]).unwrap();
    assert_eq!(short, Scalar::from(1 + 2 * 256 + 3 * 65536));
    let nine = Scalar::from_random_bytes(&[0, 0, 0, 0, 0, 0, 0, 0, 5]).unwrap();
    assert_eq!(nine.to_limbs()[..2], [0, 5]);
    assert_eq!(Scalar::from_random_bytes(&[]), Some(Scalar::zero()));
    // bit 752 is the lowest bit of byte 94, and the highest that is kept
    let mut bytes = [0u8; 256];
    bytes[94] = 0xFF;
    let top = Scalar::from_random_bytes(&bytes).unwrap();
    let mut expected = [0u64; 12];
    expected[11] = 1 << 48;
    assert_eq!(top.to_limbs(), expected);
    // byte 95 and the bytes after the first 96 do not count
    let mut bytes = [0u8; 256];
    bytes[95] = 0xFF;
    bytes[96] = 0xFF;
    bytes[255] = 0xFF;
    assert_eq!(Scalar::from_random_bytes(&bytes), Some(Scalar::zero()));
    // the largest scalar is accepted, the modulus is not
    let largest = Scalar::from(-1);
    let mut limbs = largest.to_limbs();
    assert_eq!(Scalar::from_random_bytes(&limbs_to_bytes(limbs)), Some(largest));
    limbs[0] += 1;
    assert_eq!(Scalar::from_random_bytes(&limbs_to_bytes(limbs)), None);
    // bits above the modulus' length are cleared before the comparison
    let mut padded = limbs_to_bytes(largest.to_limbs());
    padded[94] |= 0xFE;
    padded[95] = 0xFF;
    assert_eq!(Scalar::from_random_bytes(&padded), Some(largest));
    // a value of 753 bits above the modulus is rejected
    let mut bytes = [0u8; 256];
    bytes[93] = 0xFF;
    bytes[94] = 1;
    assert_eq!(Scalar::from_random_bytes(&bytes), None);
}
