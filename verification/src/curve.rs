//! The groups of the MNT6-753 pairing.
//!
//! Points of the two source groups and elements of the target group are values of
//! `ark_ec`, carried through this library unread. What a group operation returns
//! is named by a specification function of its arguments; nothing else is claimed
//! of it.

use ark_ec::PrimeGroup;
use ark_ec::pairing::Pairing;
use ark_ff::PrimeField;
use ark_serialize::CanonicalDeserialize;
use ark_serialize::CanonicalSerialize;
use crate::field::Scalar;
use vstd::prelude::*;

verus! {

/// A point of the first source group.
///
/// Trusted: the value of `ark_ec` inside is hidden from the verifier, which
/// cannot take the type of the curve library as it is, bounded by a trait of that
/// library.
#[verifier::external_body]
#[derive(Debug, PartialEq, Eq)]
pub struct G1 {
    point: ark_mnt6_753::G1Projective,
}

/// A point of the second source group.
///
/// Trusted: the value of `ark_ec` inside is hidden from the verifier.
#[verifier::external_body]
#[derive(Debug, PartialEq, Eq)]
pub struct G2 {
    point: ark_mnt6_753::G2Projective,
}

/// An element of the target group.
///
/// Trusted: the value of `ark_ec` inside is hidden from the verifier.
#[verifier::external_body]
#[derive(Debug, PartialEq, Eq)]
pub struct Gt {
    value: ark_ec::pairing::PairingOutput<ark_mnt6_753::MNT6_753>,
}

impl Clone for G1 {
    fn clone(&self) -> (r: G1)
        ensures
            r == *self,
    {
        *self
    }
}

impl Copy for G1 {

}

impl Clone for G2 {
    fn clone(&self) -> (r: G2)
        ensures
            r == *self,
    {
        *self
    }
}

impl Copy for G2 {

}

impl Clone for Gt {
    fn clone(&self) -> (r: Gt)
        ensures
            r == *self,
    {
        *self
    }
}

impl Copy for Gt {

}

/// The generator of the first group times the scalar with value `k`.
pub uninterp spec fn g1_generator_times(k: int) -> G1;

/// The point `p` times the scalar with value `k`.
pub uninterp spec fn g1_scaled(p: G1, k: int) -> G1;

/// The sum of two points of the first group.
pub uninterp spec fn g1_sum(a: G1, b: G1) -> G1;

/// The difference of two points of the first group.
pub uninterp spec fn g1_difference(a: G1, b: G1) -> G1;

/// The compressed canonical encoding of a point of the first group.
pub uninterp spec fn g1_encoding(p: G1) -> Seq<u8>;

/// The point of the first group that the bytes encode, if they encode one.
pub uninterp spec fn g1_decoding(bytes: Seq<u8>) -> Option<G1>;

/// The generator of the second group times the scalar with value `k`.
pub uninterp spec fn g2_generator_times(k: int) -> G2;

/// The point `p` times the scalar with value `k`.
pub uninterp spec fn g2_scaled(p: G2, k: int) -> G2;

/// The sum of two points of the second group.
pub uninterp spec fn g2_sum(a: G2, b: G2) -> G2;

/// The compressed canonical encoding of a point of the second group.
pub uninterp spec fn g2_encoding(p: G2) -> Seq<u8>;

/// The point of the second group that the bytes encode, if they encode one.
pub uninterp spec fn g2_decoding(bytes: Seq<u8>) -> Option<G2>;

/// The pairing of two points, where the final exponentiation is defined.
pub uninterp spec fn pairing_value(p: G1, q: G2) -> Option<Gt>;

/// The sum of two elements of the target group, written additively.
pub uninterp spec fn gt_sum(a: Gt, b: Gt) -> Gt;

/// What a structured reference string is made of: a group, written additively,
/// on which the scalars act.
pub trait Group: Sized + Copy {
    /// The element times the scalar with value `k`.
    spec fn scaled(self, k: int) -> Self;

    /// The sum of two elements.
    spec fn combined(self, other: Self) -> Self;

    /// The element times a scalar.
    fn times(&self, k: &Scalar) -> (r: Self)
        requires
            k.wf(),
        ensures
            r == self.scaled(k@),
    ;

    /// The sum of two elements.
    fn plus(&self, other: &Self) -> (r: Self)
        ensures
            r == self.combined(*other),
    ;
}

impl G1 {
    /// The generator times a scalar.
    pub fn generator_times(k: &Scalar) -> (r: G1)
        requires
            k.wf(),
        ensures
            r == g1_generator_times(k@),
    {
        g1_mul_generator(k)
    }

    /// The difference of two points.
    pub fn minus(&self, other: &G1) -> (r: G1)
        ensures
            r == g1_difference(*self, *other),
    {
        g1_sub(self, other)
    }

    /// The compressed canonical encoding of the point.
    pub fn to_bytes(&self) -> (r: Vec<u8>)
        ensures
            r@ == g1_encoding(*self),
    {
        g1_serialize(self)
    }

    /// The point that the bytes encode; `None` where they encode no point of the
    /// group.
    pub fn from_bytes(bytes: &Vec<u8>) -> (r: Option<G1>)
        ensures
            r == g1_decoding(bytes@),
    {
        g1_deserialize(bytes)
    }
}

impl Group for G1 {
    open spec fn scaled(self, k: int) -> G1 {
        g1_scaled(self, k)
    }

    open spec fn combined(self, other: G1) -> G1 {
        g1_sum(self, other)
    }

    fn times(&self, k: &Scalar) -> (r: G1) {
        g1_mul(self, k)
    }

    fn plus(&self, other: &G1) -> (r: G1) {
        g1_add(self, other)
    }
}

impl G2 {
    /// The generator times a scalar.
    pub fn generator_times(k: &Scalar) -> (r: G2)
        requires
            k.wf(),
        ensures
            r == g2_generator_times(k@),
    {
        g2_mul_generator(k)
    }

    /// The compressed canonical encoding of the point.
    pub fn to_bytes(&self) -> (r: Vec<u8>)
        ensures
            r@ == g2_encoding(*self),
    {
        g2_serialize(self)
    }

    /// The point that the bytes encode; `None` where they encode no point of the
    /// group.
    pub fn from_bytes(bytes: &Vec<u8>) -> (r: Option<G2>)
        ensures
            r == g2_decoding(bytes@),
    {
        g2_deserialize(bytes)
    }
}

impl Group for G2 {
    open spec fn scaled(self, k: int) -> G2 {
        g2_scaled(self, k)
    }

    open spec fn combined(self, other: G2) -> G2 {
        g2_sum(self, other)
    }

    fn times(&self, k: &Scalar) -> (r: G2) {
        g2_mul(self, k)
    }

    fn plus(&self, other: &G2) -> (r: G2) {
        g2_add(self, other)
    }
}

impl Gt {
    /// The sum of two elements.
    pub fn plus(&self, other: &Gt) -> (r: Gt)
        ensures
            r == gt_sum(*self, *other),
    {
        gt_add(self, other)
    }

    /// Whether two elements are the same.
    pub fn same(&self, other: &Gt) -> (r: bool)
        ensures
            r == (*self == *other),
    {
        gt_eq(self, other)
    }
}

/// The pairing of two points; `None` where the final exponentiation is not
/// defined.
pub fn pairing(p: &G1, q: &G2) -> (r: Option<Gt>)
    ensures
        r == pairing_value(*p, *q),
{
    miller_loop_and_exponentiation(p, q)
}

/// Trusted: `PrimeGroup::generator` and `Projective * Fr` of `ark_ec` depend on
/// the scalar alone.
#[verifier::external_body]
fn g1_mul_generator(k: &Scalar) -> (r: G1)
    requires
        k.wf(),
    ensures
        r == g1_generator_times(k@),
{
    let s = ark_mnt6_753::Fr::from_bigint(ark_ff::BigInt::new(k.limbs)).unwrap();
    G1 { point: ark_mnt6_753::G1Projective::generator() * s }
}

/// Trusted: `Projective * Fr` of `ark_ec` depends on the point and the scalar
/// alone.
#[verifier::external_body]
fn g1_mul(p: &G1, k: &Scalar) -> (r: G1)
    requires
        k.wf(),
    ensures
        r == g1_scaled(*p, k@),
{
    let s = ark_mnt6_753::Fr::from_bigint(ark_ff::BigInt::new(k.limbs)).unwrap();
    G1 { point: p.point * s }
}

/// Trusted: `Projective + Projective` of `ark_ec` depends on the two points alone.
#[verifier::external_body]
fn g1_add(a: &G1, b: &G1) -> (r: G1)
    ensures
        r == g1_sum(*a, *b),
{
    G1 { point: a.point + b.point }
}

/// Trusted: `Projective - Projective` of `ark_ec` depends on the two points alone.
#[verifier::external_body]
fn g1_sub(a: &G1, b: &G1) -> (r: G1)
    ensures
        r == g1_difference(*a, *b),
{
    G1 { point: a.point - b.point }
}

/// Trusted: `CanonicalSerialize::serialize_compressed` of `ark_serialize` into a
/// vector depends on the point alone; writing into a vector does not fail.
#[verifier::external_body]
fn g1_serialize(p: &G1) -> (r: Vec<u8>)
    ensures
        r@ == g1_encoding(*p),
{
    let mut bytes: Vec<u8> = Vec::new();
    let _ = p.point.serialize_compressed(&mut bytes);
    bytes
}

/// Trusted: `CanonicalDeserialize::deserialize_compressed` of `ark_serialize`
/// depends on the bytes alone.
#[verifier::external_body]
fn g1_deserialize(bytes: &Vec<u8>) -> (r: Option<G1>)
    ensures
        r == g1_decoding(bytes@),
{
    match ark_mnt6_753::G1Projective::deserialize_compressed(bytes.as_slice()) {
        Ok(point) => Some(G1 { point }),
        Err(_) => None,
    }
}

/// Trusted: `PrimeGroup::generator` and `Projective * Fr` of `ark_ec` depend on
/// the scalar alone.
#[verifier::external_body]
fn g2_mul_generator(k: &Scalar) -> (r: G2)
    requires
        k.wf(),
    ensures
        r == g2_generator_times(k@),
{
    let s = ark_mnt6_753::Fr::from_bigint(ark_ff::BigInt::new(k.limbs)).unwrap();
    G2 { point: ark_mnt6_753::G2Projective::generator() * s }
}

/// Trusted: `Projective * Fr` of `ark_ec` depends on the point and the scalar
/// alone.
#[verifier::external_body]
fn g2_mul(p: &G2, k: &Scalar) -> (r: G2)
    requires
        k.wf(),
    ensures
        r == g2_scaled(*p, k@),
{
    let s = ark_mnt6_753::Fr::from_bigint(ark_ff::BigInt::new(k.limbs)).unwrap();
    G2 { point: p.point * s }
}

/// Trusted: `Projective + Projective` of `ark_ec` depends on the two points alone.
#[verifier::external_body]
fn g2_add(a: &G2, b: &G2) -> (r: G2)
    ensures
        r == g2_sum(*a, *b),
{
    G2 { point: a.point + b.point }
}

/// Trusted: `CanonicalSerialize::serialize_compressed` of `ark_serialize` into a
/// vector depends on the point alone; writing into a vector does not fail.
#[verifier::external_body]
fn g2_serialize(p: &G2) -> (r: Vec<u8>)
    ensures
        r@ == g2_encoding(*p),
{
    let mut bytes: Vec<u8> = Vec::new();
    let _ = p.point.serialize_compressed(&mut bytes);
    bytes
}

/// Trusted: `CanonicalDeserialize::deserialize_compressed` of `ark_serialize`
/// depends on the bytes alone.
#[verifier::external_body]
fn g2_deserialize(bytes: &Vec<u8>) -> (r: Option<G2>)
    ensures
        r == g2_decoding(bytes@),
{
    match ark_mnt6_753::G2Projective::deserialize_compressed(bytes.as_slice()) {
        Ok(point) => Some(G2 { point }),
        Err(_) => None,
    }
}

/// Trusted: `Pairing::miller_loop` followed by `Pairing::final_exponentiation` of
/// `ark_ec`, which is what `Pairing::pairing` computes before it unwraps, depends
/// on the two points alone.
#[verifier::external_body]
fn miller_loop_and_exponentiation(p: &G1, q: &G2) -> (r: Option<Gt>)
    ensures
        r == pairing_value(*p, *q),
{
    let f = ark_mnt6_753::MNT6_753::miller_loop(p.point, q.point);
    match ark_mnt6_753::MNT6_753::final_exponentiation(f) {
        Some(value) => Some(Gt { value }),
        None => None,
    }
}

/// Trusted: `PairingOutput + PairingOutput` of `ark_ec` depends on the two
/// elements alone.
#[verifier::external_body]
fn gt_add(a: &Gt, b: &Gt) -> (r: Gt)
    ensures
        r == gt_sum(*a, *b),
{
    Gt { value: a.value + b.value }
}

/// Trusted: `PairingOutput == PairingOutput` of `ark_ec` compares the two
/// elements of the target field, coordinate by coordinate.
#[verifier::external_body]
fn gt_eq(a: &Gt, b: &Gt) -> (r: bool)
    ensures
        r == (*a == *b),
{
    a.value == b.value
}

} // verus!
