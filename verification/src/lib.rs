//! Groth16 over the MNT6-753 pairing.
//!
//! A circuit is given as a rank-1 constraint system ([`circuits::R1CS`]), turned
//! into a quadratic arithmetic program ([`circuits::QAP`]) by interpolation, and
//! set up once ([`groth16::TrustedSetupOutput`]); the setup then proves knowledge
//! of a witness with three points ([`groth16::Proof`]), which are verified with a
//! pairing equation.
//!
//! **This library is of academic interest only: it has not been audited, and is
//! not to be used where security matters.**
//!
//! The arithmetic of the scalar field and of the curve is that of `ark_ff` and
//! `ark_ec`. Scalars are modelled as integers modulo the order of the field
//! ([`field`]); points are carried through unread ([`curve`]). Polynomials are
//! modelled as sequences of scalars ([`algebra`]), and every operation of
//! [`polynomial::Polynomial`] says what it computes in this model. Integers of
//! any width stand for their residues where scalars are meant ([`integers`]). A
//! failure carries the values that caused it and names the steps that passed it
//! on ([`error`]).
//!
//! What is proved of the model:
//!
//! * evaluation is a ring homomorphism ([`eval_laws`]),
//! * addition and multiplication are associative ([`ring_laws`]),
//! * exact division undoes multiplication, and is sound ([`division_laws`]),
//! * interpolation takes the given values on its domain, on which the vanishing
//!   polynomial is zero ([`interpolation_laws`]),
//! * a constraint system accepts exactly the witnesses that satisfy it, and the
//!   vanishing polynomial divides the numerator of every such witness
//!   ([`circuits`], [`qap_laws`]),
//! * relative to what a pairing promises of its groups: evaluation over a
//!   reference string is evaluation at the hidden point, and every proof that the
//!   prover emits is accepted ([`pairing_laws`], [`protocol_laws`],
//!   [`completeness`]).

pub mod algebra;
pub mod circuits;
pub mod completeness;
pub mod congruence;
pub mod curve;
pub mod division_laws;
pub mod error;
pub mod eval_laws;
pub mod field;
pub mod groth16;
pub mod helpers;
pub mod integers;
pub mod interpolation_laws;
pub mod pairing_laws;
pub mod polynomial;
pub mod protocol_laws;
pub mod qap_laws;
pub mod ring_laws;
pub mod sums;
