//! The ways in which an operation of this library fails.

use crate::polynomial::Polynomial;
use vstd::prelude::*;

verus! {

/// A step of an operation that names itself on the failure it passes on.
#[derive(Clone, Copy, Debug, PartialEq, Eq)]
pub enum Operation {
    /// A step of long division: the highest term of the remainder is divided by
    /// that of the divisor.
    DividingLead,
    /// A polynomial is combined with the reference string of the first group.
    EvaluatingOverSrs,
    /// The reference string of the vanishing polynomial is made.
    ZeroPolynomialSrs,
}

/// Why an operation failed.
#[derive(Debug, PartialEq, Eq)]
pub enum Error {
    /// A constraint matrix, or the witness, has no columns to combine.
    EmptyMatrix,
    /// The witness has no slot outside the public prefix.
    EmptyWitness,
    /// The witness is not as long as the vectors of the program; both lengths are
    /// attached.
    WitnessSizeMismatch { witness_len: usize, expected: usize },
    /// The reference string has fewer elements than the polynomial has
    /// coefficients; both numbers are attached.
    SrsTooSmall { srs_len: usize, coefficients: usize },
    /// The polynomial has no coefficients.
    NoCoefficients,
    /// The divisor is the zero polynomial, a polynomial whose highest coefficient
    /// is zero, or the zero scalar.
    DivisionByZero,
    /// The division is not exact; the remainder is attached.
    NonZeroRemainder { remainder: Polynomial },
    /// The program has no constraints.
    DegreeZeroQAP,
    /// The operating system gave no entropy, or no sample was accepted.
    RandomnessUnavailable,
    /// A step of an operation failed; the step and its failure are attached.
    Within { operation: Operation, cause: Box<Error> },
}

/// The model of a failure: the error with the model of what it carries.
pub enum Failure {
    EmptyMatrix,
    EmptyWitness,
    WitnessSizeMismatch { witness_len: nat, expected: nat },
    SrsTooSmall { srs_len: nat, coefficients: nat },
    NoCoefficients,
    DivisionByZero,
    NonZeroRemainder(Seq<int>),
    DegreeZeroQAP,
    RandomnessUnavailable,
    Within(Operation, Box<Failure>),
}

impl View for Error {
    type V = Failure;

    open spec fn view(&self) -> Failure {
        self.model()
    }
}

impl Error {
    /// The model of the error.
    pub open spec fn model(&self) -> Failure
        decreases self,
    {
        match *self {
            Error::EmptyMatrix => Failure::EmptyMatrix,
            Error::EmptyWitness => Failure::EmptyWitness,
            Error::WitnessSizeMismatch { witness_len, expected } => Failure::WitnessSizeMismatch {
                witness_len: witness_len as nat,
                expected: expected as nat,
            },
            Error::SrsTooSmall { srs_len, coefficients } => Failure::SrsTooSmall {
                srs_len: srs_len as nat,
                coefficients: coefficients as nat,
            },
            Error::NoCoefficients => Failure::NoCoefficients,
            Error::DivisionByZero => Failure::DivisionByZero,
            Error::NonZeroRemainder { remainder } => Failure::NonZeroRemainder(remainder@),
            Error::DegreeZeroQAP => Failure::DegreeZeroQAP,
            Error::RandomnessUnavailable => Failure::RandomnessUnavailable,
            Error::Within { operation, cause } => Failure::Within(operation, Box::new(cause.model())),
        }
    }
}

/// The failure of a step, under the name of the step; a success as it is.
pub open spec fn within<T>(operation: Operation, r: Result<T, Failure>) -> Result<T, Failure> {
    match r {
        Ok(x) => Ok(x),
        Err(e) => Err(Failure::Within(operation, Box::new(e))),
    }
}

impl Failure {
    /// The failure at the bottom: the one that no step has passed on.
    pub open spec fn root(self) -> Failure
        decreases self,
    {
        match self {
            Failure::Within(_, cause) => cause.root(),
            _ => self,
        }
    }
}

impl Operation {
    /// The name of the step.
    pub open spec fn spec_name(&self) -> &'static str {
        match self {
            Operation::DividingLead => "Dividing lead",
            Operation::EvaluatingOverSrs => "Evaluating over group_1_srs",
            Operation::ZeroPolynomialSrs => "Calculating zero polynomial SRS",
        }
    }

    /// The name of the step.
    pub fn name(&self) -> (r: &'static str)
        ensures
            r == self.spec_name(),
    {
        match self {
            Operation::DividingLead => "Dividing lead",
            Operation::EvaluatingOverSrs => "Evaluating over group_1_srs",
            Operation::ZeroPolynomialSrs => "Calculating zero polynomial SRS",
        }
    }
}

/// The model of a result that carries plain data: the value, or the model of the
/// error.
pub open spec fn outcome<T>(r: Result<T, Error>) -> Result<T, Failure> {
    match r {
        Ok(x) => Ok(x),
        Err(e) => Err(e@),
    }
}

/// The model of a result that carries a vector: its elements, or the model of the
/// error.
pub open spec fn vec_outcome<T>(r: Result<Vec<T>, Error>) -> Result<Seq<T>, Failure> {
    match r {
        Ok(x) => Ok(x@),
        Err(e) => Err(e@),
    }
}

/// The model of a result that carries a polynomial: its coefficients, or the
/// model of the error.
pub open spec fn poly_outcome(r: Result<Polynomial, Error>) -> Result<Seq<int>, Failure> {
    match r {
        Ok(x) => Ok(x@),
        Err(e) => Err(e@),
    }
}

impl Error {
    /// This failure, passed on by the given step.
    pub fn within(self, operation: Operation) -> (r: Error)
        ensures
            r@ == Failure::Within(operation, Box::new(self@)),
    {
        Error::Within { operation, cause: Box::new(self) }
    }

    /// The failure at the bottom: the one that no step has passed on.
    pub fn root(&self) -> (r: &Error)
        ensures
            r@ == self@.root(),
        decreases self,
    {
        match self {
            Error::Within { cause, .. } => cause.root(),
            _ => self,
        }
    }

    /// A short description of the failure: of a failure that a step has passed
    /// on, the name of the step.
    pub open spec fn spec_message(&self) -> &'static str {
        match self {
            Error::EmptyMatrix => "Empty vec",
            Error::EmptyWitness => "Empty witness",
            Error::WitnessSizeMismatch { .. } => "Witness wrong size for QAP",
            Error::SrsTooSmall { .. } => "SRS too small for polynomial",
            Error::NoCoefficients => "Polynomial has no coefficients",
            Error::DivisionByZero => "Divisor is zero",
            Error::NonZeroRemainder { .. } => "Non zero remainder",
            Error::DegreeZeroQAP => "QAP has degree zero",
            Error::RandomnessUnavailable => "No randomness available",
            Error::Within { operation, .. } => operation.spec_name(),
        }
    }

    /// A short description of the failure: of a failure that a step has passed
    /// on, the name of the step.
    pub fn message(&self) -> (r: &'static str)
        ensures
            r == self.spec_message(),
    {
        match self {
            Error::EmptyMatrix => "Empty vec",
            Error::EmptyWitness => "Empty witness",
            Error::WitnessSizeMismatch { .. } => "Witness wrong size for QAP",
            Error::SrsTooSmall { .. } => "SRS too small for polynomial",
            Error::NoCoefficients => "Polynomial has no coefficients",
            Error::DivisionByZero => "Divisor is zero",
            Error::NonZeroRemainder { .. } => "Non zero remainder",
            Error::DegreeZeroQAP => "QAP has degree zero",
            Error::RandomnessUnavailable => "No randomness available",
            Error::Within { operation, .. } => operation.name(),
        }
    }
}

} // verus!
