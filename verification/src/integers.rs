//! The integer types whose values can be given where scalars are meant.

use crate::field::Scalar;
use crate::field::lemma_modulus_bound;
use crate::field::modulus;
use crate::field::scalars_view;
use crate::field::scalars_wf;
use vstd::arithmetic::div_mod::lemma_small_mod;
use vstd::prelude::*;

verus! {

/// An integer type whose values stand for scalars, each for its residue modulo
/// the field order.
pub trait Integer: Copy {
    /// The integer that the value is.
    spec fn value(self) -> int;

    /// The scalar that the value stands for.
    fn to_scalar(self) -> (r: Scalar)
        ensures
            r@ == self.value() % modulus(),
            r.wf(),
    ;
}

impl Integer for u8 {
    open spec fn value(self) -> int {
        self as int
    }

    fn to_scalar(self) -> (r: Scalar) {
        unsigned_to_scalar(self as u128)
    }
}

impl Integer for u16 {
    open spec fn value(self) -> int {
        self as int
    }

    fn to_scalar(self) -> (r: Scalar) {
        unsigned_to_scalar(self as u128)
    }
}

impl Integer for u32 {
    open spec fn value(self) -> int {
        self as int
    }

    fn to_scalar(self) -> (r: Scalar) {
        unsigned_to_scalar(self as u128)
    }
}

impl Integer for u64 {
    open spec fn value(self) -> int {
        self as int
    }

    fn to_scalar(self) -> (r: Scalar) {
        unsigned_to_scalar(self as u128)
    }
}

impl Integer for u128 {
    open spec fn value(self) -> int {
        self as int
    }

    fn to_scalar(self) -> (r: Scalar) {
        unsigned_to_scalar(self)
    }
}

impl Integer for i8 {
    open spec fn value(self) -> int {
        self as int
    }

    fn to_scalar(self) -> (r: Scalar) {
        Scalar::from_i128(self as i128)
    }
}

impl Integer for i16 {
    open spec fn value(self) -> int {
        self as int
    }

    fn to_scalar(self) -> (r: Scalar) {
        Scalar::from_i128(self as i128)
    }
}

impl Integer for i32 {
    open spec fn value(self) -> int {
        self as int
    }

    fn to_scalar(self) -> (r: Scalar) {
        Scalar::from_i32(self)
    }
}

impl Integer for i64 {
    open spec fn value(self) -> int {
        self as int
    }

    fn to_scalar(self) -> (r: Scalar) {
        Scalar::from_i128(self as i128)
    }
}

impl Integer for i128 {
    open spec fn value(self) -> int {
        self as int
    }

    fn to_scalar(self) -> (r: Scalar) {
        Scalar::from_i128(self)
    }
}

impl Scalar {
    /// The element that stands for a signed integer: its residue modulo the field
    /// order.
    pub fn from_i128(x: i128) -> (r: Scalar)
        ensures
            r@ == (x as int) % modulus(),
            r.wf(),
    {
        if x >= 0 {
            unsigned_to_scalar(x as u128)
        } else {
            let below: u128 = (-(x + 1)) as u128;
            let magnitude: u128 = below + 1;
            Scalar::from_u128(magnitude).negated()
        }
    }
}

/// The element that stands for an unsigned integer, which is its own residue.
fn unsigned_to_scalar(x: u128) -> (r: Scalar)
    ensures
        r@ == (x as int) % modulus(),
        r.wf(),
{
    proof {
        lemma_modulus_bound();
        lemma_small_mod(x as nat, modulus() as nat);
    }
    Scalar::from_u128(x)
}

/// The scalars that stand for a vector of integers.
pub open spec fn residues<T: Integer>(v: Seq<T>) -> Seq<int> {
    Seq::new(v.len(), |i: int| v[i].value() % modulus())
}

/// The matrix of scalars that stands for a matrix of integers.
pub open spec fn matrix_residues<T: Integer>(m: Seq<Vec<T>>) -> Seq<Seq<int>> {
    Seq::new(m.len(), |i: int| residues(m[i]@))
}

/// The scalars that stand for a vector of integers.
pub fn scalars_from_ints<T: Integer>(v: &Vec<T>) -> (r: Vec<Scalar>)
    ensures
        scalars_view(r@) == residues(v@),
        scalars_wf(r@),
{
    let mut out: Vec<Scalar> = Vec::new();
    let mut i: usize = 0;
    while i < v.len()
        invariant
            i <= v.len(),
            out.len() == i,
            scalars_wf(out@),
            forall|j: int| 0 <= j < i ==> (#[trigger] out@[j])@ == v@[j].value() % modulus(),
        decreases v.len() - i,
    {
        out.push(v[i].to_scalar());
        i += 1;
    }
    assert(scalars_view(out@) =~= residues(v@));
    out
}

} // verus!
