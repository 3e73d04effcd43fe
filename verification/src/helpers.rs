//! Randomness for the setup and the prover.

use crate::field::Scalar;
use rand::Rng;
use rand::RngCore;
use rand::SeedableRng;
use vstd::prelude::*;

verus! {

#[verifier::external_type_specification]
#[verifier::external_body]
pub struct ExStdRng(rand::rngs::StdRng);

/// How many buffers `rand_scalar` draws before it gives up.
pub const SAMPLING_ATTEMPTS: u32 = 1_000_000;

/// How many bytes `rand_scalar` draws per buffer.
pub const BUFFER_SIZE: usize = 256;

/// The bound below which `rand_small_scalar` draws.
pub const SMALL_SCALAR_BOUND: i32 = 1000;

/// A generator seeded from the entropy of the operating system; `None` where the
/// system has none to give.
pub fn os_rng() -> (r: Option<rand::rngs::StdRng>) {
    rng_from_os()
}

/// A scalar drawn uniformly: buffers of 256 fresh random bytes are drawn until
/// the field accepts one of them as a scalar, which is returned; `None` if it
/// accepts none of `SAMPLING_ATTEMPTS` buffers. The generator says which are drawn.
pub fn rand_scalar(rng: &mut rand::rngs::StdRng) -> (r: Option<Scalar>)
    ensures
        exists|draws: Seq<Seq<u8>>| #[trigger]
            is_sampling_run(draws) && crate::field::scalar_option_view(r) == crate::field::random_bytes_value(draws.last()),
        r matches Some(s) ==> s.wf(),
{
    let mut attempt: u32 = 0;
    let ghost mut draws: Seq<Seq<u8>> = Seq::empty();
    while attempt < SAMPLING_ATTEMPTS
        invariant
            attempt <= SAMPLING_ATTEMPTS,
            draws.len() == attempt,
            forall|i: int| 0 <= i < draws.len() ==> (#[trigger] draws[i]).len() == BUFFER_SIZE,
            forall|i: int| 0 <= i < draws.len() ==> crate::field::random_bytes_value(#[trigger] draws[i]) is None,
        decreases SAMPLING_ATTEMPTS - attempt,
    {
        let bytes = rng_fill(rng, BUFFER_SIZE);
        let candidate = Scalar::from_random_bytes(bytes.as_slice());
        proof {
            draws = draws.push(bytes@);
        }
        if candidate.is_some() {
            proof {
                assert(is_sampling_run(draws));
            }
            return candidate;
        }
        attempt += 1;
    }
    proof {
        assert(is_sampling_run(draws));
    }
    None
}

/// The buffers that one run of the sampler draws: at least one and at most
/// `SAMPLING_ATTEMPTS`, of `BUFFER_SIZE` bytes each; every buffer but the last is
/// rejected by the field, and the run ends before `SAMPLING_ATTEMPTS` buffers
/// only with one that the field accepts.
pub open spec fn is_sampling_run(draws: Seq<Seq<u8>>) -> bool {
    &&& 1 <= draws.len() <= SAMPLING_ATTEMPTS
    &&& forall|i: int| 0 <= i < draws.len() ==> (#[trigger] draws[i]).len() == BUFFER_SIZE
    &&& forall|i: int|
        0 <= i < draws.len() - 1 ==> crate::field::random_bytes_value(#[trigger] draws[i]) is None
    &&& (crate::field::random_bytes_value(draws.last()) is Some || draws.len() == SAMPLING_ATTEMPTS)
}

/// A small scalar for the probabilistic check of a program: an integer drawn from
/// `0..SMALL_SCALAR_BOUND`. Not for cryptographic use.
pub fn rand_small_scalar(rng: &mut rand::rngs::StdRng) -> (r: Scalar)
    ensures
        0 <= r@ < SMALL_SCALAR_BOUND,
        r.wf(),
{
    let x = rng_below(rng, SMALL_SCALAR_BOUND);
    proof {
        crate::field::lemma_modulus_bound();
        vstd::arithmetic::div_mod::lemma_small_mod(x as nat, crate::field::modulus() as nat);
    }
    Scalar::from_i32(x)
}

/// The three matrices, each a vector of columns, of the circuit with the eight
/// witness slots `[1, r, x, y, z, u, x*y, z*u]` and the three constraints
/// `x*y = v1`, `z*u = v2`, `v1*v2 = r`.
pub fn r1cs_matrices() -> (m: (Vec<Vec<i32>>, Vec<Vec<i32>>, Vec<Vec<i32>>))
    ensures
        m.0@.len() == 8,
        m.1@.len() == 8,
        m.2@.len() == 8,
        forall|i: int| 0 <= i < 8 ==> (#[trigger] m.0@[i])@ == left_column(i),
        forall|i: int| 0 <= i < 8 ==> (#[trigger] m.1@[i])@ == right_column(i),
        forall|i: int| 0 <= i < 8 ==> (#[trigger] m.2@[i])@ == output_column(i),
{
    let l = vec![
        vec![0i32, 0i32, 0i32],
        vec![0i32, 0i32, 0i32],
        vec![1i32, 0i32, 0i32],
        vec![0i32, 0i32, 0i32],
        vec![0i32, 1i32, 0i32],
        vec![0i32, 0i32, 0i32],
        vec![0i32, 0i32, 1i32],
        vec![0i32, 0i32, 0i32],
    ];
    let r = vec![
        vec![0i32, 0i32, 0i32],
        vec![0i32, 0i32, 0i32],
        vec![0i32, 0i32, 0i32],
        vec![1i32, 0i32, 0i32],
        vec![0i32, 0i32, 0i32],
        vec![0i32, 1i32, 0i32],
        vec![0i32, 0i32, 0i32],
        vec![0i32, 0i32, 1i32],
    ];
    let o = vec![
        vec![0i32, 0i32, 0i32],
        vec![0i32, 0i32, 1i32],
        vec![0i32, 0i32, 0i32],
        vec![0i32, 0i32, 0i32],
        vec![0i32, 0i32, 0i32],
        vec![0i32, 0i32, 0i32],
        vec![1i32, 0i32, 0i32],
        vec![0i32, 1i32, 0i32],
    ];
    proof {
        assert forall|i: int| 0 <= i < 8 implies (#[trigger] l@[i])@ == left_column(i) by {
            assert(l@[i]@ =~= left_column(i));
        }
        assert forall|i: int| 0 <= i < 8 implies (#[trigger] r@[i])@ == right_column(i) by {
            assert(r@[i]@ =~= right_column(i));
        }
        assert forall|i: int| 0 <= i < 8 implies (#[trigger] o@[i])@ == output_column(i) by {
            assert(o@[i]@ =~= output_column(i));
        }
    }
    (l, r, o)
}

/// A column of three entries with a one in the given row, if any.
pub open spec fn unit_column(row: int) -> Seq<i32> {
    Seq::new(
        3,
        |j: int|
            if j == row {
                1i32
            } else {
                0i32
            },
    )
}

/// Column `i` of the left matrix: `x`, `z` and `x*y` enter the three products.
pub open spec fn left_column(i: int) -> Seq<i32> {
    if i == 2 {
        unit_column(0)
    } else if i == 4 {
        unit_column(1)
    } else if i == 6 {
        unit_column(2)
    } else {
        unit_column(-1)
    }
}

/// Column `i` of the right matrix: `y`, `u` and `z*u` enter the three products.
pub open spec fn right_column(i: int) -> Seq<i32> {
    if i == 3 {
        unit_column(0)
    } else if i == 5 {
        unit_column(1)
    } else if i == 7 {
        unit_column(2)
    } else {
        unit_column(-1)
    }
}

/// Column `i` of the output matrix: the products are `x*y`, `z*u` and `r`.
pub open spec fn output_column(i: int) -> Seq<i32> {
    if i == 6 {
        unit_column(0)
    } else if i == 7 {
        unit_column(1)
    } else if i == 1 {
        unit_column(2)
    } else {
        unit_column(-1)
    }
}

/// Trusted: `SeedableRng::try_from_os_rng` of `rand` seeds a generator from the
/// operating system, or reports that it cannot.
#[verifier::external_body]
fn rng_from_os() -> (r: Option<rand::rngs::StdRng>) {
    rand::rngs::StdRng::try_from_os_rng().ok()
}

/// Trusted: `RngCore::fill_bytes` of `rand` fills the whole buffer it is given;
/// a vector of at most `isize::MAX` bytes can be asked for.
#[verifier::external_body]
fn rng_fill(rng: &mut rand::rngs::StdRng, len: usize) -> (bytes: Vec<u8>)
    requires
        len <= isize::MAX,
    ensures
        bytes@.len() == len,
{
    let mut bytes = vec![0u8; len];
    rng.fill_bytes(&mut bytes);
    bytes
}

/// Trusted: `Rng::random_range` of `rand` returns a value of the range it is
/// given, which must not be empty.
#[verifier::external_body]
fn rng_below(rng: &mut rand::rngs::StdRng, bound: i32) -> (r: i32)
    requires
        bound > 0,
    ensures
        0 <= r < bound,
{
    rng.random_range(0..bound)
}

} // verus!
