//! Completeness: for a witness that satisfies the constraint system, the prover
//! emits a proof that the verifier accepts.
//!
//! Two inputs are left out, on which the protocol as it stands fails: a witness
//! whose quotient `H` is the zero polynomial, for which the prover finds no
//! coefficient to evaluate, and points for which the pairing is not defined. The
//! statement rests on two hypotheses that say what the collaborators are: the
//! scalars form a field (`scalars_form_a_field`) and the groups are those of a
//! pairing (`is_pairing_model`).

use crate::algebra::in_field;
use crate::algebra::long_div_quotient;
use crate::algebra::poly_mul;
use crate::algebra::poly_sub;
use crate::algebra::vanishing;
use crate::circuits::interpolated;
use crate::circuits::lemma_longest_of_equal_lengths;
use crate::circuits::lemma_max_degree_of_equal_lengths;
use crate::circuits::lemma_weighted_sum_len;
use crate::circuits::matrix_shape;
use crate::circuits::satisfies;
use crate::circuits::smaller;
use crate::circuits::weighted_sum;
use crate::curve::G1;
use crate::curve::G2;
use crate::curve::Group;
use crate::curve::Gt;
use crate::curve::pairing_value;
use crate::division_laws::is_unit;
use crate::division_laws::lemma_quotient_len;
use crate::error::Failure;
use crate::field::modulus;
use crate::field::scalars_view;
use crate::groth16::Proof;
use crate::groth16::TrustedSetupOutput;
use crate::groth16::commitment;
use crate::groth16::evaluations;
use crate::groth16::expected_proof;
use crate::groth16::lemma_evaluations_len;
use crate::groth16::program_degree;
use crate::groth16::proof_accepted;
use crate::groth16::psi_poly;
use crate::groth16::published;
use crate::groth16::quotient_polynomial;
use crate::groth16::secrets_in_field;
use crate::groth16::slot_divisor;
use crate::interpolation_laws::lemma_interpolation_len;
use crate::interpolation_laws::lemma_vanishing_shape;
use crate::polynomial::polynomials_view;
use crate::polynomial::srs_combination;
use crate::polynomial::srs_value;
use crate::protocol_laws::is_pairing_model;
use crate::protocol_laws::lemma_emitted_proofs_are_accepted;
use crate::protocol_laws::lemma_psi_entries_entries;
use crate::qap_laws::lemma_satisfying_witness_has_exact_quotient;
use crate::qap_laws::scalars_form_a_field;
use crate::ring_laws::lemma_poly_mul_len;
use crate::ring_laws::lemma_trim_len;
use vstd::prelude::*;

verus! {

/// The setup is that of the program of a constraint system with
/// `n_constraints` rows and one column for every entry of the witness `a`, with
/// the given secrets, and `a` satisfies the system, begins with its public
/// witness and has an entry after it.
pub open spec fn is_setup_of_satisfied_system(
    setup: TrustedSetupOutput,
    alpha: int,
    beta: int,
    tau: int,
    gamma: int,
    delta: int,
    l: Seq<Seq<int>>,
    r: Seq<Seq<int>>,
    o: Seq<Seq<int>>,
    a: Seq<int>,
    n_constraints: int,
) -> bool {
    &&& 1 <= n_constraints < 0x1_0000_0000_0000_0000_0000_0000_0000_0000
    &&& matrix_shape(l, a.len() as int, n_constraints)
    &&& matrix_shape(r, a.len() as int, n_constraints)
    &&& matrix_shape(o, a.len() as int, n_constraints)
    &&& forall|i: int| 0 <= i < l.len() ==> in_field(#[trigger] l[i])
    &&& forall|i: int| 0 <= i < r.len() ==> in_field(#[trigger] r[i])
    &&& forall|i: int| 0 <= i < o.len() ==> in_field(#[trigger] o[i])
    &&& in_field(a)
    &&& satisfies(l, r, o, a, n_constraints)
    &&& setup.qap.wf()
    &&& polynomials_view(setup.qap.u@) == interpolated(l)
    &&& polynomials_view(setup.qap.v@) == interpolated(r)
    &&& polynomials_view(setup.qap.w@) == interpolated(o)
    &&& secrets_in_field(alpha, beta, tau, gamma, delta)
    &&& published(setup, setup.qap, alpha, beta, tau, gamma, delta)
    &&& setup.qap.public_witness@.len() < a.len()
    &&& forall|i: int|
        0 <= i < setup.qap.public_witness@.len() ==> a[i] == (
        #[trigger] setup.qap.public_witness@[i])@
}

/// The pairings of the verification equation are defined for the proof.
pub open spec fn pairings_defined(proof: Proof, setup: TrustedSetupOutput) -> bool {
    &&& pairing_value(proof.a, proof.b) is Some
    &&& pairing_value(setup.alpha, setup.beta_2) is Some
    &&& pairing_value(proof.c, setup.delta_2) is Some
    &&& setup.qap.public_witness@.len() > 0 ==> pairing_value(
        srs_combination(
            scalars_view(setup.qap.public_witness@),
            setup.psi_polynomials@,
            setup.qap.public_witness@.len() as int,
        ),
        setup.gamma,
    ) is Some
}

/// The interpolations of the columns of a matrix of `n_constraints` rows have
/// `n_constraints` coefficients each.
pub proof fn lemma_interpolated_lengths(m: Seq<Seq<int>>, n_witness: int, n_constraints: int)
    requires
        matrix_shape(m, n_witness, n_constraints),
    ensures
        interpolated(m).len() == n_witness,
        forall|i: int| 0 <= i < n_witness ==> (#[trigger] interpolated(m)[i]).len() == n_constraints,
{
    assert forall|i: int| 0 <= i < n_witness implies (#[trigger] interpolated(m)[i]).len()
        == n_constraints by {
        assert(m[i].len() == n_constraints);
        lemma_interpolation_len(m[i]);
    }
}

/// Polynomials that are neither without coefficients nor longer than the
/// reference string can all be combined with it.
pub proof fn lemma_evaluations_succeed<T: Group>(polys: Seq<Seq<int>>, srs: Seq<T>, n: int)
    requires
        0 <= n <= polys.len(),
        forall|i: int| 0 <= i < polys.len() ==> 1 <= (#[trigger] polys[i]).len() <= srs.len(),
    ensures
        evaluations(polys, srs, n) is Ok,
    decreases n,
{
    if n > 0 {
        lemma_evaluations_succeed(polys, srs, n - 1);
        assert(1 <= polys[n - 1].len() <= srs.len());
    }
}

/// For a witness that satisfies the system, the prover emits a proof unless the
/// quotient is the zero polynomial, which it reports as a polynomial without
/// coefficients.
pub proof fn lemma_honest_prover_succeeds(
    setup: TrustedSetupOutput,
    alpha: int,
    beta: int,
    tau: int,
    gamma: int,
    delta: int,
    l: Seq<Seq<int>>,
    r: Seq<Seq<int>>,
    o: Seq<Seq<int>>,
    a: Seq<int>,
    n_constraints: int,
    blind_r: int,
    blind_s: int,
)
    requires
        scalars_form_a_field(),
        is_setup_of_satisfied_system(
            setup,
            alpha,
            beta,
            tau,
            gamma,
            delta,
            l,
            r,
            o,
            a,
            n_constraints,
        ),
    ensures
        expected_proof(setup, a, blind_r, blind_s) is Ok || expected_proof(
            setup,
            a,
            blind_r,
            blind_s,
        ) == Err::<Proof, Failure>(Failure::NoCoefficients),
        program_degree(setup.qap) == n_constraints,
        setup.qap.u@.len() == a.len(),
        setup.qap.v@.len() == a.len(),
        setup.qap.w@.len() == a.len(),
{
    let n = a.len() as int;
    let d = n_constraints;
    let u = polynomials_view(setup.qap.u@);
    let v = polynomials_view(setup.qap.v@);
    let w = polynomials_view(setup.qap.w@);
    lemma_interpolated_lengths(l, n, d);
    lemma_interpolated_lengths(r, n, d);
    lemma_interpolated_lengths(o, n, d);
    lemma_max_degree_of_equal_lengths(u, n, d);
    lemma_max_degree_of_equal_lengths(v, n, d);
    lemma_max_degree_of_equal_lengths(w, n, d);
    assert(program_degree(setup.qap) == d);
    let srs1 = setup.group_1_srs@;
    let srs2 = setup.group_2_srs@;
    let zs = setup.zero_polynomial_srs@;
    let psi = setup.psi_polynomials@;
    // the commitments
    lemma_evaluations_succeed(u, srs1, n);
    lemma_evaluations_succeed(v, srs2, n);
    lemma_evaluations_succeed(v, srs1, n);
    lemma_evaluations_len(u, srs1, n);
    lemma_evaluations_len(v, srs2, n);
    lemma_evaluations_len(v, srs1, n);
    assert(commitment(u, srs1, a) is Ok);
    assert(commitment(v, srs2, a) is Ok);
    assert(commitment(v, srs1, a) is Ok);
    // the quotient
    lemma_satisfying_witness_has_exact_quotient(l, r, o, a, d);
    assert(smaller(n, n) == n);
    let h = quotient_polynomial(u, v, w, a, d)->Ok_0;
    let au = weighted_sum(u, a, n);
    let av = weighted_sum(v, a, n);
    let aw = weighted_sum(w, a, n);
    let numerator = poly_sub(poly_mul(au, av), aw);
    lemma_weighted_sum_len(u, a, n);
    lemma_weighted_sum_len(v, a, n);
    lemma_weighted_sum_len(w, a, n);
    lemma_longest_of_equal_lengths(u, n, d);
    lemma_longest_of_equal_lengths(v, n, d);
    lemma_longest_of_equal_lengths(w, n, d);
    lemma_poly_mul_len(au, av);
    lemma_vanishing_shape(d);
    lemma_quotient_len(numerator, vanishing(d));
    lemma_trim_len(long_div_quotient(numerator, vanishing(d)));
    assert(h.len() <= d - 1);
    assert(zs.len() == d - 1);
    assert(psi.len() == n);
}

/// Completeness of the protocol.
///
/// For the setup of the program of a constraint system and a witness that
/// satisfies the system, whatever the blinding scalars: the prover emits a proof,
/// unless the quotient is the zero polynomial; and the verifier accepts the proof
/// for the public witness, where the pairings of the verification equation are
/// defined.
pub proof fn lemma_completeness(
    setup: TrustedSetupOutput,
    alpha: int,
    beta: int,
    tau: int,
    gamma: int,
    delta: int,
    l: Seq<Seq<int>>,
    r: Seq<Seq<int>>,
    o: Seq<Seq<int>>,
    a: Seq<int>,
    n_constraints: int,
    blind_r: int,
    blind_s: int,
    log1: spec_fn(G1) -> int,
    log2: spec_fn(G2) -> int,
    logt: spec_fn(Gt) -> int,
)
    requires
        scalars_form_a_field(),
        is_pairing_model(log1, log2, logt),
        is_setup_of_satisfied_system(
            setup,
            alpha,
            beta,
            tau,
            gamma,
            delta,
            l,
            r,
            o,
            a,
            n_constraints,
        ),
        0 <= blind_r < modulus(),
        0 <= blind_s < modulus(),
    ensures
        match expected_proof(setup, a, blind_r, blind_s) {
            Ok(proof) => pairings_defined(proof, setup) ==> proof_accepted(
                proof,
                setup.alpha,
                setup.beta_2,
                setup.gamma,
                setup.delta_2,
                setup.psi_polynomials@,
                scalars_view(setup.qap.public_witness@),
            ),
            Err(e) => e == Failure::NoCoefficients,
        },
{
    lemma_honest_prover_succeeds(
        setup,
        alpha,
        beta,
        tau,
        gamma,
        delta,
        l,
        r,
        o,
        a,
        n_constraints,
        blind_r,
        blind_s,
    );
    if expected_proof(setup, a, blind_r, blind_s) is Ok {
        let proof = expected_proof(setup, a, blind_r, blind_s)->Ok_0;
        if pairings_defined(proof, setup) {
            // the divisors are not zero, so they have inverses
            let n = a.len() as int;
            let public_len = setup.qap.public_witness@.len() as int;
            assert(smaller(smaller(n, n), n) == n);
            lemma_psi_entries_entries(
                polynomials_view(setup.qap.u@),
                polynomials_view(setup.qap.v@),
                polynomials_view(setup.qap.w@),
                public_len,
                setup.group_1_srs@,
                alpha,
                beta,
                gamma,
                delta,
                n,
                setup.psi_polynomials@,
            );
            let u = polynomials_view(setup.qap.u@);
            let v = polynomials_view(setup.qap.v@);
            let w = polynomials_view(setup.qap.w@);
            let srs1 = setup.group_1_srs@;
            assert(srs_value(psi_poly(u[n - 1], v[n - 1], w[n - 1], alpha, beta), srs1) is Ok);
            assert(slot_divisor(n - 1, public_len, gamma, delta) != 0);
            assert(is_unit(delta));
            if public_len > 0 {
                assert(srs_value(psi_poly(u[0], v[0], w[0], alpha, beta), srs1) is Ok);
                assert(slot_divisor(0, public_len, gamma, delta) != 0);
                assert(is_unit(gamma));
            }
            lemma_emitted_proofs_are_accepted(
                setup,
                alpha,
                beta,
                tau,
                gamma,
                delta,
                a,
                blind_r,
                blind_s,
                proof,
                log1,
                log2,
                logt,
            );
        }
    }
}

/// What the prover returns for a witness that satisfies the system.
///
/// `TrustedSetupOutput::prove` promises that its result is what some pair of
/// blinding scalars gives. Under the hypotheses of completeness that is enough:
/// a proof that it returns is accepted by the verifier for the public witness,
/// where the pairings of the verification equation are defined.
pub proof fn lemma_returned_proof_is_accepted(
    setup: TrustedSetupOutput,
    alpha: int,
    beta: int,
    tau: int,
    gamma: int,
    delta: int,
    l: Seq<Seq<int>>,
    r: Seq<Seq<int>>,
    o: Seq<Seq<int>>,
    a: Seq<int>,
    n_constraints: int,
    proof: Proof,
    log1: spec_fn(G1) -> int,
    log2: spec_fn(G2) -> int,
    logt: spec_fn(Gt) -> int,
)
    requires
        scalars_form_a_field(),
        is_pairing_model(log1, log2, logt),
        is_setup_of_satisfied_system(
            setup,
            alpha,
            beta,
            tau,
            gamma,
            delta,
            l,
            r,
            o,
            a,
            n_constraints,
        ),
        exists|blind_r: int, blind_s: int|
            0 <= blind_r < modulus() && 0 <= blind_s < modulus() && #[trigger] expected_proof(
                setup,
                a,
                blind_r,
                blind_s,
            ) == Ok::<Proof, Failure>(proof),
        pairings_defined(proof, setup),
    ensures
        proof_accepted(
            proof,
            setup.alpha,
            setup.beta_2,
            setup.gamma,
            setup.delta_2,
            setup.psi_polynomials@,
            scalars_view(setup.qap.public_witness@),
        ),
{
    let (blind_r, blind_s) = choose|blind_r: int, blind_s: int|
        0 <= blind_r < modulus() && 0 <= blind_s < modulus() && #[trigger] expected_proof(
            setup,
            a,
            blind_r,
            blind_s,
        ) == Ok::<Proof, Failure>(proof);
    lemma_completeness(
        setup,
        alpha,
        beta,
        tau,
        gamma,
        delta,
        l,
        r,
        o,
        a,
        n_constraints,
        blind_r,
        blind_s,
        log1,
        log2,
        logt,
    );
}

} // verus!
