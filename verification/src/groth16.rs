//! The Groth16 protocol: trusted setup, prover and verifier.

use crate::algebra::degree;
use crate::algebra::monomial;
use crate::algebra::poly_add;
use crate::algebra::poly_div;
use crate::algebra::poly_eval;
use crate::algebra::poly_mul;
use crate::algebra::poly_scale;
use crate::algebra::poly_scale_div;
use crate::algebra::poly_sub;
use crate::algebra::root_factor;
use crate::algebra::vanishing;
use crate::circuits::QAP;
use crate::circuits::lemma_longest_monotonic;
use crate::circuits::lemma_weighted_sum_len;
use crate::circuits::smaller;
use crate::circuits::weighted_polynomial_sum;
use crate::circuits::weighted_sum;
use crate::curve::G1;
use crate::curve::G2;
use crate::curve::Group;
use crate::curve::g1_difference;
use crate::curve::g1_generator_times;
use crate::curve::g2_generator_times;
use crate::curve::gt_sum;
use crate::curve::pairing;
use crate::curve::pairing_value;
use crate::error::Error;
use crate::error::Failure;
use crate::error::Operation;
use crate::error::outcome;
use crate::error::poly_outcome;
use crate::error::vec_outcome;
use crate::error::within;
use crate::field::Scalar;
use crate::field::field_div;
use crate::field::field_mul;
use crate::field::field_pow;
use crate::field::modulus;
use crate::field::scalars_view;
use crate::field::scalars_wf;
use crate::helpers::os_rng;
use crate::helpers::rand_scalar;
use crate::interpolation_laws::lemma_vanishing_is_zero_on_domain;
use crate::polynomial::Polynomial;
use crate::polynomial::polynomials_view;
use crate::polynomial::polynomials_wf;
use crate::polynomial::srs_combination;
use crate::polynomial::srs_value;
use crate::ring_laws::lemma_poly_mul_len;
use vstd::prelude::*;

verus! {

/// The structured reference string of the first group: entry `i` is the
/// generator times `tau^i`.
pub open spec fn g1_srs(tau: int, n: int) -> Seq<G1> {
    Seq::new(n as nat, |i: int| g1_generator_times(field_pow(tau, i as nat)))
}

/// The structured reference string of the second group: entry `i` is the
/// generator times `tau^i`.
pub open spec fn g2_srs(tau: int, n: int) -> Seq<G2> {
    Seq::new(n as nat, |i: int| g2_generator_times(field_pow(tau, i as nat)))
}

/// The vanishing polynomial of the domain `1..=d`, which needs `d` to be at
/// least 1.
pub open spec fn vanishing_outcome(d: int) -> Result<Seq<int>, Failure> {
    if d <= 0 {
        Err(Failure::DegreeZeroQAP)
    } else {
        Ok(vanishing(d))
    }
}

/// The polynomial `x^i · t(x) / delta`, with `t` the vanishing polynomial of
/// `1..=d`.
pub open spec fn z_poly(d: int, i: int, delta: int) -> Seq<int> {
    poly_scale_div(poly_mul(vanishing(d), monomial(i)), delta)
}

/// The first `m` entries of the reference string of the vanishing polynomial:
/// entry `i` combines the given string with `x^i · t(x) / delta`. The first entry
/// that cannot be made decides the failure; where the combination fails, the
/// failure names that step.
pub open spec fn z_srs(d: int, delta: int, srs: Seq<G1>, m: int) -> Result<Seq<G1>, Failure>
    decreases m,
{
    if m <= 0 {
        Ok(Seq::empty())
    } else {
        match z_srs(d, delta, srs, m - 1) {
            Err(e) => Err(e),
            Ok(entries) => if delta == 0 {
                Err(Failure::DivisionByZero)
            } else {
                match within(
                    Operation::EvaluatingOverSrs,
                    srs_value(z_poly(d, m - 1, delta), srs),
                ) {
                    Err(e) => Err(e),
                    Ok(g) => Ok(entries.push(g)),
                }
            },
        }
    }
}

/// The reference string of the vanishing polynomial of `1..=d`, of `m` entries.
pub open spec fn zero_polynomial_srs_outcome(d: int, m: int, delta: int, srs: Seq<G1>) -> Result<
    Seq<G1>,
    Failure,
> {
    if d <= 0 {
        Err(Failure::DegreeZeroQAP)
    } else {
        z_srs(d, delta, srs, m)
    }
}

/// The polynomial `alpha · v + beta · u + w` of a witness slot.
pub open spec fn psi_poly(u: Seq<int>, v: Seq<int>, w: Seq<int>, alpha: int, beta: int) -> Seq<
    int,
> {
    poly_add(poly_add(poly_scale(v, alpha), poly_scale(u, beta)), w)
}

/// The divisor of a witness slot: `gamma` in the public prefix, `delta` after it.
pub open spec fn slot_divisor(i: int, public_len: int, gamma: int, delta: int) -> int {
    if i < public_len {
        gamma
    } else {
        delta
    }
}

/// The first `m` of the points that commit to the witness slots: entry `i`
/// combines the string with the polynomial of slot `i` and divides by the
/// divisor of the slot. The first entry that cannot be made decides the failure.
pub open spec fn psi_entries(
    u: Seq<Seq<int>>,
    v: Seq<Seq<int>>,
    w: Seq<Seq<int>>,
    public_len: int,
    srs: Seq<G1>,
    alpha: int,
    beta: int,
    gamma: int,
    delta: int,
    m: int,
) -> Result<Seq<G1>, Failure>
    decreases m,
{
    if m <= 0 {
        Ok(Seq::empty())
    } else {
        match psi_entries(u, v, w, public_len, srs, alpha, beta, gamma, delta, m - 1) {
            Err(e) => Err(e),
            Ok(entries) => match srs_value(
                psi_poly(u[m - 1], v[m - 1], w[m - 1], alpha, beta),
                srs,
            ) {
                Err(e) => Err(e),
                Ok(g) => if slot_divisor(m - 1, public_len, gamma, delta) == 0 {
                    Err(Failure::DivisionByZero)
                } else {
                    Ok(
                        entries.push(
                            g.scaled(
                                field_div(1, slot_divisor(m - 1, public_len, gamma, delta)),
                            ),
                        ),
                    )
                },
            },
        }
    }
}

/// The smallest of three numbers.
pub open spec fn smallest(a: int, b: int, c: int) -> int {
    smaller(smaller(a, b), c)
}

/// The combinations of a reference string with each of the first `n`
/// polynomials. The first polynomial that cannot be combined decides the failure.
pub open spec fn evaluations<T: Group>(polys: Seq<Seq<int>>, srs: Seq<T>, n: int) -> Result<
    Seq<T>,
    Failure,
>
    decreases n,
{
    if n <= 0 {
        Ok(Seq::empty())
    } else {
        match evaluations(polys, srs, n - 1) {
            Err(e) => Err(e),
            Ok(points) => match srs_value(polys[n - 1], srs) {
                Err(e) => Err(e),
                Ok(g) => Ok(points.push(g)),
            },
        }
    }
}

/// The commitment to a witness: the combinations of the reference string with
/// the polynomials, combined with the entries of the witness.
pub open spec fn commitment<T: Group>(polys: Seq<Seq<int>>, srs: Seq<T>, a: Seq<int>) -> Result<
    T,
    Failure,
> {
    if a.len() != polys.len() {
        Err(Failure::WitnessSizeMismatch { witness_len: a.len(), expected: polys.len() })
    } else {
        match evaluations(polys, srs, polys.len() as int) {
            Err(e) => Err(e),
            Ok(points) => if points.len() == 0 {
                Err(Failure::EmptyWitness)
            } else {
                Ok(srs_combination(a, points, points.len() as int))
            },
        }
    }
}

/// The quotient `H = (A·B − W) / t` of a witness, with `A`, `B`, `W` the sums of
/// the polynomials of the program weighted by the witness and `t` the vanishing
/// polynomial of `1..=d`.
pub open spec fn quotient_polynomial(
    u: Seq<Seq<int>>,
    v: Seq<Seq<int>>,
    w: Seq<Seq<int>>,
    a: Seq<int>,
    d: int,
) -> Result<Seq<int>, Failure> {
    let au = weighted_sum(u, a, smaller(u.len() as int, a.len() as int));
    let av = weighted_sum(v, a, smaller(v.len() as int, a.len() as int));
    let aw = weighted_sum(w, a, smaller(w.len() as int, a.len() as int));
    if d <= 0 {
        Err(Failure::DegreeZeroQAP)
    } else {
        poly_div(poly_sub(poly_mul(au, av), aw), vanishing(d))
    }
}

/// The combination of the points `from..n` with the entries `from..n` of the
/// witness, added up from the left, for `n` above `from`.
pub open spec fn tail_combination(points: Seq<G1>, a: Seq<int>, from: int, n: int) -> G1
    decreases n - from,
{
    if n <= from + 1 {
        points[from].scaled(a[from])
    } else {
        tail_combination(points, a, from, n - 1).combined(points[n - 1].scaled(a[n - 1]))
    }
}

/// A proof: three points.
#[derive(Clone, Debug, PartialEq, Eq)]
pub struct Proof {
    pub a: G1,
    pub b: G2,
    pub c: G1,
}

/// What a trusted setup publishes: the program, the images of the secrets in the
/// groups, the reference strings and the points that commit to the witness slots.
#[derive(Clone, Debug, PartialEq, Eq)]
pub struct TrustedSetupOutput {
    pub qap: QAP,
    pub alpha: G1,
    pub beta_1: G1,
    pub beta_2: G2,
    pub gamma: G2,
    pub delta_1: G1,
    pub delta_2: G2,
    pub group_1_srs: Vec<G1>,
    pub group_2_srs: Vec<G2>,
    pub zero_polynomial_srs: Vec<G1>,
    pub psi_polynomials: Vec<G1>,
}

/// Whether the pairing equation of the verifier holds:
/// `e(A, B) = e(alpha, beta) + e(X, gamma) + e(C, delta)`, with `X` the
/// combination of the public witness with the first points of `psi`, and without
/// the term of `X` for an empty public witness. A public witness longer than
/// `psi`, or a pairing that is not defined, is not accepted.
pub open spec fn proof_accepted(
    proof: Proof,
    alpha: G1,
    beta_2: G2,
    gamma: G2,
    delta_2: G2,
    psi: Seq<G1>,
    public_witness: Seq<int>,
) -> bool {
    if public_witness.len() > psi.len() {
        false
    } else {
        match (
            pairing_value(proof.a, proof.b),
            pairing_value(alpha, beta_2),
            pairing_value(proof.c, delta_2),
        ) {
            (Some(lhs), Some(alpha_beta), Some(c_delta)) => if public_witness.len() == 0 {
                lhs == gt_sum(alpha_beta, c_delta)
            } else {
                match pairing_value(
                    srs_combination(public_witness, psi, public_witness.len() as int),
                    gamma,
                ) {
                    Some(x_gamma) => lhs == gt_sum(gt_sum(alpha_beta, x_gamma), c_delta),
                    None => false,
                }
            },
            _ => false,
        }
    }
}

impl Proof {
    /// Whether the proof is accepted for the given public witness.
    pub fn verify(&self, trusted_setup: &TrustedSetupOutput, public_witness: &Vec<Scalar>) -> (r:
        bool)
        requires
            scalars_wf(public_witness@),
        ensures
            r == proof_accepted(
                *self,
                trusted_setup.alpha,
                trusted_setup.beta_2,
                trusted_setup.gamma,
                trusted_setup.delta_2,
                trusted_setup.psi_polynomials@,
                scalars_view(public_witness@),
            ),
    {
        let m = public_witness.len();
        if m > trusted_setup.psi_polynomials.len() {
            return false;
        }
        let lhs = match pairing(&self.a, &self.b) {
            Some(x) => x,
            None => { return false; },
        };
        let alpha_beta = match pairing(&trusted_setup.alpha, &trusted_setup.beta_2) {
            Some(x) => x,
            None => { return false; },
        };
        let c_delta = match pairing(&self.c, &trusted_setup.delta_2) {
            Some(x) => x,
            None => { return false; },
        };
        if m == 0 {
            let rhs = alpha_beta.plus(&c_delta);
            return lhs.same(&rhs);
        }
        let ghost pw = scalars_view(public_witness@);
        let mut x1 = trusted_setup.psi_polynomials[0].times(&public_witness[0]);
        let mut i: usize = 1;
        while i < m
            invariant
                1 <= i <= m,
                m == public_witness.len(),
                m <= trusted_setup.psi_polynomials.len(),
                scalars_wf(public_witness@),
                pw == scalars_view(public_witness@),
                x1 == srs_combination(pw, trusted_setup.psi_polynomials@, i as int),
            decreases m - i,
        {
            let term = trusted_setup.psi_polynomials[i].times(&public_witness[i]);
            x1 = x1.plus(&term);
            i += 1;
        }
        let x1_gamma = match pairing(&x1, &trusted_setup.gamma) {
            Some(x) => x,
            None => { return false; },
        };
        let rhs = alpha_beta.plus(&x1_gamma).plus(&c_delta);
        lhs.same(&rhs)
    }
}

/// The combinations of a reference string with each of the polynomials.
pub fn evaluate_all<T: Group>(polys: &Vec<Polynomial>, srs: &Vec<T>) -> (r: Result<Vec<T>, Error>)
    requires
        polynomials_wf(polys@),
    ensures
        vec_outcome(r) == evaluations(polynomials_view(polys@), srs@, polys@.len() as int),
{
    let mut out: Vec<T> = Vec::new();
    let mut i: usize = 0;
    while i < polys.len()
        invariant
            i <= polys.len(),
            polynomials_wf(polys@),
            Ok::<Seq<T>, Failure>(out@) == evaluations(polynomials_view(polys@), srs@, i as int),
        decreases polys.len() - i,
    {
        match polys[i].evaluate_over_srs(srs) {
            Ok(g) => {
                out.push(g);
            },
            Err(e) => {
                proof {
                    lemma_evaluations_fail(
                        polynomials_view(polys@),
                        srs@,
                        i as int + 1,
                        polys@.len() as int,
                    );
                }
                return Err(e);
            },
        }
        i += 1;
    }
    Ok(out)
}

/// Once a polynomial cannot be combined, the failure stays.
pub proof fn lemma_evaluations_fail<T: Group>(
    polys: Seq<Seq<int>>,
    srs: Seq<T>,
    n: int,
    m: int,
)
    requires
        n <= m,
        evaluations(polys, srs, n) is Err,
    ensures
        evaluations(polys, srs, m) == evaluations(polys, srs, n),
    decreases m - n,
{
    if n < m {
        lemma_evaluations_fail(polys, srs, n, m - 1);
    }
}

/// The commitment to a witness: every polynomial is combined with the reference
/// string, and the points are combined with the entries of the witness.
pub fn commit<T: Group>(polys: &Vec<Polynomial>, srs: &Vec<T>, witness: &Vec<Scalar>) -> (r:
    Result<T, Error>)
    requires
        polynomials_wf(polys@),
        scalars_wf(witness@),
    ensures
        outcome(r) == commitment(polynomials_view(polys@), srs@, scalars_view(witness@)),
{
    if witness.len() != polys.len() {
        return Err(Error::WitnessSizeMismatch { witness_len: witness.len(), expected: polys.len() });
    }
    let points = match evaluate_all(polys, srs) {
        Ok(p) => p,
        Err(e) => { return Err(e); },
    };
    proof {
        lemma_evaluations_len(polynomials_view(polys@), srs@, polys@.len() as int);
    }
    let n = points.len();
    if n == 0 {
        return Err(Error::EmptyWitness);
    }
    let ghost a = scalars_view(witness@);
    let mut acc = points[0].times(&witness[0]);
    let mut i: usize = 1;
    while i < n
        invariant
            1 <= i <= n,
            n == points.len(),
            n == witness.len(),
            scalars_wf(witness@),
            a == scalars_view(witness@),
            acc == srs_combination(a, points@, i as int),
        decreases n - i,
    {
        let term = points[i].times(&witness[i]);
        acc = acc.plus(&term);
        i += 1;
    }
    Ok(acc)
}

/// Where every polynomial can be combined, there is a point for each.
pub proof fn lemma_evaluations_len<T: Group>(polys: Seq<Seq<int>>, srs: Seq<T>, n: int)
    ensures
        evaluations(polys, srs, n) matches Ok(points) ==> points.len() == (if n <= 0 {
            0
        } else {
            n
        }),
    decreases n,
{
    if n > 0 {
        lemma_evaluations_len(polys, srs, n - 1);
    }
}

/// The vanishing polynomial of `1..=d` has at most `d + 1` coefficients.
pub proof fn lemma_vanishing_len(d: int)
    ensures
        vanishing(d).len() <= larger_than_one(d) + 1,
    decreases d,
{
    if d > 1 {
        lemma_vanishing_len(d - 1);
        lemma_poly_mul_len(vanishing(d - 1), root_factor(d - 1));
    }
}

/// `d`, or 1 where `d` is below 1.
pub open spec fn larger_than_one(d: int) -> int {
    if d <= 1 {
        1
    } else {
        d
    }
}

impl TrustedSetupOutput {
    /// The reference string of the first group: entry `i` is the generator times
    /// `tau^i`.
    pub fn group_1_srs(length: usize, tau: &Scalar) -> (r: Vec<G1>)
        requires
            tau.wf(),
        ensures
            r@ == g1_srs(tau@, length as int),
    {
        let mut out: Vec<G1> = Vec::new();
        let mut i: usize = 0;
        while i < length
            invariant
                i <= length,
                tau.wf(),
                out.len() == i,
                forall|j: int|
                    0 <= j < i ==> #[trigger] out@[j] == g1_generator_times(
                        field_pow(tau@, j as nat),
                    ),
            decreases length - i,
        {
            let power = tau.pow(i as u64);
            out.push(G1::generator_times(&power));
            i += 1;
        }
        assert(out@ =~= g1_srs(tau@, length as int));
        out
    }

    /// The reference string of the second group: entry `i` is the generator times
    /// `tau^i`.
    pub fn group_2_srs(length: usize, tau: &Scalar) -> (r: Vec<G2>)
        requires
            tau.wf(),
        ensures
            r@ == g2_srs(tau@, length as int),
    {
        let mut out: Vec<G2> = Vec::new();
        let mut i: usize = 0;
        while i < length
            invariant
                i <= length,
                tau.wf(),
                out.len() == i,
                forall|j: int|
                    0 <= j < i ==> #[trigger] out@[j] == g2_generator_times(
                        field_pow(tau@, j as nat),
                    ),
            decreases length - i,
        {
            let power = tau.pow(i as u64);
            out.push(G2::generator_times(&power));
            i += 1;
        }
        assert(out@ =~= g2_srs(tau@, length as int));
        out
    }

    /// The vanishing polynomial `(x - 1)(x - 2)···(x - n)` of the domain
    /// `1..=n`; there is none for an empty domain.
    pub fn t(num_roots: usize) -> (r: Result<Polynomial, Error>)
        requires
            num_roots + 2 < usize::MAX,
        ensures
            poly_outcome(r) == vanishing_outcome(num_roots as int),
            r matches Ok(p) ==> p.wf() && p@.len() <= num_roots + 1,
            r matches Ok(p) ==> forall|k: int|
                1 <= k <= num_roots ==> #[trigger] poly_eval(p@, k) == 0,
    {
        if num_roots == 0 {
            return Err(Error::DegreeZeroQAP);
        }
        proof {
            assert forall|k: int| 1 <= k <= num_roots implies #[trigger] poly_eval(
                vanishing(num_roots as int),
                k,
            ) == 0 by {
                lemma_vanishing_is_zero_on_domain(num_roots as int, k);
            }
        }
        let mut acc = Polynomial::root_factor(0);
        let mut k: usize = 1;
        while k < num_roots
            invariant
                1 <= k <= num_roots,
                num_roots + 2 < usize::MAX,
                acc.wf(),
                acc@ == vanishing(k as int),
                acc@.len() <= k + 1,
            decreases num_roots - k,
        {
            let factor = Polynomial::root_factor(k);
            proof {
                lemma_poly_mul_len(acc@, factor@);
            }
            acc = acc.times(&factor);
            k += 1;
        }
        Ok(acc)
    }

    /// The reference string of the vanishing polynomial: entry `i` is the
    /// combination of `group_1_srs` with `x^i · t(x) / delta`, where `t` is the
    /// vanishing polynomial of `1..=num_evaluation_points`.
    pub fn zero_polynomial_srs(
        num_evaluation_points: usize,
        srs_length: usize,
        delta: &Scalar,
        group_1_srs: &Vec<G1>,
    ) -> (r: Result<Vec<G1>, Error>)
        requires
            delta.wf(),
            num_evaluation_points + srs_length + 2 < usize::MAX,
        ensures
            vec_outcome(r) == zero_polynomial_srs_outcome(
                num_evaluation_points as int,
                srs_length as int,
                delta@,
                group_1_srs@,
            ),
    {
        let t_tau = match TrustedSetupOutput::t(num_evaluation_points) {
            Ok(p) => p,
            Err(e) => { return Err(e); },
        };
        let ghost d = num_evaluation_points as int;
        let mut out: Vec<G1> = Vec::new();
        let mut i: usize = 0;
        while i < srs_length
            invariant
                i <= srs_length,
                d == num_evaluation_points,
                d >= 1,
                num_evaluation_points + srs_length + 2 < usize::MAX,
                delta.wf(),
                t_tau.wf(),
                t_tau@ == vanishing(d),
                t_tau@.len() <= d + 1,
                Ok::<Seq<G1>, Failure>(out@) == z_srs(d, delta@, group_1_srs@, i as int),
            decreases srs_length - i,
        {
            let shift = Polynomial::monomial(i);
            let product = t_tau.times(&shift);
            if delta.is_zero() {
                proof {
                    lemma_z_srs_fail(d, delta@, group_1_srs@, i as int + 1, srs_length as int);
                }
                return Err(Error::DivisionByZero);
            }
            match product.scale_div(delta).evaluate_over_srs(group_1_srs) {
                Ok(g) => {
                    out.push(g);
                },
                Err(e) => {
                    proof {
                        lemma_z_srs_fail(d, delta@, group_1_srs@, i as int + 1, srs_length as int);
                    }
                    return Err(e.within(Operation::EvaluatingOverSrs));
                },
            }
            i += 1;
        }
        Ok(out)
    }

    /// The points that commit to the witness slots: entry `i` is the combination
    /// of `group_1_srs` with `alpha · v_i + beta · u_i + w_i`, divided by `gamma`
    /// for a slot of the public prefix and by `delta` for every other.
    pub fn psi_polynomials(
        qap: &QAP,
        group_1_srs: &Vec<G1>,
        alpha: &Scalar,
        beta: &Scalar,
        gamma: &Scalar,
        delta: &Scalar,
    ) -> (r: Result<Vec<G1>, Error>)
        requires
            qap.wf(),
            alpha.wf(),
            beta.wf(),
            gamma.wf(),
            delta.wf(),
        ensures
            vec_outcome(r) == psi_entries(
                polynomials_view(qap.u@),
                polynomials_view(qap.v@),
                polynomials_view(qap.w@),
                qap.public_witness@.len() as int,
                group_1_srs@,
                alpha@,
                beta@,
                gamma@,
                delta@,
                smallest(qap.u@.len() as int, qap.v@.len() as int, qap.w@.len() as int),
            ),
    {
        let uv = if qap.u.len() <= qap.v.len() {
            qap.u.len()
        } else {
            qap.v.len()
        };
        let n = if uv <= qap.w.len() {
            uv
        } else {
            qap.w.len()
        };
        let ghost u = polynomials_view(qap.u@);
        let ghost v = polynomials_view(qap.v@);
        let ghost w = polynomials_view(qap.w@);
        let ghost public_len = qap.public_witness@.len() as int;
        let one = Scalar::one();
        let mut out: Vec<G1> = Vec::new();
        let mut i: usize = 0;
        while i < n
            invariant
                i <= n,
                n == smallest(qap.u@.len() as int, qap.v@.len() as int, qap.w@.len() as int),
                qap.wf(),
                alpha.wf(),
                beta.wf(),
                gamma.wf(),
                delta.wf(),
                one.wf(),
                one@ == 1,
                u == polynomials_view(qap.u@),
                v == polynomials_view(qap.v@),
                w == polynomials_view(qap.w@),
                public_len == qap.public_witness@.len(),
                Ok::<Seq<G1>, Failure>(out@) == psi_entries(
                    u,
                    v,
                    w,
                    public_len,
                    group_1_srs@,
                    alpha@,
                    beta@,
                    gamma@,
                    delta@,
                    i as int,
                ),
            decreases n - i,
        {
            let divisor = if i < qap.public_witness.len() {
                gamma
            } else {
                delta
            };
            let poly = qap.v[i].scale(alpha).plus(&qap.u[i].scale(beta)).plus(&qap.w[i]);
            let point = match poly.evaluate_over_srs(group_1_srs) {
                Ok(g) => g,
                Err(e) => {
                    proof {
                        lemma_psi_entries_fail(
                            u,
                            v,
                            w,
                            public_len,
                            group_1_srs@,
                            alpha@,
                            beta@,
                            gamma@,
                            delta@,
                            i as int + 1,
                            n as int,
                        );
                    }
                    return Err(e);
                },
            };
            if divisor.is_zero() {
                proof {
                    lemma_psi_entries_fail(
                        u,
                        v,
                        w,
                        public_len,
                        group_1_srs@,
                        alpha@,
                        beta@,
                        gamma@,
                        delta@,
                        i as int + 1,
                        n as int,
                    );
                }
                return Err(Error::DivisionByZero);
            }
            let inverse = one.divided_by(divisor);
            out.push(point.times(&inverse));
            i += 1;
        }
        Ok(out)
    }

    /// The quotient `H = (A·B − W) / t` of a witness. The division is exact for a
    /// witness that satisfies the constraints.
    pub fn calculate_zero_polynomial(&self, witness: &Vec<Scalar>) -> (r: Result<Polynomial, Error>)
        requires
            self.qap.wf(),
            scalars_wf(witness@),
            self.qap.product_size() <= usize::MAX,
            self.qap.spec_max_polynomial_degree() + 3 < usize::MAX,
        ensures
            poly_outcome(r) == quotient_polynomial(
                polynomials_view(self.qap.u@),
                polynomials_view(self.qap.v@),
                polynomials_view(self.qap.w@),
                scalars_view(witness@),
                self.qap.spec_max_polynomial_degree() + 1,
            ),
            r matches Ok(h) ==> h.wf(),
    {
        let au_sum = weighted_polynomial_sum(&self.qap.u, witness);
        let av_sum = weighted_polynomial_sum(&self.qap.v, witness);
        let aw_sum = weighted_polynomial_sum(&self.qap.w, witness);
        proof {
            let a = scalars_view(witness@);
            let u = polynomials_view(self.qap.u@);
            let v = polynomials_view(self.qap.v@);
            lemma_weighted_sum_len(u, a, smaller(u.len() as int, a.len() as int));
            lemma_weighted_sum_len(v, a, smaller(v.len() as int, a.len() as int));
            lemma_longest_monotonic(u, smaller(u.len() as int, a.len() as int), u.len() as int);
            lemma_longest_monotonic(v, smaller(v.len() as int, a.len() as int), v.len() as int);
        }
        let numerator = au_sum.times(&av_sum).minus(&aw_sum);
        let t = match TrustedSetupOutput::t(self.qap.degree()) {
            Ok(p) => p,
            Err(e) => { return Err(e); },
        };
        numerator.divided_by(&t)
    }

    /// The commitment to the witness over the left factors, in the first group.
    pub fn evaluate_u(&self, witness: &Vec<Scalar>) -> (r: Result<G1, Error>)
        requires
            self.qap.wf(),
            scalars_wf(witness@),
        ensures
            outcome(r) == commitment(
                polynomials_view(self.qap.u@),
                self.group_1_srs@,
                scalars_view(witness@),
            ),
    {
        commit(&self.qap.u, &self.group_1_srs, witness)
    }

    /// The commitment to the witness over the right factors, in the second group.
    pub fn evaluate_v(&self, witness: &Vec<Scalar>) -> (r: Result<G2, Error>)
        requires
            self.qap.wf(),
            scalars_wf(witness@),
        ensures
            outcome(r) == commitment(
                polynomials_view(self.qap.v@),
                self.group_2_srs@,
                scalars_view(witness@),
            ),
    {
        commit(&self.qap.v, &self.group_2_srs, witness)
    }

    /// The commitment to the witness over the right factors, in the first group.
    pub fn evaluate_v_1(&self, witness: &Vec<Scalar>) -> (r: Result<G1, Error>)
        requires
            self.qap.wf(),
            scalars_wf(witness@),
        ensures
            outcome(r) == commitment(
                polynomials_view(self.qap.v@),
                self.group_1_srs@,
                scalars_view(witness@),
            ),
    {
        commit(&self.qap.v, &self.group_1_srs, witness)
    }

    /// The commitment to the witness over the outputs, in the first group.
    pub fn evaluate_w(&self, witness: &Vec<Scalar>) -> (r: Result<G1, Error>)
        requires
            self.qap.wf(),
            scalars_wf(witness@),
        ensures
            outcome(r) == commitment(
                polynomials_view(self.qap.w@),
                self.group_1_srs@,
                scalars_view(witness@),
            ),
    {
        commit(&self.qap.w, &self.group_1_srs, witness)
    }
}

/// The proof that the setup, the witness `a` and the blinding scalars `r` and
/// `s` give:
///
/// * `A = alpha + Σ aᵢ·uᵢ(tau) + r·delta` in the first group,
/// * `B = beta + Σ aᵢ·vᵢ(tau) + s·delta` in the second group, and `B₁`, the same in
///   the first,
/// * `C = Σ aᵢ·psiᵢ + H(tau)·t(tau)/delta + s·A + r·B₁ − (r·s)·delta`, the sum over
///   the slots after the public prefix.
///
/// The first step that cannot be taken decides the failure.
pub open spec fn expected_proof(setup: TrustedSetupOutput, a: Seq<int>, r: int, s: int) -> Result<
    Proof,
    Failure,
> {
    let u = polynomials_view(setup.qap.u@);
    let v = polynomials_view(setup.qap.v@);
    let w = polynomials_view(setup.qap.w@);
    let psi = setup.psi_polynomials@;
    let public_len = setup.qap.public_witness@.len() as int;
    let end = smaller(psi.len() as int, a.len() as int);
    match commitment(u, setup.group_1_srs@, a) {
        Err(e) => Err(e),
        Ok(eu) => match commitment(v, setup.group_2_srs@, a) {
            Err(e) => Err(e),
            Ok(ev2) => match commitment(v, setup.group_1_srs@, a) {
                Err(e) => Err(e),
                Ok(ev1) => match quotient_polynomial(
                    u,
                    v,
                    w,
                    a,
                    setup.qap.spec_max_polynomial_degree() + 1,
                ) {
                    Err(e) => Err(e),
                    Ok(h) => match srs_value(h, setup.zero_polynomial_srs@) {
                        Err(e) => Err(e),
                        Ok(ht) => if end <= public_len {
                            Err(Failure::EmptyWitness)
                        } else {
                            let pa = setup.alpha.combined(eu).combined(setup.delta_1.scaled(r));
                            let pb2 = setup.beta_2.combined(ev2).combined(
                                setup.delta_2.scaled(s),
                            );
                            let pb1 = setup.beta_1.combined(ev1).combined(
                                setup.delta_1.scaled(s),
                            );
                            let private = tail_combination(psi, a, public_len, end);
                            let pc = g1_difference(
                                private.combined(ht).combined(pa.scaled(s)).combined(
                                    pb1.scaled(r),
                                ),
                                setup.delta_1.scaled(field_mul(r, s)),
                            );
                            Ok(Proof { a: pa, b: pb2, c: pc })
                        },
                    },
                },
            },
        }
    }
}

/// The degree of a program, as the setup counts it.
pub open spec fn program_degree(qap: QAP) -> int {
    qap.spec_max_polynomial_degree() + 1
}

/// The reference string of the vanishing polynomial that the secrets give.
pub open spec fn setup_zero_srs(qap: QAP, tau: int, delta: int) -> Result<Seq<G1>, Failure> {
    zero_polynomial_srs_outcome(
        program_degree(qap),
        program_degree(qap) - 1,
        delta,
        g1_srs(tau, 2 * program_degree(qap) - 1),
    )
}

/// The points that commit to the witness slots, as the secrets give them.
pub open spec fn setup_psi(qap: QAP, alpha: int, beta: int, tau: int, gamma: int, delta: int)
    -> Result<Seq<G1>, Failure> {
    psi_entries(
        polynomials_view(qap.u@),
        polynomials_view(qap.v@),
        polynomials_view(qap.w@),
        qap.public_witness@.len() as int,
        g1_srs(tau, 2 * program_degree(qap) - 1),
        alpha,
        beta,
        gamma,
        delta,
        smallest(qap.u@.len() as int, qap.v@.len() as int, qap.w@.len() as int),
    )
}

/// Why the setup fails on the given secrets, if it does: the reference string
/// of the vanishing polynomial is made first, and a failure there names that
/// step; the points of the witness slots are made after it.
pub open spec fn setup_failure(
    qap: QAP,
    alpha: int,
    beta: int,
    tau: int,
    gamma: int,
    delta: int,
) -> Option<Failure> {
    match within(Operation::ZeroPolynomialSrs, setup_zero_srs(qap, tau, delta)) {
        Err(e) => Some(e),
        Ok(_) => match setup_psi(qap, alpha, beta, tau, gamma, delta) {
            Err(e) => Some(e),
            Ok(_) => None,
        },
    }
}

/// `s` is what the setup publishes for the program and the secrets.
pub open spec fn published(
    s: TrustedSetupOutput,
    qap: QAP,
    alpha: int,
    beta: int,
    tau: int,
    gamma: int,
    delta: int,
) -> bool {
    &&& s.qap == qap
    &&& s.alpha == g1_generator_times(alpha)
    &&& s.beta_1 == g1_generator_times(beta)
    &&& s.beta_2 == g2_generator_times(beta)
    &&& s.gamma == g2_generator_times(gamma)
    &&& s.delta_1 == g1_generator_times(delta)
    &&& s.delta_2 == g2_generator_times(delta)
    &&& s.group_1_srs@ == g1_srs(tau, 2 * program_degree(qap) - 1)
    &&& s.group_2_srs@ == g2_srs(tau, program_degree(qap))
    &&& s.group_1_srs@.len() == 2 * program_degree(qap) - 1
    &&& s.group_2_srs@.len() == program_degree(qap)
    &&& s.zero_polynomial_srs@.len() == program_degree(qap) - 1
    &&& s.psi_polynomials@.len() == smallest(
        qap.u@.len() as int,
        qap.v@.len() as int,
        qap.w@.len() as int,
    )
    &&& Ok::<Seq<G1>, Failure>(s.zero_polynomial_srs@) == setup_zero_srs(qap, tau, delta)
    &&& Ok::<Seq<G1>, Failure>(s.psi_polynomials@) == setup_psi(
        qap,
        alpha,
        beta,
        tau,
        gamma,
        delta,
    )
}

/// The five secrets are scalars.
pub open spec fn secrets_in_field(alpha: int, beta: int, tau: int, gamma: int, delta: int) -> bool {
    &&& 0 <= alpha < modulus()
    &&& 0 <= beta < modulus()
    &&& 0 <= tau < modulus()
    &&& 0 <= gamma < modulus()
    &&& 0 <= delta < modulus()
}

impl TrustedSetupOutput {
    /// The program is well-formed and small enough for the prover's products to
    /// be counted.
    pub open spec fn wf(&self) -> bool {
        &&& self.qap.wf()
        &&& self.qap.product_size() <= usize::MAX
        &&& self.qap.spec_max_polynomial_degree() + 3 < usize::MAX
    }

    /// The trusted setup of a program, with fresh secrets `alpha`, `beta`, `tau`,
    /// `gamma` and `delta` drawn from the operating system's entropy. The secrets
    /// are dropped on return.
    pub fn new(qap: QAP) -> (r: Result<TrustedSetupOutput, Error>)
        requires
            qap.wf(),
            2 * program_degree(qap) + 2 < usize::MAX,
        ensures
            match r {
                Ok(s) => exists|alpha: int, beta: int, tau: int, gamma: int, delta: int|
                    secrets_in_field(alpha, beta, tau, gamma, delta) && #[trigger] published(
                        s,
                        qap,
                        alpha,
                        beta,
                        tau,
                        gamma,
                        delta,
                    ),
                Err(e) => e@ == Failure::RandomnessUnavailable || exists|
                    alpha: int,
                    beta: int,
                    tau: int,
                    gamma: int,
                    delta: int,
                |
                    secrets_in_field(alpha, beta, tau, gamma, delta) && #[trigger] setup_failure(
                        qap,
                        alpha,
                        beta,
                        tau,
                        gamma,
                        delta,
                    ) == Some(e@),
            },
    {
        let mut rng = match os_rng() {
            Some(g) => g,
            None => { return Err(Error::RandomnessUnavailable); },
        };
        let alpha = match rand_scalar(&mut rng) {
            Some(x) => x,
            None => { return Err(Error::RandomnessUnavailable); },
        };
        let beta = match rand_scalar(&mut rng) {
            Some(x) => x,
            None => { return Err(Error::RandomnessUnavailable); },
        };
        let tau = match rand_scalar(&mut rng) {
            Some(x) => x,
            None => { return Err(Error::RandomnessUnavailable); },
        };
        let gamma = match rand_scalar(&mut rng) {
            Some(x) => x,
            None => { return Err(Error::RandomnessUnavailable); },
        };
        let delta = match rand_scalar(&mut rng) {
            Some(x) => x,
            None => { return Err(Error::RandomnessUnavailable); },
        };
        let r = TrustedSetupOutput::with_secrets(qap, &alpha, &beta, &tau, &gamma, &delta);
        proof {
            if r is Ok {
                assert(published(r->Ok_0, qap, alpha@, beta@, tau@, gamma@, delta@));
            } else {
                assert(setup_failure(qap, alpha@, beta@, tau@, gamma@, delta@) == Some(
                    r->Err_0@,
                ));
            }
        }
        r
    }

    /// The trusted setup of a program for the given secrets.
    ///
    /// Publishes the images of `alpha`, `beta`, `gamma` and `delta` in the groups,
    /// the powers of `tau` in both groups (`2·d − 1` in the first and `d` in the
    /// second, for a program of degree `d`), the reference string of the vanishing
    /// polynomial (`d − 1` entries) and the points that commit to the witness
    /// slots. Fails where `gamma` or `delta` is needed as a divisor and is zero.
    pub fn with_secrets(
        qap: QAP,
        alpha: &Scalar,
        beta: &Scalar,
        tau: &Scalar,
        gamma: &Scalar,
        delta: &Scalar,
    ) -> (r: Result<TrustedSetupOutput, Error>)
        requires
            qap.wf(),
            alpha.wf(),
            beta.wf(),
            tau.wf(),
            gamma.wf(),
            delta.wf(),
            2 * program_degree(qap) + 2 < usize::MAX,
        ensures
            match r {
                Ok(s) => setup_failure(qap, alpha@, beta@, tau@, gamma@, delta@) is None
                    && published(s, qap, alpha@, beta@, tau@, gamma@, delta@),
                Err(e) => setup_failure(qap, alpha@, beta@, tau@, gamma@, delta@) == Some(e@),
            },
    {
        let d = qap.degree();
        let group_1_srs = TrustedSetupOutput::group_1_srs(2 * d - 1, tau);
        let group_2_srs = TrustedSetupOutput::group_2_srs(d, tau);
        let zero_polynomial_srs = match TrustedSetupOutput::zero_polynomial_srs(
            d,
            d - 1,
            delta,
            &group_1_srs,
        ) {
            Ok(z) => z,
            Err(e) => { return Err(e.within(Operation::ZeroPolynomialSrs)); },
        };
        let psi_polynomials = match TrustedSetupOutput::psi_polynomials(
            &qap,
            &group_1_srs,
            alpha,
            beta,
            gamma,
            delta,
        ) {
            Ok(p) => p,
            Err(e) => { return Err(e); },
        };
        proof {
            lemma_z_srs_len(
                program_degree(qap),
                delta@,
                group_1_srs@,
                program_degree(qap) - 1,
            );
            lemma_psi_entries_len(
                polynomials_view(qap.u@),
                polynomials_view(qap.v@),
                polynomials_view(qap.w@),
                qap.public_witness@.len() as int,
                group_1_srs@,
                alpha@,
                beta@,
                gamma@,
                delta@,
                smallest(qap.u@.len() as int, qap.v@.len() as int, qap.w@.len() as int),
            );
        }
        Ok(
            TrustedSetupOutput {
                qap,
                alpha: G1::generator_times(alpha),
                beta_1: G1::generator_times(beta),
                beta_2: G2::generator_times(beta),
                gamma: G2::generator_times(gamma),
                delta_1: G1::generator_times(delta),
                delta_2: G2::generator_times(delta),
                group_1_srs,
                group_2_srs,
                zero_polynomial_srs,
                psi_polynomials,
            },
        )
    }

    /// A proof for the witness, with fresh blinding scalars `r` and `s` drawn from
    /// the operating system's entropy.
    pub fn prove(&self, witness: &Vec<Scalar>) -> (p: Result<Proof, Error>)
        requires
            self.wf(),
            scalars_wf(witness@),
        ensures
            match p {
                Ok(proof) => exists|r: int, s: int|
                    0 <= r < modulus() && 0 <= s < modulus() && #[trigger] expected_proof(
                        *self,
                        scalars_view(witness@),
                        r,
                        s,
                    ) == Ok::<Proof, Failure>(proof),
                Err(e) => e@ == Failure::RandomnessUnavailable || exists|r: int, s: int|
                    0 <= r < modulus() && 0 <= s < modulus() && #[trigger] expected_proof(
                        *self,
                        scalars_view(witness@),
                        r,
                        s,
                    ) == Err::<Proof, Failure>(e@),
            },
    {
        let mut rng = match os_rng() {
            Some(g) => g,
            None => { return Err(Error::RandomnessUnavailable); },
        };
        let r = match rand_scalar(&mut rng) {
            Some(x) => x,
            None => { return Err(Error::RandomnessUnavailable); },
        };
        let s = match rand_scalar(&mut rng) {
            Some(x) => x,
            None => { return Err(Error::RandomnessUnavailable); },
        };
        let p = self.prove_with(witness, &r, &s);
        proof {
            assert(outcome(p) == expected_proof(*self, scalars_view(witness@), r@, s@));
        }
        p
    }

    /// The proof for the witness with the blinding scalars `r` and `s`.
    pub fn prove_with(&self, witness: &Vec<Scalar>, r: &Scalar, s: &Scalar) -> (p: Result<
        Proof,
        Error,
    >)
        requires
            self.wf(),
            scalars_wf(witness@),
            r.wf(),
            s.wf(),
        ensures
            outcome(p) == expected_proof(*self, scalars_view(witness@), r@, s@),
    {
        let eu = match self.evaluate_u(witness) {
            Ok(g) => g,
            Err(e) => { return Err(e); },
        };
        let a = self.alpha.plus(&eu).plus(&self.delta_1.times(r));
        let ev2 = match self.evaluate_v(witness) {
            Ok(g) => g,
            Err(e) => { return Err(e); },
        };
        let b_2 = self.beta_2.plus(&ev2).plus(&self.delta_2.times(s));
        let ev1 = match self.evaluate_v_1(witness) {
            Ok(g) => g,
            Err(e) => { return Err(e); },
        };
        let b_1 = self.beta_1.plus(&ev1).plus(&self.delta_1.times(s));
        let ht = match self.calculate_zero_polynomial(witness) {
            Ok(h) => h,
            Err(e) => { return Err(e); },
        };
        let ht_tau = match ht.evaluate_over_srs(&self.zero_polynomial_srs) {
            Ok(g) => g,
            Err(e) => { return Err(e); },
        };
        let start = self.qap.public_witness.len();
        let end = if self.psi_polynomials.len() <= witness.len() {
            self.psi_polynomials.len()
        } else {
            witness.len()
        };
        if end <= start {
            return Err(Error::EmptyWitness);
        }
        let ghost wv = scalars_view(witness@);
        let mut private = self.psi_polynomials[start].times(&witness[start]);
        let mut i: usize = start + 1;
        while i < end
            invariant
                start < i <= end,
                end <= self.psi_polynomials.len(),
                end <= witness.len(),
                scalars_wf(witness@),
                wv == scalars_view(witness@),
                private == tail_combination(self.psi_polynomials@, wv, start as int, i as int),
            decreases end - i,
        {
            let term = self.psi_polynomials[i].times(&witness[i]);
            private = private.plus(&term);
            i += 1;
        }
        let blinding = self.delta_1.times(&r.times(s));
        let c = private.plus(&ht_tau).plus(&a.times(s)).plus(&b_1.times(r)).minus(&blinding);
        Ok(Proof { a, b: b_2, c })
    }
}

/// Where every entry of the reference string of the vanishing polynomial can be
/// made, there are `m` of them.
pub proof fn lemma_z_srs_len(d: int, delta: int, srs: Seq<G1>, m: int)
    requires
        m >= 0,
    ensures
        z_srs(d, delta, srs, m) matches Ok(entries) ==> entries.len() == m,
    decreases m,
{
    if m > 0 {
        lemma_z_srs_len(d, delta, srs, m - 1);
    }
}

/// Where every point that commits to a witness slot can be made, there are `m`
/// of them.
pub proof fn lemma_psi_entries_len(
    u: Seq<Seq<int>>,
    v: Seq<Seq<int>>,
    w: Seq<Seq<int>>,
    public_len: int,
    srs: Seq<G1>,
    alpha: int,
    beta: int,
    gamma: int,
    delta: int,
    m: int,
)
    requires
        m >= 0,
    ensures
        psi_entries(u, v, w, public_len, srs, alpha, beta, gamma, delta, m) matches Ok(entries)
            ==> entries.len() == m,
    decreases m,
{
    if m > 0 {
        lemma_psi_entries_len(u, v, w, public_len, srs, alpha, beta, gamma, delta, m - 1);
    }
}

/// Once an entry of the reference string of the vanishing polynomial cannot be
/// made, the failure stays.
pub proof fn lemma_z_srs_fail(d: int, delta: int, srs: Seq<G1>, n: int, m: int)
    requires
        n <= m,
        z_srs(d, delta, srs, n) is Err,
    ensures
        z_srs(d, delta, srs, m) == z_srs(d, delta, srs, n),
    decreases m - n,
{
    if n < m {
        lemma_z_srs_fail(d, delta, srs, n, m - 1);
    }
}

/// Once a point that commits to a witness slot cannot be made, the failure stays.
pub proof fn lemma_psi_entries_fail(
    u: Seq<Seq<int>>,
    v: Seq<Seq<int>>,
    w: Seq<Seq<int>>,
    public_len: int,
    srs: Seq<G1>,
    alpha: int,
    beta: int,
    gamma: int,
    delta: int,
    n: int,
    m: int,
)
    requires
        n <= m,
        psi_entries(u, v, w, public_len, srs, alpha, beta, gamma, delta, n) is Err,
    ensures
        psi_entries(u, v, w, public_len, srs, alpha, beta, gamma, delta, m) == psi_entries(
            u,
            v,
            w,
            public_len,
            srs,
            alpha,
            beta,
            gamma,
            delta,
            n,
        ),
    decreases m - n,
{
    if n < m {
        lemma_psi_entries_fail(u, v, w, public_len, srs, alpha, beta, gamma, delta, n, m - 1);
    }
}

} // verus!
