//! What the protocol computes in the exponent.
//!
//! The points of the groups are values of the curve library, and this library
//! proves nothing about them. What it can prove is what follows if the groups are
//! what a pairing promises: cyclic groups of the order of the scalar field, in
//! which every element is a multiple of the generator. An *exponent map* sends
//! every element to the scalar by which the generator has to be multiplied to
//! give it. The laws of this module hold for every such map.

use crate::algebra::coeff;
use crate::algebra::eval_term;
use crate::algebra::in_field;
use crate::algebra::poly_eval;
use crate::circuits::weighted_sum;
use crate::congruence::congruent;
use crate::congruence::lemma_congruent_add;
use crate::congruence::lemma_congruent_field;
use crate::congruence::lemma_congruent_scalars;
use crate::curve::G1;
use crate::curve::G2;
use crate::curve::Group;
use crate::curve::g1_generator_times;
use crate::curve::g2_generator_times;
use crate::error::Failure;
use crate::eval_laws::lemma_eval_in_field;
use crate::eval_laws::lemma_weighted_sum_eval;
use crate::field::field_add;
use crate::field::field_mul;
use crate::field::field_pow;
use crate::field::lemma_modulus_bound;
use crate::field::modulus;
use crate::groth16::commitment;
use crate::groth16::evaluations;
use crate::groth16::g1_srs;
use crate::groth16::g2_srs;
use crate::groth16::tail_combination;
use crate::polynomial::srs_combination;
use crate::polynomial::srs_value;
use crate::sums::lemma_sum_ext;
use crate::sums::sum_to;
use vstd::arithmetic::div_mod::lemma_add_mod_noop;
use vstd::arithmetic::div_mod::lemma_mod_bound;
use vstd::arithmetic::div_mod::lemma_mul_mod_noop_left;
use vstd::arithmetic::power::pow;
use vstd::prelude::*;

verus! {

/// `log` is an exponent map of a group: it takes scalars as values, turns the
/// action of a scalar into a product and the sum of the group into a sum, and
/// tells the elements of the group apart.
pub open spec fn is_exponent_map<T: Group>(log: spec_fn(T) -> int) -> bool {
    &&& forall|a: T| 0 <= #[trigger] log(a) < modulus()
    &&& forall|a: T, k: int|
        0 <= k < modulus() ==> #[trigger] log(a.scaled(k)) == field_mul(log(a), k)
    &&& forall|a: T, b: T| #[trigger] log(a.combined(b)) == field_add(log(a), log(b))
    &&& forall|a: T, b: T| #[trigger] log(a) == #[trigger] log(b) ==> a == b
}

/// The exponent of the generator of the first group times `k` is `k`.
pub open spec fn counts_from_g1_generator(log: spec_fn(G1) -> int) -> bool {
    forall|k: int| 0 <= k < modulus() ==> #[trigger] log(g1_generator_times(k)) == k
}

/// The exponent of the generator of the second group times `k` is `k`.
pub open spec fn counts_from_g2_generator(log: spec_fn(G2) -> int) -> bool {
    forall|k: int| 0 <= k < modulus() ==> #[trigger] log(g2_generator_times(k)) == k
}

/// The exponents of the elements of `srs` are the powers of `tau`.
pub open spec fn is_power_string<T: Group>(srs: Seq<T>, log: spec_fn(T) -> int, tau: int) -> bool {
    forall|i: int| 0 <= i < srs.len() ==> log(#[trigger] srs[i]) == field_pow(tau, i as nat)
}

/// The exponent of the combination of the first `m` elements of a string of
/// powers of `tau` with the first `m` coefficients of a polynomial is the sum of
/// the first `m` terms of the value of the polynomial at `tau`.
pub proof fn lemma_combination_exponent<T: Group>(
    p: Seq<int>,
    srs: Seq<T>,
    log: spec_fn(T) -> int,
    tau: int,
    m: int,
)
    requires
        in_field(p),
        1 <= m <= p.len(),
        p.len() <= srs.len(),
        is_exponent_map(log),
        is_power_string(srs, log, tau),
    ensures
        log(srs_combination(p, srs, m)) == sum_to(eval_term(p, tau), m) % modulus(),
    decreases m,
{
    lemma_modulus_bound();
    let q = modulus();
    let f = eval_term(p, tau);
    let c = p[m - 1];
    let w = pow(tau, (m - 1) as nat);
    let term = srs[m - 1].scaled(c);
    assert(0 <= c < q);
    assert(log(srs[m - 1]) == w % q);
    assert(log(term) == field_mul(w % q, c));
    lemma_mul_mod_noop_left(w, c, q);
    assert(coeff(p, m - 1) == c);
    assert(f(m - 1) == c * w);
    assert(w * c == c * w) by (nonlinear_arith);
    assert(log(term) == (c * w) % q);
    if m <= 1 {
        assert(sum_to(f, 1) == sum_to(f, 0) + f(0));
    } else {
        lemma_combination_exponent(p, srs, log, tau, m - 1);
        let before = srs_combination(p, srs, m - 1);
        let s = sum_to(f, m - 1);
        assert(log(before.combined(term)) == field_add(log(before), log(term)));
        lemma_add_mod_noop(s, c * w, q);
    }
}

/// The combination of a string of powers of `tau` with a polynomial has the value
/// of the polynomial at `tau` as its exponent.
pub proof fn lemma_srs_value_exponent<T: Group>(
    p: Seq<int>,
    srs: Seq<T>,
    log: spec_fn(T) -> int,
    tau: int,
)
    requires
        in_field(p),
        1 <= p.len() <= srs.len(),
        is_exponent_map(log),
        is_power_string(srs, log, tau),
    ensures
        srs_value(p, srs) matches Ok(g) && log(g) == poly_eval(p, tau),
{
    lemma_combination_exponent(p, srs, log, tau, p.len() as int);
}

/// The powers of `tau` in the first group are a string of powers of `tau`.
pub proof fn lemma_g1_srs_is_power_string(tau: int, n: int, log: spec_fn(G1) -> int)
    requires
        n >= 0,
        counts_from_g1_generator(log),
    ensures
        is_power_string(g1_srs(tau, n), log, tau),
{
    lemma_modulus_bound();
    assert forall|i: int| 0 <= i < g1_srs(tau, n).len() implies log(#[trigger] g1_srs(tau, n)[i])
        == field_pow(tau, i as nat) by {
        lemma_mod_bound(pow(tau, i as nat), modulus());
    }
}

/// The powers of `tau` in the second group are a string of powers of `tau`.
pub proof fn lemma_g2_srs_is_power_string(tau: int, n: int, log: spec_fn(G2) -> int)
    requires
        n >= 0,
        counts_from_g2_generator(log),
    ensures
        is_power_string(g2_srs(tau, n), log, tau),
{
    lemma_modulus_bound();
    assert forall|i: int| 0 <= i < g2_srs(tau, n).len() implies log(#[trigger] g2_srs(tau, n)[i])
        == field_pow(tau, i as nat) by {
        lemma_mod_bound(pow(tau, i as nat), modulus());
    }
}

/// Evaluation over a reference string agrees with evaluation at the hidden
/// point: for every `tau` and every polynomial `P` with at least one and at most
/// `n` coefficients, the combination of `[tau^i · G]` with `P` is `P(tau) · G`,
/// where the first group is what a pairing promises.
pub proof fn lemma_evaluate_over_srs_is_evaluation(
    p: Seq<int>,
    tau: int,
    n: int,
    log: spec_fn(G1) -> int,
)
    requires
        in_field(p),
        1 <= p.len() <= n,
        is_exponent_map(log),
        counts_from_g1_generator(log),
    ensures
        srs_value(p, g1_srs(tau, n)) == Ok::<G1, Failure>(g1_generator_times(poly_eval(p, tau))),
{
    lemma_modulus_bound();
    lemma_g1_srs_is_power_string(tau, n, log);
    lemma_srs_value_exponent(p, g1_srs(tau, n), log, tau);
    let g = srs_value(p, g1_srs(tau, n))->Ok_0;
    lemma_mod_bound(sum_to(eval_term(p, tau), p.len() as int), modulus());
    assert(log(g1_generator_times(poly_eval(p, tau))) == poly_eval(p, tau));
    assert(log(g) == log(g1_generator_times(poly_eval(p, tau))));
}

/// The `i`-th term of the exponent of a combination: the exponent of the `i`-th
/// element times the `i`-th coefficient.
pub open spec fn dot_term<T: Group>(c: Seq<int>, points: Seq<T>, log: spec_fn(T) -> int)
    -> spec_fn(int) -> int {
    |i: int| log(points[i]) * c[i]
}

/// The exponent of a combination of elements with coefficients is the sum of the
/// exponents of the elements, each times its coefficient.
pub proof fn lemma_combination_is_dot<T: Group>(
    c: Seq<int>,
    points: Seq<T>,
    log: spec_fn(T) -> int,
    m: int,
)
    requires
        in_field(c),
        1 <= m <= c.len(),
        m <= points.len(),
        is_exponent_map(log),
    ensures
        congruent(log(srs_combination(c, points, m)), sum_to(dot_term(c, points, log), m)),
    decreases m,
{
    lemma_modulus_bound();
    let f = dot_term(c, points, log);
    let term = points[m - 1].scaled(c[m - 1]);
    assert(0 <= c[m - 1] < modulus());
    assert(log(term) == field_mul(log(points[m - 1]), c[m - 1]));
    lemma_congruent_field(log(points[m - 1]), c[m - 1]);
    assert(f(m - 1) == log(points[m - 1]) * c[m - 1]);
    if m <= 1 {
        assert(sum_to(f, 1) == sum_to(f, 0) + f(0));
    } else {
        lemma_combination_is_dot(c, points, log, m - 1);
        let before = srs_combination(c, points, m - 1);
        assert(log(before.combined(term)) == field_add(log(before), log(term)));
        lemma_congruent_field(log(before), log(term));
        lemma_congruent_add(log(before), sum_to(f, m - 1), log(term), f(m - 1));
    }
}

/// The sum of the terms `from..n` of a function.
pub open spec fn sum_between(f: spec_fn(int) -> int, from: int, n: int) -> int {
    sum_to(f, n) - sum_to(f, from)
}

/// The exponent of a combination of the elements `from..n` with the coefficients
/// `from..n`.
pub proof fn lemma_tail_combination_is_dot(
    c: Seq<int>,
    points: Seq<G1>,
    log: spec_fn(G1) -> int,
    from: int,
    n: int,
)
    requires
        in_field(c),
        0 <= from < n,
        n <= c.len(),
        n <= points.len(),
        is_exponent_map(log),
    ensures
        congruent(
            log(tail_combination(points, c, from, n)),
            sum_between(dot_term(c, points, log), from, n),
        ),
    decreases n - from,
{
    lemma_modulus_bound();
    let f = dot_term(c, points, log);
    let term = points[n - 1].scaled(c[n - 1]);
    assert(0 <= c[n - 1] < modulus());
    assert(log(term) == field_mul(log(points[n - 1]), c[n - 1]));
    lemma_congruent_field(log(points[n - 1]), c[n - 1]);
    assert(f(n - 1) == log(points[n - 1]) * c[n - 1]);
    if n <= from + 1 {
    } else {
        lemma_tail_combination_is_dot(c, points, log, from, n - 1);
        let before = tail_combination(points, c, from, n - 1);
        assert(log(before.combined(term)) == field_add(log(before), log(term)));
        lemma_congruent_field(log(before), log(term));
        lemma_congruent_add(log(before), sum_between(f, from, n - 1), log(term), f(n - 1));
    }
}

/// Where every polynomial can be combined with the reference string, the points
/// are the combinations.
pub proof fn lemma_evaluations_entries<T: Group>(
    polys: Seq<Seq<int>>,
    srs: Seq<T>,
    n: int,
    points: Seq<T>,
)
    requires
        n >= 0,
        evaluations(polys, srs, n) == Ok::<Seq<T>, Failure>(points),
    ensures
        points.len() == n,
        forall|i: int| 0 <= i < n ==> #[trigger] srs_value(polys[i], srs) == Ok::<T, Failure>(
            points[i],
        ),
    decreases n,
{
    if n > 0 {
        let before = evaluations(polys, srs, n - 1)->Ok_0;
        lemma_evaluations_entries(polys, srs, n - 1, before);
        let g = srs_value(polys[n - 1], srs)->Ok_0;
        assert(points == before.push(g));
        assert forall|i: int| 0 <= i < n implies #[trigger] srs_value(polys[i], srs) == Ok::<
            T,
            Failure,
        >(points[i]) by {
            if i < n - 1 {
                assert(points[i] == before[i]);
            }
        }
    }
}

/// The commitment to a witness over a string of powers of `tau` has, as its
/// exponent, the value at `tau` of the polynomials weighted by the witness.
pub proof fn lemma_commitment_exponent<T: Group>(
    polys: Seq<Seq<int>>,
    srs: Seq<T>,
    a: Seq<int>,
    log: spec_fn(T) -> int,
    tau: int,
    g: T,
)
    requires
        forall|i: int| 0 <= i < polys.len() ==> in_field(#[trigger] polys[i]),
        in_field(a),
        is_exponent_map(log),
        is_power_string(srs, log, tau),
        commitment(polys, srs, a) == Ok::<T, Failure>(g),
    ensures
        log(g) == poly_eval(weighted_sum(polys, a, a.len() as int), tau),
        a.len() == polys.len(),
        a.len() >= 1,
{
    lemma_modulus_bound();
    let n = polys.len() as int;
    let points = evaluations(polys, srs, n)->Ok_0;
    lemma_evaluations_entries(polys, srs, n, points);
    lemma_combination_is_dot(a, points, log, n);
    lemma_weighted_sum_eval(polys, a, n, tau);
    let f = dot_term(a, points, log);
    let h = |i: int| poly_eval(polys[i], tau) * a[i];
    assert forall|i: int| 0 <= i < n implies #[trigger] f(i) == h(i) by {
        assert(srs_value(polys[i], srs) == Ok::<T, Failure>(points[i]));
        assert(in_field(polys[i]));
        lemma_srs_value_exponent(polys[i], srs, log, tau);
    }
    lemma_sum_ext(f, h, n);
    lemma_eval_in_field(weighted_sum(polys, a, n), tau);
    lemma_congruent_scalars(log(g), poly_eval(weighted_sum(polys, a, n), tau));
}

} // verus!
