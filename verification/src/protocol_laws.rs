//! The proofs that the prover emits are accepted.
//!
//! Like the laws of the exponents, this holds where the groups and the pairing
//! are what a pairing promises; the hypothesis is `is_pairing_model`.

use crate::algebra::coeff;
use crate::algebra::eval_term;
use crate::algebra::in_field;
use crate::algebra::monomial;
use crate::algebra::poly_add;
use crate::algebra::poly_div;
use crate::algebra::poly_eval;
use crate::algebra::poly_mul;
use crate::algebra::poly_scale;
use crate::algebra::poly_sub;
use crate::algebra::vanishing;
use crate::circuits::smaller;
use crate::circuits::weighted_sum;
use crate::congruence::congruent;
use crate::congruence::lemma_congruent_add;
use crate::congruence::lemma_congruent_field;
use crate::congruence::lemma_congruent_mul;
use crate::congruence::lemma_congruent_residue;
use crate::congruence::lemma_congruent_scalars;
use crate::congruence::lemma_congruent_sub;
use crate::curve::G1;
use crate::curve::G2;
use crate::curve::Group;
use crate::curve::Gt;
use crate::curve::g1_difference;
use crate::curve::gt_sum;
use crate::curve::pairing_value;
use crate::division_laws::is_unit;
use crate::division_laws::lemma_exact_division_eval;
use crate::division_laws::lemma_one_is_unit;
use crate::division_laws::lemma_quotient_in_field;
use crate::division_laws::lemma_unit_cancels;
use crate::error::Failure;
use crate::eval_laws::lemma_eval_add;
use crate::eval_laws::lemma_eval_mul;
use crate::eval_laws::lemma_eval_scale;
use crate::eval_laws::lemma_eval_sub;
use crate::eval_laws::lemma_monomial_eval;
use crate::eval_laws::lemma_weighted_sum_eval;
use crate::field::field_add;
use crate::field::field_div;
use crate::field::field_inv;
use crate::field::field_mul;
use crate::field::field_pow;
use crate::field::field_sub;
use crate::field::lemma_modulus_bound;
use crate::field::modulus;
use crate::field::scalars_view;
use crate::groth16::Proof;
use crate::groth16::TrustedSetupOutput;
use crate::groth16::commitment;
use crate::groth16::expected_proof;
use crate::groth16::program_degree;
use crate::groth16::proof_accepted;
use crate::groth16::psi_entries;
use crate::groth16::psi_poly;
use crate::groth16::published;
use crate::groth16::quotient_polynomial;
use crate::groth16::slot_divisor;
use crate::groth16::tail_combination;
use crate::groth16::z_poly;
use crate::groth16::z_srs;
use crate::interpolation_laws::lemma_scale_div_is_scale;
use crate::interpolation_laws::lemma_vanishing_in_field;
use crate::interpolation_laws::lemma_vanishing_shape;
use crate::pairing_laws::counts_from_g1_generator;
use crate::pairing_laws::counts_from_g2_generator;
use crate::pairing_laws::dot_term;
use crate::pairing_laws::is_exponent_map;
use crate::pairing_laws::is_power_string;
use crate::pairing_laws::lemma_combination_is_dot;
use crate::pairing_laws::lemma_commitment_exponent;
use crate::pairing_laws::lemma_g1_srs_is_power_string;
use crate::pairing_laws::lemma_g2_srs_is_power_string;
use crate::pairing_laws::lemma_srs_value_exponent;
use crate::pairing_laws::lemma_tail_combination_is_dot;
use crate::pairing_laws::sum_between;
use crate::polynomial::polynomials_view;
use crate::polynomial::srs_combination;
use crate::polynomial::srs_value;
use crate::sums::lemma_sum_add;
use crate::sums::lemma_sum_congruent;
use crate::sums::lemma_sum_ext;
use crate::sums::lemma_sum_scale;
use crate::sums::lemma_sum_tail_ext;
use crate::sums::sum_to;
use vstd::arithmetic::power::pow;
use vstd::prelude::*;

verus! {

/// The three maps are exponent maps of the groups of a pairing: of the two source
/// groups, counted from their generators, and of the target group, in which the
/// pairing of two points, where it is defined, has the product of their exponents
/// as its exponent.
pub open spec fn is_pairing_model(
    log1: spec_fn(G1) -> int,
    log2: spec_fn(G2) -> int,
    logt: spec_fn(Gt) -> int,
) -> bool {
    &&& is_exponent_map(log1)
    &&& counts_from_g1_generator(log1)
    &&& is_exponent_map(log2)
    &&& counts_from_g2_generator(log2)
    &&& forall|a: G1, b: G1| #[trigger] log1(g1_difference(a, b)) == field_sub(log1(a), log1(b))
    &&& forall|t: Gt| 0 <= #[trigger] logt(t) < modulus()
    &&& forall|p: G1, q: G2| #[trigger]
        pairing_value(p, q) matches Some(t) ==> logt(t) == field_mul(log1(p), log2(q))
    &&& forall|x: Gt, y: Gt| #[trigger] logt(gt_sum(x, y)) == field_add(logt(x), logt(y))
    &&& forall|x: Gt, y: Gt| #[trigger] logt(x) == #[trigger] logt(y) ==> x == y
}

/// The value of `x^j · t(x) / delta` at `x`, up to congruence.
pub proof fn lemma_z_poly_eval(d: int, j: int, delta: int, x: int)
    requires
        j >= 0,
    ensures
        congruent(
            poly_eval(z_poly(d, j, delta), x),
            (poly_eval(vanishing(d), x) * field_inv(delta)) * pow(x, j as nat),
        ),
{
    lemma_modulus_bound();
    let t = poly_eval(vanishing(d), x);
    let inv = field_inv(delta);
    let w = pow(x, j as nat);
    let product = poly_mul(vanishing(d), monomial(j));
    lemma_scale_div_is_scale(product, delta);
    lemma_eval_scale(product, inv, x);
    lemma_eval_mul(vanishing(d), monomial(j), x);
    lemma_monomial_eval(j, x);
    lemma_congruent_field(poly_eval(product, x), inv);
    lemma_congruent_field(t, field_pow(x, j as nat));
    lemma_congruent_residue(w);
    lemma_congruent_mul(t, t, field_pow(x, j as nat), w);
    lemma_congruent_mul(poly_eval(product, x), t * w, inv, inv);
    assert((t * w) * inv == (t * inv) * w) by (nonlinear_arith);
}

/// Where every entry of the reference string of the vanishing polynomial can be
/// made, the entries are the combinations.
pub proof fn lemma_z_srs_entries(d: int, delta: int, srs: Seq<G1>, m: int, entries: Seq<G1>)
    requires
        m >= 0,
        z_srs(d, delta, srs, m) == Ok::<Seq<G1>, Failure>(entries),
    ensures
        entries.len() == m,
        forall|j: int|
            0 <= j < m ==> #[trigger] srs_value(z_poly(d, j, delta), srs) == Ok::<G1, Failure>(
                entries[j],
            ),
    decreases m,
{
    if m > 0 {
        let before = z_srs(d, delta, srs, m - 1)->Ok_0;
        lemma_z_srs_entries(d, delta, srs, m - 1, before);
        let g = srs_value(z_poly(d, m - 1, delta), srs)->Ok_0;
        assert(entries == before.push(g));
        assert forall|j: int| 0 <= j < m implies #[trigger] srs_value(
            z_poly(d, j, delta),
            srs,
        ) == Ok::<G1, Failure>(entries[j]) by {
            if j < m - 1 {
                assert(entries[j] == before[j]);
            }
        }
    }
}

/// Where every point that commits to a witness slot can be made, the points are
/// the combinations, divided by the divisors of their slots, none of which is
/// zero.
pub proof fn lemma_psi_entries_entries(
    u: Seq<Seq<int>>,
    v: Seq<Seq<int>>,
    w: Seq<Seq<int>>,
    public_len: int,
    srs: Seq<G1>,
    alpha: int,
    beta: int,
    gamma: int,
    delta: int,
    m: int,
    entries: Seq<G1>,
)
    requires
        m >= 0,
        psi_entries(u, v, w, public_len, srs, alpha, beta, gamma, delta, m) == Ok::<
            Seq<G1>,
            Failure,
        >(entries),
    ensures
        entries.len() == m,
        forall|i: int|
            0 <= i < m ==> (#[trigger] srs_value(psi_poly(u[i], v[i], w[i], alpha, beta), srs)
                matches Ok(g) && entries[i] == g.scaled(
                field_div(1, slot_divisor(i, public_len, gamma, delta)),
            ) && slot_divisor(i, public_len, gamma, delta) != 0),
    decreases m,
{
    if m > 0 {
        let before = psi_entries(u, v, w, public_len, srs, alpha, beta, gamma, delta, m - 1)->Ok_0;
        lemma_psi_entries_entries(
            u,
            v,
            w,
            public_len,
            srs,
            alpha,
            beta,
            gamma,
            delta,
            m - 1,
            before,
        );
        let g = srs_value(psi_poly(u[m - 1], v[m - 1], w[m - 1], alpha, beta), srs)->Ok_0;
        let last = g.scaled(field_div(1, slot_divisor(m - 1, public_len, gamma, delta)));
        assert(entries == before.push(last));
        assert forall|i: int| 0 <= i < m implies (#[trigger] srs_value(
            psi_poly(u[i], v[i], w[i], alpha, beta),
            srs,
        ) matches Ok(g) && entries[i] == g.scaled(
            field_div(1, slot_divisor(i, public_len, gamma, delta)),
        ) && slot_divisor(i, public_len, gamma, delta) != 0) by {
            if i < m - 1 {
                assert(entries[i] == before[i]);
            }
        }
    }
}

/// The verification equation in the exponent: it follows from what the prover
/// and the setup compute, once the quotient `H` is exact.
pub proof fn lemma_verification_equation(
    alpha: int,
    beta: int,
    gamma: int,
    delta: int,
    r: int,
    s: int,
    ue: int,
    ve: int,
    we: int,
    h: int,
    t: int,
    log_a: int,
    log_b: int,
    log_b1: int,
    log_x: int,
    log_p: int,
    log_ht: int,
    log_c: int,
)
    requires
        congruent(log_a, alpha + ue + delta * r),
        congruent(log_b, beta + ve + delta * s),
        congruent(log_b1, beta + ve + delta * s),
        congruent(log_x * gamma + log_p * delta, alpha * ve + beta * ue + we),
        congruent(log_ht * delta, t * h),
        congruent(log_c, log_p + log_ht + log_a * s + log_b1 * r - delta * (r * s)),
        congruent(ue * ve - we, h * t),
    ensures
        congruent(log_a * log_b, alpha * beta + log_x * gamma + log_c * delta),
{
    let big_r = delta * r;
    let big_s = delta * s;
    let a = alpha + ue + big_r;
    let b = beta + ve + big_s;
    // the left side
    lemma_congruent_mul(log_a, a, log_b, b);
    // C times delta
    let x = log_p;
    let y = log_ht;
    let z = log_a * s + log_b1 * r - delta * (r * s);
    assert((x + y + z) * delta == x * delta + y * delta + z * delta) by (nonlinear_arith);
    lemma_congruent_mul(log_c, x + y + z, delta, delta);
    lemma_congruent_mul(log_a, a, s, s);
    lemma_congruent_mul(log_b1, b, r, r);
    lemma_congruent_add(log_a * s, a * s, log_b1 * r, b * r);
    lemma_congruent_sub(log_a * s + log_b1 * r, a * s + b * r, delta * (r * s), delta * (r * s));
    let blind = a * s + b * r - delta * (r * s);
    lemma_congruent_mul(z, blind, delta, delta);
    // the right side: alpha beta + (X gamma + P delta) + HT delta + blinding
    let right = alpha * beta + log_x * gamma + log_c * delta;
    lemma_congruent_add(x * delta, x * delta, y * delta, t * h);
    lemma_congruent_add(x * delta + y * delta, x * delta + t * h, z * delta, blind * delta);
    assert(congruent(log_c * delta, x * delta + t * h + blind * delta));
    lemma_congruent_add(
        alpha * beta + log_x * gamma,
        alpha * beta + log_x * gamma,
        log_c * delta,
        x * delta + t * h + blind * delta,
    );
    lemma_congruent_add(
        alpha * beta,
        alpha * beta,
        log_x * gamma + x * delta,
        alpha * ve + beta * ue + we,
    );
    lemma_congruent_add(
        alpha * beta + (log_x * gamma + x * delta),
        alpha * beta + (alpha * ve + beta * ue + we),
        t * h + blind * delta,
        t * h + blind * delta,
    );
    let opened = alpha * beta + (alpha * ve + beta * ue + we) + (t * h + blind * delta);
    assert(congruent(right, opened));
    // the two sides differ by the quotient equation
    assert(a * b == alpha * beta + alpha * ve + alpha * big_s + ue * beta + ue * ve + ue * big_s
        + big_r * beta + big_r * ve + big_r * big_s) by (nonlinear_arith)
        requires
            a == alpha + ue + big_r,
            b == beta + ve + big_s,
    ;
    assert((a * s) * delta == alpha * big_s + ue * big_s + big_r * big_s) by (nonlinear_arith)
        requires
            a == alpha + ue + big_r,
            big_s == delta * s,
    ;
    assert((b * r) * delta == big_r * beta + big_r * ve + big_r * big_s) by (nonlinear_arith)
        requires
            b == beta + ve + big_s,
            big_r == delta * r,
    ;
    assert((delta * (r * s)) * delta == big_r * big_s) by (nonlinear_arith)
        requires
            big_r == delta * r,
            big_s == delta * s,
    ;
    assert(blind * delta == (a * s) * delta + (b * r) * delta - (delta * (r * s)) * delta)
        by (nonlinear_arith)
        requires
            blind == a * s + b * r - delta * (r * s),
    ;
    assert(ue * beta == beta * ue) by (nonlinear_arith);
    assert(t * h == h * t) by (nonlinear_arith);
    assert(a * b - opened == (ue * ve - we) - h * t);
    lemma_congruent_sub(ue * ve - we, h * t, h * t, h * t);
    lemma_congruent_add(a * b - opened, 0, opened, opened);
}

/// The exponent of the combination of the reference string of the vanishing
/// polynomial with the quotient `H`, times `delta`, is `t(tau) · H(tau)`.
pub proof fn lemma_quotient_exponent(
    d: int,
    delta: int,
    tau: int,
    srs: Seq<G1>,
    zs: Seq<G1>,
    h: Seq<int>,
    ht: G1,
    log: spec_fn(G1) -> int,
)
    requires
        is_unit(delta),
        in_field(h),
        is_exponent_map(log),
        is_power_string(srs, log, tau),
        z_srs(d, delta, srs, zs.len() as int) == Ok::<Seq<G1>, Failure>(zs),
        srs_value(h, zs) == Ok::<G1, Failure>(ht),
    ensures
        congruent(log(ht) * delta, poly_eval(vanishing(d), tau) * poly_eval(h, tau)),
{
    lemma_modulus_bound();
    let p = modulus();
    let n = h.len() as int;
    let t = poly_eval(vanishing(d), tau);
    let inv = field_inv(delta);
    let kappa = t * inv;
    lemma_z_srs_entries(d, delta, srs, zs.len() as int, zs);
    lemma_combination_is_dot(h, zs, log, n);
    let dot = dot_term(h, zs, log);
    let f = eval_term(h, tau);
    let scaled = |j: int| kappa * f(j);
    assert forall|j: int| 0 <= j < n implies #[trigger] dot(j) % p == scaled(j) % p by {
        let z = z_poly(d, j, delta);
        assert(srs_value(z, srs) == Ok::<G1, Failure>(zs[j]));
        assert(in_field(z)) by {
            assert forall|i: int| 0 <= i < z.len() implies 0 <= #[trigger] z[i] < p by {
                lemma_congruent_residue(
                    poly_mul(vanishing(d), monomial(j))[i] * field_inv(delta),
                );
            }
        }
        lemma_srs_value_exponent(z, srs, log, tau);
        lemma_z_poly_eval(d, j, delta, tau);
        let w = pow(tau, j as nat);
        assert(congruent(log(zs[j]), kappa * w));
        lemma_congruent_mul(log(zs[j]), kappa * w, h[j], h[j]);
        assert(coeff(h, j) == h[j]);
        assert((kappa * w) * h[j] == kappa * (h[j] * w)) by (nonlinear_arith);
    }
    lemma_sum_congruent(dot, scaled, n, p);
    lemma_sum_scale(f, kappa, scaled, n);
    // the sum of the terms of `h` is congruent to its value
    lemma_congruent_residue(sum_to(f, n));
    lemma_congruent_mul(kappa, kappa, sum_to(f, n), poly_eval(h, tau));
    let hv = poly_eval(h, tau);
    assert(congruent(log(ht), kappa * hv));
    lemma_congruent_mul(log(ht), kappa * hv, delta, delta);
    assert(((t * inv) * hv) * delta == ((t * hv) * inv) * delta) by (nonlinear_arith);
    lemma_unit_cancels(t * hv, delta);
}

/// The exponent of a point that commits to a witness slot, times the divisor of
/// the slot, is the value at `tau` of `alpha · v + beta · u + w`.
pub proof fn lemma_slot_exponent(
    u: Seq<int>,
    v: Seq<int>,
    w: Seq<int>,
    alpha: int,
    beta: int,
    divisor: int,
    tau: int,
    srs: Seq<G1>,
    g: G1,
    log: spec_fn(G1) -> int,
)
    requires
        is_unit(divisor),
        is_exponent_map(log),
        is_power_string(srs, log, tau),
        srs_value(psi_poly(u, v, w, alpha, beta), srs) == Ok::<G1, Failure>(g),
    ensures
        congruent(
            log(g.scaled(field_div(1, divisor))) * divisor,
            alpha * poly_eval(v, tau) + beta * poly_eval(u, tau) + poly_eval(w, tau),
        ),
{
    lemma_modulus_bound();
    let p = modulus();
    let poly = psi_poly(u, v, w, alpha, beta);
    let inv = field_inv(divisor);
    assert(in_field(poly)) by {
        assert forall|i: int| 0 <= i < poly.len() implies 0 <= #[trigger] poly[i] < p by {
            lemma_congruent_residue(
                coeff(poly_add(poly_scale(v, alpha), poly_scale(u, beta)), i) + coeff(w, i),
            );
        }
    }
    lemma_srs_value_exponent(poly, srs, log, tau);
    let e = poly_eval(poly, tau);
    let uv = poly_eval(u, tau);
    let vv = poly_eval(v, tau);
    let wv = poly_eval(w, tau);
    // the value of the polynomial of the slot
    let first = poly_scale(v, alpha);
    let second = poly_scale(u, beta);
    lemma_eval_add(poly_add(first, second), w, tau);
    lemma_eval_add(first, second, tau);
    lemma_eval_scale(v, alpha, tau);
    lemma_eval_scale(u, beta, tau);
    lemma_congruent_field(vv, alpha);
    lemma_congruent_field(uv, beta);
    lemma_congruent_field(poly_eval(first, tau), poly_eval(second, tau));
    lemma_congruent_add(poly_eval(first, tau), vv * alpha, poly_eval(second, tau), uv * beta);
    lemma_congruent_field(poly_eval(poly_add(first, second), tau), wv);
    lemma_congruent_add(
        poly_eval(poly_add(first, second), tau),
        vv * alpha + uv * beta,
        wv,
        wv,
    );
    assert(vv * alpha == alpha * vv) by (nonlinear_arith);
    assert(uv * beta == beta * uv) by (nonlinear_arith);
    assert(congruent(e, alpha * vv + beta * uv + wv));
    // the division by the divisor
    lemma_unit_cancels(e, divisor);
    let k = field_div(1, divisor);
    lemma_congruent_residue(1 * inv);
    assert(log(g.scaled(k)) == field_mul(log(g), k));
    lemma_congruent_field(e, k);
    lemma_congruent_mul(e, e, k, inv);
    lemma_congruent_mul(log(g.scaled(k)), e * inv, divisor, divisor);
}

/// The exponents of the points that commit to the witness slots, weighted by
/// the witness and multiplied by the divisors of the slots, add up to the value
/// at `tau` of `alpha · V + beta · U + W`.
pub proof fn lemma_psi_exponents(
    u: Seq<Seq<int>>,
    v: Seq<Seq<int>>,
    w: Seq<Seq<int>>,
    a: Seq<int>,
    public_len: int,
    alpha: int,
    beta: int,
    gamma: int,
    delta: int,
    tau: int,
    srs: Seq<G1>,
    psi: Seq<G1>,
    log: spec_fn(G1) -> int,
)
    requires
        in_field(a),
        u.len() == a.len(),
        v.len() == a.len(),
        w.len() == a.len(),
        0 <= public_len <= a.len(),
        public_len > 0 ==> is_unit(gamma),
        public_len < a.len() ==> is_unit(delta),
        is_exponent_map(log),
        is_power_string(srs, log, tau),
        psi_entries(u, v, w, public_len, srs, alpha, beta, gamma, delta, a.len() as int) == Ok::<
            Seq<G1>,
            Failure,
        >(psi),
    ensures
        congruent(
            sum_to(dot_term(a, psi, log), public_len) * gamma + sum_between(
                dot_term(a, psi, log),
                public_len,
                a.len() as int,
            ) * delta,
            alpha * poly_eval(weighted_sum(v, a, a.len() as int), tau) + beta * poly_eval(
                weighted_sum(u, a, a.len() as int),
                tau,
            ) + poly_eval(weighted_sum(w, a, a.len() as int), tau),
        ),
{
    lemma_modulus_bound();
    let p = modulus();
    let n = a.len() as int;
    let dot = dot_term(a, psi, log);
    lemma_psi_entries_entries(u, v, w, public_len, srs, alpha, beta, gamma, delta, n, psi);
    let su = |i: int| poly_eval(u[i], tau) * a[i];
    let sv = |i: int| poly_eval(v[i], tau) * a[i];
    let sw = |i: int| poly_eval(w[i], tau) * a[i];
    let opened = |i: int| (alpha * sv(i) + beta * su(i)) + sw(i);
    let divided = |i: int| dot(i) * slot_divisor(i, public_len, gamma, delta);
    assert forall|i: int| 0 <= i < n implies #[trigger] divided(i) % p == opened(i) % p by {
        let divisor = slot_divisor(i, public_len, gamma, delta);
        let g = srs_value(psi_poly(u[i], v[i], w[i], alpha, beta), srs)->Ok_0;
        assert(psi[i] == g.scaled(field_div(1, divisor)));
        lemma_slot_exponent(u[i], v[i], w[i], alpha, beta, divisor, tau, srs, g, log);
        let e = alpha * poly_eval(v[i], tau) + beta * poly_eval(u[i], tau) + poly_eval(
            w[i],
            tau,
        );
        lemma_congruent_mul(log(psi[i]) * divisor, e, a[i], a[i]);
        assert((log(psi[i]) * divisor) * a[i] == (log(psi[i]) * a[i]) * divisor)
            by (nonlinear_arith);
        let x = poly_eval(v[i], tau);
        let y = poly_eval(u[i], tau);
        let z = poly_eval(w[i], tau);
        assert((alpha * x + beta * y + z) * a[i] == (alpha * (x * a[i]) + beta * (y * a[i])) + z
            * a[i]) by (nonlinear_arith);
    }
    lemma_sum_congruent(divided, opened, n, p);
    // the sum of the opened terms
    let av = |i: int| alpha * sv(i);
    let bu = |i: int| beta * su(i);
    let both = |i: int| av(i) + bu(i);
    lemma_sum_scale(sv, alpha, av, n);
    lemma_sum_scale(su, beta, bu, n);
    lemma_sum_add(av, bu, both, n);
    lemma_sum_add(both, sw, opened, n);
    lemma_weighted_sum_eval(u, a, n, tau);
    lemma_weighted_sum_eval(v, a, n, tau);
    lemma_weighted_sum_eval(w, a, n, tau);
    let ue = poly_eval(weighted_sum(u, a, n), tau);
    let ve = poly_eval(weighted_sum(v, a, n), tau);
    let we = poly_eval(weighted_sum(w, a, n), tau);
    lemma_congruent_mul(alpha, alpha, sum_to(sv, n), ve);
    lemma_congruent_mul(beta, beta, sum_to(su, n), ue);
    lemma_congruent_add(alpha * sum_to(sv, n), alpha * ve, beta * sum_to(su, n), beta * ue);
    lemma_congruent_add(
        alpha * sum_to(sv, n) + beta * sum_to(su, n),
        alpha * ve + beta * ue,
        sum_to(sw, n),
        we,
    );
    // the sum of the divided terms, split at the end of the public prefix
    let by_gamma = |i: int| gamma * dot(i);
    let by_delta = |i: int| delta * dot(i);
    lemma_sum_scale(dot, gamma, by_gamma, public_len);
    lemma_sum_scale(dot, delta, by_delta, n);
    lemma_sum_scale(dot, delta, by_delta, public_len);
    assert forall|i: int| 0 <= i < public_len implies #[trigger] divided(i) == by_gamma(i) by {
        assert(dot(i) * gamma == gamma * dot(i)) by (nonlinear_arith);
    }
    lemma_sum_ext(divided, by_gamma, public_len);
    assert forall|i: int| public_len <= i < n implies #[trigger] divided(i) == by_delta(i) by {
        assert(dot(i) * delta == delta * dot(i)) by (nonlinear_arith);
    }
    lemma_sum_tail_ext(divided, by_delta, public_len, n);
    let head = sum_to(dot, public_len);
    let tail = sum_between(dot, public_len, n);
    assert(delta * sum_to(dot, n) - delta * head == delta * tail) by (nonlinear_arith)
        requires
            tail == sum_to(dot, n) - head,
    ;
    assert(head * gamma == gamma * head) by (nonlinear_arith);
    assert(tail * delta == delta * tail) by (nonlinear_arith);
    assert(sum_to(divided, n) == head * gamma + tail * delta);
}

/// The hypotheses under which an emitted proof is considered: the setup is what
/// the secrets publish for a program with as many polynomials of each kind as the
/// witness has entries, the divisors `delta` and, where there is a public
/// witness, `gamma` have inverses, the witness begins with the public witness,
/// and `proof` is what the prover emits for the blinding scalars `r` and `s`.
pub open spec fn is_honest_run(
    setup: TrustedSetupOutput,
    alpha: int,
    beta: int,
    tau: int,
    gamma: int,
    delta: int,
    a: Seq<int>,
    r: int,
    s: int,
    proof: Proof,
) -> bool {
    &&& setup.qap.wf()
    &&& setup.qap.u@.len() == a.len()
    &&& setup.qap.v@.len() == a.len()
    &&& setup.qap.w@.len() == a.len()
    &&& crate::groth16::secrets_in_field(alpha, beta, tau, gamma, delta)
    &&& setup.qap.public_witness@.len() > 0 ==> is_unit(gamma)
    &&& is_unit(delta)
    &&& published(setup, setup.qap, alpha, beta, tau, gamma, delta)
    &&& in_field(a)
    &&& 0 <= r < modulus()
    &&& 0 <= s < modulus()
    &&& setup.qap.public_witness@.len() <= a.len()
    &&& forall|i: int|
        0 <= i < setup.qap.public_witness@.len() ==> a[i] == (
        #[trigger] setup.qap.public_witness@[i])@
    &&& expected_proof(setup, a, r, s) == Ok::<Proof, Failure>(proof)
}

/// The verification equation holds in the exponent for every proof that the
/// prover emits: `A · B = alpha · beta + X · gamma + C · delta`, with `X` the
/// combination of the public witness with the points of its slots.
pub proof fn lemma_emitted_proof_exponents(
    setup: TrustedSetupOutput,
    alpha: int,
    beta: int,
    tau: int,
    gamma: int,
    delta: int,
    a: Seq<int>,
    r: int,
    s: int,
    proof: Proof,
    log1: spec_fn(G1) -> int,
    log2: spec_fn(G2) -> int,
)
    requires
        is_honest_run(setup, alpha, beta, tau, gamma, delta, a, r, s, proof),
        is_exponent_map(log1),
        counts_from_g1_generator(log1),
        is_exponent_map(log2),
        counts_from_g2_generator(log2),
        forall|x: G1, y: G1| #[trigger] log1(g1_difference(x, y)) == field_sub(log1(x), log1(y)),
    ensures
        congruent(
            log1(proof.a) * log2(proof.b),
            alpha * beta + sum_to(
                dot_term(a, setup.psi_polynomials@, log1),
                setup.qap.public_witness@.len() as int,
            ) * gamma + log1(proof.c) * delta,
        ),
{
    lemma_modulus_bound();
    let p = modulus();
    let qap = setup.qap;
    let u = polynomials_view(qap.u@);
    let v = polynomials_view(qap.v@);
    let w = polynomials_view(qap.w@);
    let n = a.len() as int;
    let public_len = qap.public_witness@.len() as int;
    let d = program_degree(qap);
    let srs1 = setup.group_1_srs@;
    let srs2 = setup.group_2_srs@;
    let zs = setup.zero_polynomial_srs@;
    let psi = setup.psi_polynomials@;
    assert(smaller(smaller(n, n), n) == n);
    lemma_g1_srs_is_power_string(tau, 2 * d - 1, log1);
    lemma_g2_srs_is_power_string(tau, d, log2);
    assert forall|i: int| 0 <= i < u.len() implies in_field(#[trigger] u[i]) by {
        assert(qap.u@[i].wf());
    }
    assert forall|i: int| 0 <= i < v.len() implies in_field(#[trigger] v[i]) by {
        assert(qap.v@[i].wf());
    }
    // the three commitments
    let eu = commitment(u, srs1, a)->Ok_0;
    let ev2 = commitment(v, srs2, a)->Ok_0;
    let ev1 = commitment(v, srs1, a)->Ok_0;
    let h = quotient_polynomial(u, v, w, a, d)->Ok_0;
    let ht = srs_value(h, zs)->Ok_0;
    assert(commitment(u, srs1, a) is Ok);
    assert(commitment(v, srs2, a) is Ok);
    assert(commitment(v, srs1, a) is Ok);
    assert(quotient_polynomial(u, v, w, a, d) is Ok);
    assert(srs_value(h, zs) is Ok);
    assert(public_len < n);
    lemma_commitment_exponent(u, srs1, a, log1, tau, eu);
    lemma_commitment_exponent(v, srs2, a, log2, tau, ev2);
    lemma_commitment_exponent(v, srs1, a, log1, tau, ev1);
    let ue = poly_eval(weighted_sum(u, a, n), tau);
    let ve = poly_eval(weighted_sum(v, a, n), tau);
    let we = poly_eval(weighted_sum(w, a, n), tau);
    // A, B and B1
    let pa = proof.a;
    let pb = proof.b;
    let pb1 = setup.beta_1.combined(ev1).combined(setup.delta_1.scaled(s));
    assert(pa == setup.alpha.combined(eu).combined(setup.delta_1.scaled(r)));
    assert(pb == setup.beta_2.combined(ev2).combined(setup.delta_2.scaled(s)));
    assert(log1(setup.alpha) == alpha);
    assert(log1(setup.beta_1) == beta);
    assert(log2(setup.beta_2) == beta);
    assert(log1(setup.delta_1) == delta);
    assert(log2(setup.delta_2) == delta);
    lemma_exponent_of_blinded(setup.alpha, eu, setup.delta_1, r, log1);
    lemma_exponent_of_blinded(setup.beta_1, ev1, setup.delta_1, s, log1);
    lemma_exponent_of_blinded(setup.beta_2, ev2, setup.delta_2, s, log2);
    // the quotient
    lemma_vanishing_shape(d);
    lemma_one_is_unit();
    let au = weighted_sum(u, a, n);
    let av = weighted_sum(v, a, n);
    let aw = weighted_sum(w, a, n);
    let numerator = poly_sub(poly_mul(au, av), aw);
    assert(poly_div(numerator, vanishing(d)) == Ok::<Seq<int>, Failure>(h));
    assert(in_field(numerator)) by {
        assert forall|i: int| 0 <= i < numerator.len() implies 0 <= #[trigger] numerator[i]
            < p by {
            lemma_congruent_residue(coeff(poly_mul(au, av), i) - coeff(aw, i));
        }
    }
    assert(in_field(vanishing(d))) by {
        lemma_vanishing_in_field(d);
    }
    lemma_exact_division_eval(numerator, vanishing(d), h, tau);
    lemma_quotient_in_field(numerator, vanishing(d), h);
    lemma_eval_sub(poly_mul(au, av), aw, tau);
    lemma_eval_mul(au, av, tau);
    let hv = poly_eval(h, tau);
    let t = poly_eval(vanishing(d), tau);
    lemma_congruent_field(poly_eval(poly_mul(au, av), tau), we);
    lemma_congruent_field(ue, ve);
    lemma_congruent_sub(poly_eval(poly_mul(au, av), tau), ue * ve, we, we);
    lemma_congruent_field(hv, t);
    assert(congruent(ue * ve - we, hv * t));
    crate::groth16::lemma_z_srs_len(d, delta, srs1, d - 1);
    lemma_quotient_exponent(d, delta, tau, srs1, zs, h, ht, log1);
    // the points of the witness slots
    lemma_psi_exponents(u, v, w, a, public_len, alpha, beta, gamma, delta, tau, srs1, psi, log1);
    crate::groth16::lemma_psi_entries_len(
        u,
        v,
        w,
        public_len,
        srs1,
        alpha,
        beta,
        gamma,
        delta,
        n,
    );
    let private = tail_combination(psi, a, public_len, n);
    lemma_tail_combination_is_dot(a, psi, log1, public_len, n);
    // C
    let dot = dot_term(a, psi, log1);
    let log_p = sum_between(dot, public_len, n);
    let blinding = setup.delta_1.scaled(field_mul(r, s));
    lemma_congruent_residue(r * s);
    let sum = private.combined(ht).combined(pa.scaled(s)).combined(pb1.scaled(r));
    assert(proof.c == g1_difference(sum, blinding));
    assert(log1(proof.c) == field_sub(log1(sum), log1(blinding)));
    assert(log1(blinding) == field_mul(delta, field_mul(r, s)));
    assert(log1(pa.scaled(s)) == field_mul(log1(pa), s));
    assert(log1(pb1.scaled(r)) == field_mul(log1(pb1), r));
    lemma_congruent_field(log1(private), log1(ht));
    lemma_congruent_add(log1(private), log_p, log1(ht), log1(ht));
    lemma_congruent_field(log1(private.combined(ht)), log1(pa.scaled(s)));
    lemma_congruent_field(log1(pa), s);
    lemma_congruent_add(
        log1(private.combined(ht)),
        log_p + log1(ht),
        log1(pa.scaled(s)),
        log1(pa) * s,
    );
    lemma_congruent_field(
        log1(private.combined(ht).combined(pa.scaled(s))),
        log1(pb1.scaled(r)),
    );
    lemma_congruent_field(log1(pb1), r);
    lemma_congruent_add(
        log1(private.combined(ht).combined(pa.scaled(s))),
        log_p + log1(ht) + log1(pa) * s,
        log1(pb1.scaled(r)),
        log1(pb1) * r,
    );
    lemma_congruent_field(log1(sum), log1(blinding));
    lemma_congruent_field(delta, field_mul(r, s));
    lemma_congruent_field(r, s);
    lemma_congruent_mul(delta, delta, field_mul(r, s), r * s);
    lemma_congruent_sub(
        log1(sum),
        log_p + log1(ht) + log1(pa) * s + log1(pb1) * r,
        log1(blinding),
        delta * (r * s),
    );
    lemma_verification_equation(
        alpha,
        beta,
        gamma,
        delta,
        r,
        s,
        ue,
        ve,
        we,
        hv,
        t,
        log1(pa),
        log2(pb),
        log1(pb1),
        sum_to(dot, public_len),
        log_p,
        log1(ht),
        log1(proof.c),
    );
}

/// The exponent of `base + commitment + blinding · k`.
pub proof fn lemma_exponent_of_blinded<T: Group>(
    base: T,
    commitment: T,
    blinding: T,
    k: int,
    log: spec_fn(T) -> int,
)
    requires
        0 <= k < modulus(),
        is_exponent_map(log),
    ensures
        congruent(
            log(base.combined(commitment).combined(blinding.scaled(k))),
            log(base) + log(commitment) + log(blinding) * k,
        ),
{
    let first = base.combined(commitment);
    let second = blinding.scaled(k);
    assert(log(first.combined(second)) == field_add(log(first), log(second)));
    assert(log(first) == field_add(log(base), log(commitment)));
    assert(log(second) == field_mul(log(blinding), k));
    lemma_congruent_field(log(first), log(second));
    lemma_congruent_field(log(base), log(commitment));
    lemma_congruent_field(log(blinding), k);
    lemma_congruent_add(
        log(first),
        log(base) + log(commitment),
        log(second),
        log(blinding) * k,
    );
}

/// Every proof that the prover emits is accepted, where the pairings of the
/// verification equation are defined.
///
/// For a setup of a program, a witness that begins with the public witness of
/// the program and blinding scalars `r` and `s`: if the prover emits a proof
/// (which it does exactly if the quotient `H = (A·B − W) / t` is exact and not
/// without coefficients), then the verifier accepts it for the public witness.
pub proof fn lemma_emitted_proofs_are_accepted(
    setup: TrustedSetupOutput,
    alpha: int,
    beta: int,
    tau: int,
    gamma: int,
    delta: int,
    a: Seq<int>,
    r: int,
    s: int,
    proof: Proof,
    log1: spec_fn(G1) -> int,
    log2: spec_fn(G2) -> int,
    logt: spec_fn(Gt) -> int,
)
    requires
        is_honest_run(setup, alpha, beta, tau, gamma, delta, a, r, s, proof),
        is_pairing_model(log1, log2, logt),
        pairing_value(proof.a, proof.b) is Some,
        pairing_value(setup.alpha, setup.beta_2) is Some,
        pairing_value(proof.c, setup.delta_2) is Some,
        setup.qap.public_witness@.len() > 0 ==> pairing_value(
            srs_combination(
                scalars_view(setup.qap.public_witness@),
                setup.psi_polynomials@,
                setup.qap.public_witness@.len() as int,
            ),
            setup.gamma,
        ) is Some,
    ensures
        proof_accepted(
            proof,
            setup.alpha,
            setup.beta_2,
            setup.gamma,
            setup.delta_2,
            setup.psi_polynomials@,
            scalars_view(setup.qap.public_witness@),
        ),
{
    lemma_modulus_bound();
    let public = scalars_view(setup.qap.public_witness@);
    let m = public.len() as int;
    let psi = setup.psi_polynomials@;
    lemma_emitted_proof_exponents(setup, alpha, beta, tau, gamma, delta, a, r, s, proof, log1, log2);
    let lhs = pairing_value(proof.a, proof.b)->Some_0;
    let alpha_beta = pairing_value(setup.alpha, setup.beta_2)->Some_0;
    let c_delta = pairing_value(proof.c, setup.delta_2)->Some_0;
    assert(logt(lhs) == field_mul(log1(proof.a), log2(proof.b)));
    assert(logt(alpha_beta) == field_mul(log1(setup.alpha), log2(setup.beta_2)));
    assert(logt(c_delta) == field_mul(log1(proof.c), log2(setup.delta_2)));
    assert(log1(setup.alpha) == alpha);
    assert(log2(setup.beta_2) == beta);
    assert(log2(setup.gamma) == gamma);
    assert(log2(setup.delta_2) == delta);
    lemma_congruent_field(log1(proof.a), log2(proof.b));
    lemma_congruent_field(alpha, beta);
    lemma_congruent_field(log1(proof.c), delta);
    let dot = dot_term(a, psi, log1);
    if m == 0 {
        let rhs = gt_sum(alpha_beta, c_delta);
        assert(logt(rhs) == field_add(logt(alpha_beta), logt(c_delta)));
        lemma_congruent_field(logt(alpha_beta), logt(c_delta));
        lemma_congruent_add(logt(alpha_beta), alpha * beta, logt(c_delta), log1(proof.c) * delta);
        assert(sum_to(dot, 0) == 0);
        assert(0 * gamma == 0);
        lemma_congruent_scalars(logt(lhs), logt(rhs));
        assert(lhs == rhs);
    } else {
        let x = srs_combination(public, psi, m);
        let x_gamma = pairing_value(x, setup.gamma)->Some_0;
        assert(logt(x_gamma) == field_mul(log1(x), log2(setup.gamma)));
        assert(in_field(public)) by {
            assert forall|i: int| 0 <= i < public.len() implies 0 <= #[trigger] public[i]
                < modulus() by {
                assert(setup.qap.public_witness@[i].wf());
            }
        }
        assert(psi.len() == a.len());
        lemma_combination_is_dot(public, psi, log1, m);
        let public_dot = dot_term(public, psi, log1);
        assert forall|i: int| 0 <= i < m implies #[trigger] public_dot(i) == dot(i) by {
            assert(public[i] == setup.qap.public_witness@[i]@);
        }
        lemma_sum_ext(public_dot, dot, m);
        lemma_congruent_field(log1(x), gamma);
        lemma_congruent_mul(log1(x), sum_to(dot, m), gamma, gamma);
        let rhs = gt_sum(gt_sum(alpha_beta, x_gamma), c_delta);
        assert(logt(rhs) == field_add(logt(gt_sum(alpha_beta, x_gamma)), logt(c_delta)));
        assert(logt(gt_sum(alpha_beta, x_gamma)) == field_add(logt(alpha_beta), logt(x_gamma)));
        lemma_congruent_field(logt(alpha_beta), logt(x_gamma));
        lemma_congruent_add(logt(alpha_beta), alpha * beta, logt(x_gamma), sum_to(dot, m) * gamma);
        lemma_congruent_field(logt(gt_sum(alpha_beta, x_gamma)), logt(c_delta));
        lemma_congruent_add(
            logt(gt_sum(alpha_beta, x_gamma)),
            alpha * beta + sum_to(dot, m) * gamma,
            logt(c_delta),
            log1(proof.c) * delta,
        );
        lemma_congruent_scalars(logt(lhs), logt(rhs));
        assert(lhs == rhs);
    }
}

} // verus!
