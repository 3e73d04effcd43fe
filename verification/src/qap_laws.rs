//! A witness that satisfies a constraint system gives a numerator `A·B − W` that
//! the vanishing polynomial divides.
//!
//! This is where the scalars have to be a field: a polynomial with more roots
//! than its degree is zero only where every scalar but zero has an inverse. The
//! hypothesis is `scalars_form_a_field`; every division of the library yields
//! the inverse of its divisor, but no proof can call one.

use crate::algebra::basis_denominator;
use crate::algebra::coeff;
use crate::algebra::eval_term;
use crate::algebra::in_field;
use crate::algebra::interpolation;
use crate::algebra::is_zero_poly;
use crate::algebra::long_div_quotient;
use crate::algebra::long_div_remainder;
use crate::algebra::poly_eval;
use crate::algebra::poly_mul;
use crate::algebra::poly_sub;
use crate::algebra::root_factor;
use crate::algebra::vanishing;
use crate::circuits::interpolated;
use crate::circuits::matrix_shape;
use crate::circuits::row_term;
use crate::circuits::row_value;
use crate::circuits::satisfies;
use crate::circuits::weighted_sum;
use crate::congruence::lemma_congruent_add;
use crate::congruence::lemma_congruent_mul;
use crate::congruence::lemma_congruent_residue;
use crate::congruence::lemma_congruent_scalars;
use crate::division_laws::eval_sum;
use crate::division_laws::is_unit;
use crate::division_laws::lemma_conv_of_zero;
use crate::division_laws::lemma_long_division_coefficients;
use crate::division_laws::lemma_long_division_eval;
use crate::division_laws::lemma_long_quotient_in_field;
use crate::division_laws::lemma_one_is_unit;
use crate::division_laws::lemma_quotient_len;
use crate::division_laws::lemma_remainder_in_field;
use crate::division_laws::lemma_remainder_len;
use crate::division_laws::lemma_unit_is_no_zero_divisor;
use crate::eval_laws::lemma_eval_in_field;
use crate::eval_laws::lemma_eval_mul;
use crate::eval_laws::lemma_eval_of_zero;
use crate::eval_laws::lemma_eval_sub;
use crate::eval_laws::lemma_weighted_sum_eval;
use crate::field::field_mul;
use crate::field::field_sub;
use crate::field::lemma_modulus_bound;
use crate::field::modulus;
use crate::groth16::quotient_polynomial;
use crate::interpolation_laws::denominators_invertible;
use crate::interpolation_laws::lemma_denominator_in_field;
use crate::interpolation_laws::lemma_interpolation_takes_values;
use crate::interpolation_laws::lemma_root_factor_eval;
use crate::interpolation_laws::lemma_small_difference_nonzero;
use crate::interpolation_laws::lemma_vanishing_in_field;
use crate::interpolation_laws::lemma_vanishing_is_zero_on_domain;
use crate::interpolation_laws::lemma_vanishing_shape;
use crate::sums::lemma_sum_ext;
use crate::sums::sum_to;
use vstd::arithmetic::div_mod::lemma_small_mod;
use vstd::arithmetic::power::lemma_pow0;
use vstd::prelude::*;

verus! {

/// Every scalar but zero has an inverse.
pub open spec fn scalars_form_a_field() -> bool {
    forall|x: int| 0 < x < modulus() ==> #[trigger] is_unit(x)
}

/// The value of a polynomial with a single coefficient.
pub proof fn lemma_constant_eval(c: int, x: int)
    requires
        0 <= c < modulus(),
    ensures
        poly_eval(seq![c], x) == c,
{
    let f = eval_term(seq![c], x);
    lemma_pow0(x);
    assert(seq![c][0] == c);
    assert(f(0) == c * 1);
    assert(sum_to(f, 1) == sum_to(f, 0) + f(0));
    lemma_small_mod(c as nat, modulus() as nat);
}

/// A polynomial with at most `d` coefficients that is zero at the `d` points
/// `1, ..., d` is the zero polynomial, over a field.
pub proof fn lemma_roots_force_zero(r: Seq<int>, d: int)
    requires
        scalars_form_a_field(),
        in_field(r),
        r.len() <= d,
        d < 0x1_0000_0000_0000_0000_0000_0000_0000_0000,
        forall|k: int| 1 <= k <= d ==> #[trigger] poly_eval(r, k) == 0,
    ensures
        is_zero_poly(r),
    decreases d,
{
    lemma_modulus_bound();
    let p = modulus();
    if r.len() == 0 {
    } else if r.len() == 1 {
        assert(r =~= seq![r[0]]);
        lemma_constant_eval(r[0], d);
        assert(poly_eval(r, d) == 0);
    } else {
        let f = root_factor(d - 1);
        assert(f.last() == 1);
        lemma_one_is_unit();
        assert(in_field(f)) by {
            lemma_congruent_residue(-d);
            assert(f[0] == crate::field::field_neg(d));
            assert(f[1] == 1);
        }
        let q = long_div_quotient(r, f);
        let rest = long_div_remainder(r, f);
        lemma_remainder_len(r, f);
        lemma_remainder_in_field(r, f);
        lemma_long_quotient_in_field(r, f);
        lemma_quotient_len(r, f);
        // the remainder is a constant, and zero at d
        assert(rest =~= seq![rest[0]]);
        lemma_long_division_eval(r, f, d);
        lemma_root_factor_eval(d - 1, d);
        lemma_small_mod(0, p as nat);
        assert(poly_eval(f, d) == 0);
        lemma_congruent_residue(eval_sum(f, d));
        lemma_congruent_mul(eval_sum(q, d), eval_sum(q, d), eval_sum(f, d), 0);
        assert(eval_sum(q, d) * 0 == 0);
        lemma_congruent_add(eval_sum(q, d) * eval_sum(f, d), 0, eval_sum(rest, d), eval_sum(rest, d));
        lemma_constant_eval(rest[0], d);
        assert(poly_eval(r, d) == 0);
        assert(rest[0] == 0);
        // the quotient is zero at the points below d
        assert forall|k: int| 1 <= k <= d - 1 implies #[trigger] poly_eval(q, k) == 0 by {
            lemma_long_division_eval(r, f, k);
            lemma_eval_of_zero(rest, k);
            assert(poly_eval(r, k) == 0);
            lemma_root_factor_eval(d - 1, k);
            lemma_small_difference_nonzero(k, d);
            lemma_congruent_residue(k - d);
            let y = poly_eval(f, k);
            assert(0 < y < p);
            assert(is_unit(y));
            lemma_small_mod(0, p as nat);
            assert((eval_sum(q, k) * eval_sum(f, k)) % p == 0);
            vstd::arithmetic::div_mod::lemma_mul_mod_noop_general(
                eval_sum(q, k),
                eval_sum(f, k),
                p,
            );
            assert(field_mul(poly_eval(q, k), y) == 0);
            lemma_eval_in_field(q, k);
            lemma_unit_is_no_zero_divisor(poly_eval(q, k), y);
        }
        lemma_roots_force_zero(q, d - 1);
        // so every coefficient of r is zero
        assert forall|i: int| 0 <= i < r.len() implies #[trigger] r[i] == 0 by {
            lemma_long_division_coefficients(r, f, i);
            assert forall|j: int| #![trigger coeff(q, j)] coeff(q, j) == 0 by {
                if 0 <= j < q.len() {
                    assert(q[j] == 0);
                }
            }
            lemma_conv_of_zero(q, f, i);
            assert(coeff(rest, i) == 0);
            lemma_small_mod(0, p as nat);
            lemma_congruent_scalars(r[i], 0);
        }
    }
}

/// The denominators of the basis polynomials are not zero, over a field.
pub proof fn lemma_denominator_nonzero(i: int, m: int)
    requires
        scalars_form_a_field(),
        0 <= i,
        0 <= m,
        i < 0x1_0000_0000_0000_0000_0000_0000_0000_0000 - 1,
        m < 0x1_0000_0000_0000_0000_0000_0000_0000_0000,
    ensures
        basis_denominator(i, m) != 0,
    decreases m,
{
    lemma_modulus_bound();
    if m <= 0 {
    } else if m - 1 == i {
        lemma_denominator_nonzero(i, m - 1);
    } else {
        lemma_denominator_nonzero(i, m - 1);
        lemma_denominator_in_field(i, m - 1);
        lemma_small_difference_nonzero(i + 1, m);
        lemma_congruent_residue(i + 1 - m);
        let y = field_sub(i + 1, m);
        assert(is_unit(y));
        if basis_denominator(i, m) == 0 {
            lemma_unit_is_no_zero_divisor(basis_denominator(i, m - 1), y);
        }
    }
}

/// The denominators of the basis polynomials have inverses, over a field.
pub proof fn lemma_denominators_invertible(n: int)
    requires
        scalars_form_a_field(),
        0 <= n < 0x1_0000_0000_0000_0000_0000_0000_0000_0000,
    ensures
        denominators_invertible(n),
{
    assert forall|i: int| 0 <= i < n implies is_unit(#[trigger] basis_denominator(i, n)) by {
        lemma_denominator_nonzero(i, n);
        lemma_denominator_in_field(i, n);
    }
}

/// The sum of the interpolations of the columns of a matrix, weighted by a
/// witness, takes at the point `k + 1` the value of row `k` of the product of the
/// matrix and the witness.
pub proof fn lemma_weighted_interpolation_eval(
    m: Seq<Seq<int>>,
    a: Seq<int>,
    n_constraints: int,
    k: int,
)
    requires
        scalars_form_a_field(),
        0 <= k < n_constraints,
        n_constraints < 0x1_0000_0000_0000_0000_0000_0000_0000_0000,
        matrix_shape(m, a.len() as int, n_constraints),
        forall|i: int| 0 <= i < m.len() ==> in_field(#[trigger] m[i]),
    ensures
        poly_eval(weighted_sum(interpolated(m), a, a.len() as int), k + 1) == row_value(m, a, k),
{
    lemma_modulus_bound();
    let n = a.len() as int;
    let polys = interpolated(m);
    lemma_denominators_invertible(n_constraints);
    lemma_weighted_sum_eval(polys, a, n, k + 1);
    let f = |i: int| poly_eval(polys[i], k + 1) * a[i];
    let g = row_term(m, a, k);
    assert forall|i: int| 0 <= i < n implies #[trigger] f(i) == g(i) by {
        assert(m[i].len() == n_constraints);
        assert(in_field(m[i]));
        lemma_interpolation_takes_values(m[i]);
        assert(polys[i] == interpolation(m[i]));
        assert(poly_eval(interpolation(m[i]), k + 1) == m[i][k]);
    }
    lemma_sum_ext(f, g, n);
    lemma_eval_in_field(weighted_sum(polys, a, n), k + 1);
    lemma_congruent_residue(sum_to(g, n));
    lemma_congruent_scalars(poly_eval(weighted_sum(polys, a, n), k + 1), row_value(m, a, k));
}

/// A witness that satisfies a constraint system has an exact quotient: for the
/// program that interpolates the system, the vanishing polynomial of the domain
/// divides `A·B − W`, over a field.
pub proof fn lemma_satisfying_witness_has_exact_quotient(
    l: Seq<Seq<int>>,
    r: Seq<Seq<int>>,
    o: Seq<Seq<int>>,
    a: Seq<int>,
    n_constraints: int,
)
    requires
        scalars_form_a_field(),
        1 <= n_constraints < 0x1_0000_0000_0000_0000_0000_0000_0000_0000,
        matrix_shape(l, a.len() as int, n_constraints),
        matrix_shape(r, a.len() as int, n_constraints),
        matrix_shape(o, a.len() as int, n_constraints),
        forall|i: int| 0 <= i < l.len() ==> in_field(#[trigger] l[i]),
        forall|i: int| 0 <= i < r.len() ==> in_field(#[trigger] r[i]),
        forall|i: int| 0 <= i < o.len() ==> in_field(#[trigger] o[i]),
        satisfies(l, r, o, a, n_constraints),
    ensures
        quotient_polynomial(interpolated(l), interpolated(r), interpolated(o), a, n_constraints)
            is Ok,
{
    lemma_modulus_bound();
    let p = modulus();
    let n = a.len() as int;
    let d = n_constraints;
    let au = weighted_sum(interpolated(l), a, n);
    let av = weighted_sum(interpolated(r), a, n);
    let aw = weighted_sum(interpolated(o), a, n);
    let numerator = poly_sub(poly_mul(au, av), aw);
    let t = vanishing(d);
    lemma_vanishing_shape(d);
    lemma_vanishing_in_field(d);
    lemma_one_is_unit();
    assert(in_field(numerator)) by {
        assert forall|i: int| 0 <= i < numerator.len() implies 0 <= #[trigger] numerator[i]
            < p by {
            lemma_congruent_residue(coeff(poly_mul(au, av), i) - coeff(aw, i));
        }
    }
    let rest = long_div_remainder(numerator, t);
    let q = long_div_quotient(numerator, t);
    lemma_remainder_len(numerator, t);
    lemma_remainder_in_field(numerator, t);
    assert forall|k: int| 1 <= k <= d implies #[trigger] poly_eval(rest, k) == 0 by {
        // the numerator is zero at k
        lemma_weighted_interpolation_eval(l, a, d, k - 1);
        lemma_weighted_interpolation_eval(r, a, d, k - 1);
        lemma_weighted_interpolation_eval(o, a, d, k - 1);
        lemma_eval_sub(poly_mul(au, av), aw, k);
        lemma_eval_mul(au, av, k);
        assert(field_mul(row_value(l, a, k - 1), row_value(r, a, k - 1)) == row_value(
            o,
            a,
            k - 1,
        ));
        lemma_small_mod(0, p as nat);
        assert(poly_eval(numerator, k) == 0);
        // and so is the divisor
        lemma_vanishing_is_zero_on_domain(d, k);
        lemma_long_division_eval(numerator, t, k);
        lemma_congruent_residue(eval_sum(t, k));
        lemma_congruent_mul(eval_sum(q, k), eval_sum(q, k), eval_sum(t, k), 0);
        assert(eval_sum(q, k) * 0 == 0);
        lemma_congruent_add(
            eval_sum(q, k) * eval_sum(t, k),
            0,
            eval_sum(rest, k),
            eval_sum(rest, k),
        );
        lemma_congruent_residue(eval_sum(numerator, k));
        lemma_congruent_residue(eval_sum(rest, k));
    }
    lemma_roots_force_zero(rest, d);
    assert(!is_zero_poly(t)) by {
        assert(t[t.len() - 1] != 0);
    }
}

} // verus!
