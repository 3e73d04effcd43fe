//! The vanishing polynomial is zero on its domain, and the interpolation of a
//! vector of values takes these values on the domain.

use crate::algebra::basis_denominator;
use crate::algebra::basis_numerator;
use crate::algebra::eval_term;
use crate::algebra::in_field;
use crate::algebra::interpolation;
use crate::algebra::lagrange_basis;
use crate::algebra::lagrange_terms;
use crate::algebra::poly_eval;
use crate::algebra::poly_mul;
use crate::algebra::poly_scale;
use crate::algebra::poly_scale_div;
use crate::algebra::poly_sum;
use crate::algebra::raw_mul;
use crate::algebra::root_factor;
use crate::algebra::vanishing;
use crate::congruence::lemma_congruent_residue;
use crate::division_laws::lemma_product_top;
use crate::eval_laws::lemma_eval_add;
use crate::eval_laws::lemma_eval_mul;
use crate::eval_laws::lemma_eval_scale;
use crate::field::field_inv;
use crate::field::field_mul;
use crate::field::field_neg;
use crate::field::field_sub;
use crate::field::is_inverse;
use crate::field::lemma_modulus_bound;
use crate::field::modulus;
use crate::sums::sum_to;
use vstd::arithmetic::div_mod::lemma_add_mod_noop;
use vstd::arithmetic::div_mod::lemma_mod_add_multiples_vanish;
use vstd::arithmetic::div_mod::lemma_mod_bound;
use vstd::arithmetic::div_mod::lemma_small_mod;
use vstd::arithmetic::power::lemma_pow0;
use vstd::arithmetic::power::lemma_pow1;
use vstd::prelude::*;

verus! {

/// The value of `x - (j + 1)` at `x`.
pub proof fn lemma_root_factor_eval(j: int, x: int)
    ensures
        poly_eval(root_factor(j), x) == field_sub(x, j + 1),
{
    lemma_modulus_bound();
    let p = modulus();
    let f = eval_term(root_factor(j), x);
    let c = field_neg(j + 1);
    lemma_pow0(x);
    lemma_pow1(x);
    assert(root_factor(j)[0] == c);
    assert(root_factor(j)[1] == 1);
    assert(f(0) == c * 1);
    assert(f(1) == 1 * x);
    assert(sum_to(f, 1) == sum_to(f, 0) + f(0));
    assert(sum_to(f, 2) == sum_to(f, 1) + f(1));
    lemma_add_mod_noop(-(j + 1), x, p);
    lemma_mod_bound(x, p);
    lemma_small_mod((x % p) as nat, p as nat);
    assert(((-(j + 1)) % p + x % p) % p == (x - (j + 1)) % p);
    lemma_add_mod_noop(c, x, p);
    lemma_mod_bound(-(j + 1), p);
    lemma_small_mod(c as nat, p as nat);
}

/// A product in the field with a factor zero is zero.
pub proof fn lemma_field_mul_zero(a: int, b: int)
    requires
        a == 0 || b == 0,
    ensures
        field_mul(a, b) == 0,
{
    lemma_modulus_bound();
    assert(a * b == 0) by (nonlinear_arith)
        requires
            a == 0 || b == 0,
    ;
    lemma_small_mod(0, modulus() as nat);
}

/// The vanishing polynomial of the domain `1..=d` is zero at every point of the
/// domain.
pub proof fn lemma_vanishing_is_zero_on_domain(d: int, k: int)
    requires
        1 <= k <= d,
    ensures
        poly_eval(vanishing(d), k) == 0,
    decreases d,
{
    lemma_modulus_bound();
    if d <= 1 {
        lemma_root_factor_eval(0, k);
        lemma_small_mod(0, modulus() as nat);
    } else {
        lemma_eval_mul(vanishing(d - 1), root_factor(d - 1), k);
        lemma_root_factor_eval(d - 1, k);
        if k == d {
            lemma_small_mod(0, modulus() as nat);
        } else {
            lemma_vanishing_is_zero_on_domain(d - 1, k);
        }
        lemma_field_mul_zero(
            poly_eval(vanishing(d - 1), k),
            poly_eval(root_factor(d - 1), k),
        );
    }
}

/// The product of `x - (j + 1)` over the `j < m` other than `i`, in the field.
pub open spec fn numerator_value(i: int, m: int, x: int) -> int
    decreases m,
{
    if m <= 0 {
        1
    } else if m - 1 == i {
        numerator_value(i, m - 1, x)
    } else {
        field_mul(numerator_value(i, m - 1, x), field_sub(x, m))
    }
}

/// The value of the numerator of a basis polynomial is the product of the values
/// of its factors.
pub proof fn lemma_numerator_eval(i: int, m: int, x: int)
    ensures
        poly_eval(basis_numerator(i, m), x) == numerator_value(i, m, x),
    decreases m,
{
    lemma_modulus_bound();
    let p = modulus();
    if m <= 0 {
        let one = seq![1int];
        let f = eval_term(one, x);
        lemma_pow0(x);
        assert(one[0] == 1);
        assert(f(0) == 1 * 1);
        assert(sum_to(f, 1) == sum_to(f, 0) + f(0));
        lemma_small_mod(1, p as nat);
    } else if m - 1 == i {
        lemma_numerator_eval(i, m - 1, x);
    } else {
        lemma_numerator_eval(i, m - 1, x);
        lemma_eval_mul(basis_numerator(i, m - 1), root_factor(m - 1), x);
        lemma_root_factor_eval(m - 1, x);
    }
}

/// At its own point the numerator of a basis polynomial takes the value of the
/// denominator.
pub proof fn lemma_numerator_at_own_point(i: int, m: int)
    ensures
        numerator_value(i, m, i + 1) == basis_denominator(i, m),
    decreases m,
{
    if m > 0 {
        lemma_numerator_at_own_point(i, m - 1);
    }
}

/// At another point of the domain the numerator of a basis polynomial is zero.
pub proof fn lemma_numerator_at_other_point(i: int, m: int, k: int)
    requires
        0 <= k < m,
        k != i,
    ensures
        numerator_value(i, m, k + 1) == 0,
    decreases m,
{
    lemma_modulus_bound();
    if m - 1 == k {
        lemma_small_mod(0, modulus() as nat);
        lemma_field_mul_zero(numerator_value(i, m - 1, k + 1), field_sub(k + 1, m));
    } else {
        lemma_numerator_at_other_point(i, m - 1, k);
        if m - 1 != i {
            lemma_field_mul_zero(numerator_value(i, m - 1, k + 1), field_sub(k + 1, m));
        }
    }
}

/// A denominator is a canonical representative.
pub proof fn lemma_denominator_in_field(i: int, m: int)
    ensures
        0 <= basis_denominator(i, m) < modulus(),
    decreases m,
{
    lemma_modulus_bound();
    if m <= 0 {
    } else if m - 1 == i {
        lemma_denominator_in_field(i, m - 1);
    } else {
        lemma_mod_bound(basis_denominator(i, m - 1) * field_sub(i + 1, m), modulus());
    }
}

/// Dividing every coefficient by `c` is multiplying it by the inverse of `c`.
pub proof fn lemma_scale_div_is_scale(a: Seq<int>, c: int)
    ensures
        poly_scale_div(a, c) == poly_scale(a, field_inv(c)),
{
    assert(poly_scale_div(a, c) =~= poly_scale(a, field_inv(c)));
}

/// A basis polynomial is one at its own point and zero at the other points of
/// the domain, where its denominator has an inverse.
pub proof fn lemma_basis_eval(i: int, n: int, k: int)
    requires
        0 <= i < n,
        0 <= k < n,
        is_inverse(field_inv(basis_denominator(i, n)), basis_denominator(i, n)),
    ensures
        poly_eval(lagrange_basis(i, n), k + 1) == (if k == i {
            1int
        } else {
            0int
        }),
{
    lemma_modulus_bound();
    let p = modulus();
    let d = basis_denominator(i, n);
    let inv = field_inv(d);
    lemma_scale_div_is_scale(basis_numerator(i, n), d);
    lemma_eval_scale(basis_numerator(i, n), inv, k + 1);
    lemma_numerator_eval(i, n, k + 1);
    if k == i {
        lemma_numerator_at_own_point(i, n);
        assert(d * inv == inv * d) by (nonlinear_arith);
    } else {
        lemma_numerator_at_other_point(i, n, k);
        lemma_field_mul_zero(0, inv);
    }
}

/// The denominators of the basis polynomials of the domain `1..=n` have
/// inverses.
pub open spec fn denominators_invertible(n: int) -> bool {
    forall|i: int|
        0 <= i < n ==> is_inverse(
            field_inv(#[trigger] basis_denominator(i, n)),
            basis_denominator(i, n),
        )
}

/// The value at the point `k + 1` of the sum of the first `m` terms of an
/// interpolation: the value `y[k]` once the term of `k` is in the sum.
pub proof fn lemma_partial_interpolation_eval(y: Seq<int>, m: int, k: int)
    requires
        in_field(y),
        0 <= m <= y.len(),
        0 <= k < y.len(),
        denominators_invertible(y.len() as int),
    ensures
        poly_eval(poly_sum(lagrange_terms(y), m), k + 1) == (if k < m {
            y[k]
        } else {
            0int
        }),
    decreases m,
{
    lemma_modulus_bound();
    let p = modulus();
    let n = y.len() as int;
    if m <= 0 {
        let empty = Seq::<int>::empty();
        assert(sum_to(eval_term(empty, k + 1), 0) == 0);
        lemma_small_mod(0, p as nat);
    } else {
        lemma_partial_interpolation_eval(y, m - 1, k);
        let before = poly_sum(lagrange_terms(y), m - 1);
        let term = lagrange_terms(y)[m - 1];
        assert(term == poly_scale(lagrange_basis(m - 1, n), y[m - 1]));
        lemma_eval_add(before, term, k + 1);
        lemma_eval_scale(lagrange_basis(m - 1, n), y[m - 1], k + 1);
        assert(is_inverse(
            field_inv(basis_denominator(m - 1, n)),
            basis_denominator(m - 1, n),
        ));
        lemma_basis_eval(m - 1, n, k);
        assert(0 <= y[k] < p);
        assert(0 <= y[m - 1] < p);
        if k == m - 1 {
            assert(1 * y[k] == y[k]);
            lemma_small_mod(y[k] as nat, p as nat);
            assert(poly_eval(term, k + 1) == y[k]);
            assert(poly_eval(before, k + 1) == 0);
        } else {
            lemma_field_mul_zero(0, y[m - 1]);
            assert(poly_eval(term, k + 1) == 0);
            if k < m - 1 {
                lemma_small_mod(y[k] as nat, p as nat);
            } else {
                lemma_small_mod(0, p as nat);
            }
        }
    }
}

/// The interpolation of the values `y` takes the value `y[k]` at the point
/// `k + 1`, for every `k` below `y.len()`.
pub proof fn lemma_interpolation_takes_values(y: Seq<int>)
    requires
        in_field(y),
        denominators_invertible(y.len() as int),
    ensures
        forall|k: int| 0 <= k < y.len() ==> #[trigger] poly_eval(interpolation(y), k + 1) == y[k],
{
    assert forall|k: int| 0 <= k < y.len() implies #[trigger] poly_eval(
        interpolation(y),
        k + 1,
    ) == y[k] by {
        lemma_partial_interpolation_eval(y, y.len() as int, k);
    }
}

/// A polynomial with highest coefficient one, times `x - (j + 1)`, has one
/// coefficient more, and its highest coefficient is one.
pub proof fn lemma_times_root_factor(a: Seq<int>, j: int)
    requires
        a.len() >= 1,
        a.last() == 1,
    ensures
        poly_mul(a, root_factor(j)).len() == a.len() + 1,
        poly_mul(a, root_factor(j)).last() == 1,
{
    lemma_modulus_bound();
    let f = root_factor(j);
    let raw = raw_mul(a, f);
    lemma_product_top(a, f);
    assert(f.last() == 1);
    assert(1 * 1 == 1);
    lemma_small_mod(1, modulus() as nat);
    assert(raw.last() == 1);
}

/// The numerator of a basis polynomial has one coefficient more than it has
/// factors, and its highest coefficient is one.
pub proof fn lemma_basis_numerator_shape(i: int, m: int)
    requires
        m >= 0,
    ensures
        basis_numerator(i, m).len() == (if 0 <= i < m {
            m
        } else {
            m + 1
        }),
        basis_numerator(i, m).last() == 1,
    decreases m,
{
    if m <= 0 {
    } else if m - 1 == i {
        lemma_basis_numerator_shape(i, m - 1);
    } else {
        lemma_basis_numerator_shape(i, m - 1);
        lemma_times_root_factor(basis_numerator(i, m - 1), m - 1);
    }
}

/// The vanishing polynomial of `1..=d` has `d + 1` coefficients, the highest of
/// them one.
pub proof fn lemma_vanishing_shape(d: int)
    requires
        d >= 1,
    ensures
        vanishing(d).len() == d + 1,
        vanishing(d).last() == 1,
    decreases d,
{
    if d > 1 {
        lemma_vanishing_shape(d - 1);
        lemma_times_root_factor(vanishing(d - 1), d - 1);
    }
}

/// The sum of the first `m` terms of an interpolation of `n` values has `n`
/// coefficients, unless it is empty.
pub proof fn lemma_partial_interpolation_len(y: Seq<int>, m: int)
    requires
        0 <= m <= y.len(),
    ensures
        poly_sum(lagrange_terms(y), m).len() == (if m == 0 {
            0
        } else {
            y.len() as int
        }),
    decreases m,
{
    if m > 0 {
        lemma_partial_interpolation_len(y, m - 1);
        lemma_basis_numerator_shape(m - 1, y.len() as int);
    }
}

/// The interpolation of `n` values has `n` coefficients.
pub proof fn lemma_interpolation_len(y: Seq<int>)
    ensures
        interpolation(y).len() == y.len(),
{
    lemma_partial_interpolation_len(y, y.len() as int);
}

/// The vanishing polynomial is a polynomial over the field.
pub proof fn lemma_vanishing_in_field(d: int)
    ensures
        in_field(vanishing(d)),
    decreases d,
{
    lemma_modulus_bound();
    let p = modulus();
    if d <= 1 {
        lemma_congruent_residue(-1);
        assert(crate::algebra::root_factor(0)[0] == crate::field::field_neg(1));
        assert(crate::algebra::root_factor(0)[1] == 1);
    } else {
        let product = poly_mul(vanishing(d - 1), crate::algebra::root_factor(d - 1));
        assert forall|i: int| 0 <= i < product.len() implies 0 <= #[trigger] product[i] < p by {
            crate::ring_laws::lemma_poly_mul_coeff(
                vanishing(d - 1),
                crate::algebra::root_factor(d - 1),
                i,
            );
            lemma_congruent_residue(
                crate::algebra::conv(vanishing(d - 1), crate::algebra::root_factor(d - 1), i),
            );
        }
    }
}

/// Two different integers of machine size differ in the field.
pub proof fn lemma_small_difference_nonzero(a: int, b: int)
    requires
        0 <= a < 0x1_0000_0000_0000_0000_0000_0000_0000_0000,
        0 <= b < 0x1_0000_0000_0000_0000_0000_0000_0000_0000,
        a != b,
    ensures
        field_sub(a, b) != 0,
{
    lemma_modulus_bound();
    let p = modulus();
    if a > b {
        lemma_small_mod((a - b) as nat, p as nat);
    } else {
        lemma_mod_add_multiples_vanish(a - b, p);
        lemma_small_mod((a - b + p) as nat, p as nat);
    }
}

} // verus!
