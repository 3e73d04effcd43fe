//! Long division undoes multiplication: `(P · Q) / Q = P`.

use crate::algebra::coeff;
use crate::algebra::conv;
use crate::algebra::conv_term;
use crate::algebra::div_step_quotient;
use crate::algebra::div_step_remainder;
use crate::algebra::eval_term;
use crate::algebra::in_field;
use crate::algebra::is_lead_form;
use crate::algebra::is_zero_poly;
use crate::algebra::long_div_quotient;
use crate::algebra::long_div_remainder;
use crate::algebra::poly_div;
use crate::algebra::poly_eval;
use crate::algebra::poly_mul;
use crate::algebra::raw_mul;
use crate::algebra::trim;
use crate::congruence::congruent;
use crate::congruence::lemma_congruent_add;
use crate::congruence::lemma_congruent_field;
use crate::congruence::lemma_congruent_mul;
use crate::congruence::lemma_congruent_residue;
use crate::congruence::lemma_congruent_sub;
use crate::error::Failure;
use crate::eval_laws::lemma_eval_of_zero;
use crate::eval_laws::lemma_eval_sum_bound;
use crate::eval_laws::lemma_eval_trim;
use crate::eval_laws::lemma_shifted_eval;
use crate::field::field_div;
use crate::field::field_inv;
use crate::field::field_mul;
use crate::field::field_sub;
use crate::field::is_inverse;
use crate::field::lemma_modulus_bound;
use crate::field::modulus;
use crate::ring_laws::lemma_conv_support;
use crate::ring_laws::lemma_raw_mul_coeff;
use crate::ring_laws::lemma_trim_canonical;
use crate::ring_laws::lemma_trim_coeff;
use crate::ring_laws::lemma_trim_unique;
use crate::sums::lemma_sum_add;
use crate::sums::lemma_sum_congruent;
use crate::sums::lemma_sum_ext;
use crate::sums::lemma_sum_scale;
use crate::sums::lemma_sum_single;
use crate::sums::lemma_sum_zero;
use crate::sums::sum_to;
use vstd::arithmetic::div_mod::lemma_mod_bound;
use vstd::arithmetic::div_mod::lemma_mul_mod_noop_general;
use vstd::arithmetic::div_mod::lemma_mul_mod_noop_left;
use vstd::arithmetic::div_mod::lemma_mul_mod_noop_right;
use vstd::arithmetic::div_mod::lemma_small_mod;
use vstd::arithmetic::div_mod::lemma_sub_mod_noop;
use vstd::arithmetic::power::pow;
use vstd::prelude::*;

verus! {

/// `y` has a multiplicative inverse in the field.
pub open spec fn is_unit(y: int) -> bool {
    is_inverse(field_inv(y), y)
}

/// A product with a unit, divided by the unit, is the other factor.
pub proof fn lemma_div_cancels_unit(x: int, y: int)
    requires
        0 <= x < modulus(),
        is_unit(y),
    ensures
        field_div(field_mul(x, y), y) == x,
{
    lemma_modulus_bound();
    let p = modulus();
    let inv = field_inv(y);
    lemma_mul_mod_noop_left(x * y, inv, p);
    assert((x * y) * inv == x * (inv * y)) by (nonlinear_arith);
    lemma_mul_mod_noop_right(x, inv * y, p);
    assert(x * 1 == x);
    lemma_small_mod(x as nat, p as nat);
}

/// A unit is no zero divisor.
pub proof fn lemma_unit_is_no_zero_divisor(x: int, y: int)
    requires
        0 <= x < modulus(),
        is_unit(y),
        field_mul(x, y) == 0,
    ensures
        x == 0,
{
    lemma_modulus_bound();
    lemma_div_cancels_unit(x, y);
    assert(0 * field_inv(y) == 0);
    lemma_small_mod(0, modulus() as nat);
}

/// The coefficients of a polynomial without coefficients are zero, and so are
/// those of its products.
pub proof fn lemma_conv_of_zero(s: Seq<int>, q: Seq<int>, k: int)
    requires
        forall|i: int| #![trigger coeff(s, i)] coeff(s, i) == 0,
    ensures
        conv(s, q, k) == 0,
{
    let f = conv_term(s, q, k);
    assert forall|i: int| 0 <= i < k + 1 implies #[trigger] f(i) == 0 by {
        assert(coeff(s, i) == 0);
        assert(0 * coeff(q, k - i) == 0);
    }
    lemma_sum_zero(f, k + 1);
}

/// A product depends on the coefficients of its first factor only, not on the
/// trailing zeros with which they are written.
pub proof fn lemma_conv_same_coefficients(s: Seq<int>, t: Seq<int>, q: Seq<int>, k: int)
    requires
        forall|i: int| #![trigger coeff(s, i)] #![trigger coeff(t, i)] coeff(s, i) == coeff(t, i),
    ensures
        conv(s, q, k) == conv(t, q, k),
{
    let f = conv_term(s, q, k);
    let g = conv_term(t, q, k);
    assert forall|i: int| 0 <= i < k + 1 implies #[trigger] f(i) == g(i) by {
        assert(coeff(s, i) == coeff(t, i));
    }
    lemma_sum_ext(f, g, k + 1);
}

/// The highest coefficient of the first factor gives its own part of every
/// coefficient of a product.
pub proof fn lemma_conv_drop_last(s: Seq<int>, q: Seq<int>, k: int)
    requires
        s.len() >= 1,
        k >= 0,
    ensures
        conv(s, q, k) == conv(s.drop_last(), q, k) + s.last() * coeff(q, k - (s.len() - 1)),
{
    let n = s.len() as int;
    let shorter = s.drop_last();
    let h = conv_term(s, q, k);
    let f = conv_term(shorter, q, k);
    let g = |j: int|
        if j == n - 1 {
            s.last() * coeff(q, k - j)
        } else {
            0int
        };
    assert forall|j: int| 0 <= j < k + 1 implies #[trigger] h(j) == f(j) + g(j) by {
        if j == n - 1 {
            assert(coeff(s, j) == s.last());
            assert(coeff(shorter, j) == 0);
            assert(0 * coeff(q, k - j) == 0);
        } else {
            assert(coeff(s, j) == coeff(shorter, j));
        }
    }
    lemma_sum_add(f, g, h, k + 1);
    if n - 1 < k + 1 {
        lemma_sum_single(g, k + 1, n - 1);
    } else {
        lemma_sum_zero(g, k + 1);
        assert(coeff(q, k - (n - 1)) == 0);
        assert(s.last() * 0 == 0);
    }
}

/// The product of `s` and `q` with one coefficient for every power up to the sum
/// of the degrees, whether or not the highest are zero.
pub open spec fn product_seq(s: Seq<int>, q: Seq<int>) -> Seq<int> {
    Seq::new((s.len() + q.len() - 1) as nat, |k: int| conv(s, q, k) % modulus())
}

/// The highest coefficient of a product is the product of the highest
/// coefficients.
pub proof fn lemma_product_top(s: Seq<int>, q: Seq<int>)
    requires
        s.len() >= 1,
        q.len() >= 1,
    ensures
        conv(s, q, s.len() + q.len() - 2) == s.last() * q.last(),
{
    let k = s.len() + q.len() - 2;
    lemma_conv_drop_last(s, q, k);
    let shorter = s.drop_last();
    if shorter.len() == 0 {
        lemma_conv_of_zero(shorter, q, k);
    } else {
        lemma_conv_support(shorter, q, k);
    }
}

/// One step of long division of a product takes the highest coefficient of the
/// first factor off.
pub proof fn lemma_division_step(s: Seq<int>, q: Seq<int>)
    requires
        in_field(s),
        in_field(q),
        s.len() >= 1,
        q.len() >= 1,
        is_unit(q.last()),
    ensures
        div_step_quotient(product_seq(s, q), q) == s.last(),
        div_step_remainder(product_seq(s, q), q) == product_seq(s.drop_last(), q),
{
    lemma_modulus_bound();
    let p = modulus();
    let r = product_seq(s, q);
    let n = s.len() as int;
    let k = n - 1;
    let shorter = s.drop_last();
    lemma_product_top(s, q);
    assert(r.last() == field_mul(s.last(), q.last()));
    lemma_div_cancels_unit(s.last(), q.last());
    let c = div_step_quotient(r, q);
    assert(c == s.last());
    let after = div_step_remainder(r, q);
    let expected = product_seq(shorter, q);
    assert(after.len() == expected.len());
    assert forall|i: int| 0 <= i < after.len() implies after[i] == expected[i] by {
        lemma_conv_drop_last(s, q, i);
        if i >= k {
            let x = conv(s, q, i);
            let y = c * q[i - k];
            assert(coeff(q, i - k) == q[i - k]);
            lemma_sub_mod_noop(x, y, p);
            lemma_mod_bound(x, p);
            lemma_small_mod((x % p) as nat, p as nat);
            assert(after[i] == field_sub(r[i], field_mul(c, q[i - k])));
        } else {
            assert(coeff(q, i - k) == 0);
            assert(s.last() * 0 == 0);
        }
    }
    assert(after =~= expected);
}

/// Long division of the product of `s` and `q` by `q` gives `s` and leaves
/// nothing.
pub proof fn lemma_long_division_of_product(s: Seq<int>, q: Seq<int>)
    requires
        in_field(s),
        in_field(q),
        q.len() >= 1,
        is_unit(q.last()),
    ensures
        long_div_quotient(product_seq(s, q), q) == s,
        is_zero_poly(long_div_remainder(product_seq(s, q), q)),
    decreases s.len(),
{
    lemma_modulus_bound();
    let r = product_seq(s, q);
    if s.len() == 0 {
        assert(long_div_quotient(r, q) =~= s);
        assert forall|i: int| 0 <= i < r.len() implies #[trigger] r[i] == 0 by {
            lemma_conv_of_zero(s, q, i);
            lemma_small_mod(0, modulus() as nat);
        }
    } else {
        lemma_division_step(s, q);
        lemma_long_division_of_product(s.drop_last(), q);
        assert(s.drop_last().push(s.last()) =~= s);
    }
}

/// A sequence that does not end in zero has no trailing zeros to cut.
pub proof fn lemma_trim_of_canonical(s: Seq<int>)
    requires
        s.len() > 0 ==> s.last() != 0,
    ensures
        trim(s) == s,
{
}

/// `(P · Q) / Q = P`, for a divisor `Q` that does not end in zero and whose
/// highest coefficient has an inverse: the quotient is `P` without its trailing
/// zeros.
pub proof fn lemma_mul_then_div(a: Seq<int>, q: Seq<int>)
    requires
        in_field(a),
        in_field(q),
        q.len() >= 1,
        q.last() != 0,
        is_unit(q.last()),
    ensures
        poly_div(poly_mul(a, q), q) == Ok::<Seq<int>, Failure>(trim(a)),
{
    lemma_modulus_bound();
    let p = modulus();
    let s = trim(a);
    let m = poly_mul(a, q);
    lemma_trim_canonical(a);
    assert(in_field(s)) by {
        assert forall|i: int| 0 <= i < s.len() implies 0 <= #[trigger] s[i] < p by {
            lemma_trim_coeff(a, i);
            assert(coeff(a, i) == a[i]);
        }
    }
    assert forall|i: int| #![trigger coeff(s, i)] #![trigger coeff(a, i)] coeff(s, i) == coeff(
        a,
        i,
    ) by {
        lemma_trim_coeff(a, i);
    }
    assert(!is_zero_poly(q)) by {
        assert(q[q.len() - 1] != 0);
    }
    if s.len() == 0 {
        let empty = Seq::<int>::empty();
        assert forall|k: int|
            #![trigger coeff(raw_mul(a, q), k)]
            #![trigger coeff(empty, k)]
            coeff(raw_mul(a, q), k) == coeff(empty, k) by {
            if k >= 0 {
                lemma_raw_mul_coeff(a, q, k);
                lemma_conv_same_coefficients(a, s, q, k);
                lemma_conv_of_zero(s, q, k);
                lemma_small_mod(0, p as nat);
            }
        }
        lemma_trim_unique(raw_mul(a, q), empty);
        assert(m == empty);
        assert(s =~= empty);
    } else {
        let r = product_seq(s, q);
        lemma_product_top(s, q);
        assert(r.last() == field_mul(s.last(), q.last()));
        if r.last() == 0 {
            lemma_unit_is_no_zero_divisor(s.last(), q.last());
        }
        assert forall|k: int|
            #![trigger coeff(raw_mul(a, q), k)]
            #![trigger coeff(r, k)]
            coeff(raw_mul(a, q), k) == coeff(r, k) by {
            if k >= 0 {
                lemma_raw_mul_coeff(a, q, k);
                lemma_conv_same_coefficients(a, s, q, k);
                if k >= r.len() {
                    lemma_conv_support(s, q, k);
                    lemma_small_mod(0, p as nat);
                }
            }
        }
        lemma_trim_unique(raw_mul(a, q), r);
        lemma_trim_of_canonical(r);
        assert(m == r);
        assert(!is_zero_poly(m)) by {
            assert(m[m.len() - 1] != 0);
        }
        lemma_long_division_of_product(s, q);
        lemma_trim_of_canonical(s);
    }
}

/// Long division of a zero polynomial gives only zeros.
pub proof fn lemma_long_division_of_zero(z: Seq<int>, d: Seq<int>)
    requires
        is_zero_poly(z),
        d.len() >= 1,
    ensures
        is_zero_poly(long_div_remainder(z, d)),
        is_zero_poly(long_div_quotient(z, d)),
    decreases z.len(),
{
    lemma_modulus_bound();
    if z.len() >= d.len() {
        let c = div_step_quotient(z, d);
        assert(z.last() == 0);
        assert(0 * field_inv(d.last()) == 0);
        lemma_small_mod(0, modulus() as nat);
        assert(c == 0);
        let after = div_step_remainder(z, d);
        assert forall|i: int| 0 <= i < after.len() implies #[trigger] after[i] == 0 by {
            assert(z[i] == 0);
            if i >= z.len() - d.len() {
                assert(0 * d[i - (z.len() - d.len())] == 0);
            }
        }
        lemma_long_division_of_zero(after, d);
    }
}

/// The quotient of two polynomials with a single term each has a single term:
/// long division takes one step and leaves nothing.
pub proof fn lemma_division_of_lead_forms(a: Seq<int>, d: Seq<int>)
    requires
        is_lead_form(a),
        is_lead_form(d),
        a.len() >= d.len(),
        d.len() >= 1,
    ensures
        is_zero_poly(long_div_remainder(a, d)),
        long_div_quotient(a, d) == Seq::new(
            (a.len() - d.len() + 1) as nat,
            |i: int|
                if i == a.len() - d.len() {
                    field_div(a.last(), d.last())
                } else {
                    0int
                },
        ),
{
    lemma_modulus_bound();
    let k = a.len() - d.len();
    let c = div_step_quotient(a, d);
    let after = div_step_remainder(a, d);
    assert forall|i: int| 0 <= i < after.len() implies #[trigger] after[i] == 0 by {
        assert(a[i] == 0);
        if i >= k {
            assert(d[i - k] == 0);
            assert(c * 0 == 0);
            lemma_small_mod(0, modulus() as nat);
        }
    }
    lemma_long_division_of_zero(after, d);
    let rest = long_div_quotient(after, d);
    assert(rest.len() == k) by {
        lemma_quotient_len(after, d);
    }
    assert(long_div_quotient(a, d) =~= Seq::new(
        (a.len() - d.len() + 1) as nat,
        |i: int|
            if i == a.len() - d.len() {
                field_div(a.last(), d.last())
            } else {
                0int
            },
    ));
}

/// The quotient of long division has one coefficient for every step.
pub proof fn lemma_quotient_len(r: Seq<int>, d: Seq<int>)
    ensures
        long_div_quotient(r, d).len() == (if d.len() > 0 && r.len() >= d.len() {
            r.len() - d.len() + 1
        } else {
            0
        }),
    decreases r.len(),
{
    if d.len() > 0 && r.len() >= d.len() {
        lemma_quotient_len(div_step_remainder(r, d), d);
    }
}

/// The sum of the terms of the value of `s` at `x`, over the integers.
pub open spec fn eval_sum(s: Seq<int>, x: int) -> int {
    sum_to(eval_term(s, x), s.len() as int)
}

/// One step of long division in terms of values: what the step takes off the
/// remainder is the divisor times the term that it adds to the quotient.
pub proof fn lemma_division_step_eval(r: Seq<int>, d: Seq<int>, x: int)
    requires
        in_field(r),
        in_field(d),
        d.len() >= 1,
        r.len() >= d.len(),
        is_unit(d.last()),
    ensures
        congruent(
            eval_sum(r, x),
            eval_sum(div_step_remainder(r, d), x) + div_step_quotient(r, d) * (pow(
                x,
                (r.len() - d.len()) as nat,
            ) * eval_sum(d, x)),
        ),
{
    lemma_modulus_bound();
    let p = modulus();
    let n = r.len() as int;
    let k = n - d.len();
    let c = div_step_quotient(r, d);
    let after = div_step_remainder(r, d);
    let fr = eval_term(r, x);
    let fa = eval_term(after, x);
    let shifted = |i: int| coeff(d, i - k) * pow(x, i as nat);
    let scaled = |i: int| c * shifted(i);
    let g = |i: int| fa(i) + scaled(i);
    assert forall|i: int| 0 <= i < n implies #[trigger] fr(i) % p == g(i) % p by {
        let w = pow(x, i as nat);
        let u = coeff(d, i - k);
        assert(fr(i) == r[i] * w);
        assert(g(i) == coeff(after, i) * w + c * (u * w));
        assert(coeff(after, i) * w + c * (u * w) == (coeff(after, i) + c * u) * w)
            by (nonlinear_arith);
        if i < k {
            assert(u == 0);
            assert(c * 0 == 0);
            assert(coeff(after, i) == r[i]);
        } else if i < n - 1 {
            assert(u == d[i - k]);
            assert(after[i] == field_sub(r[i], field_mul(c, u)));
            lemma_congruent_field(r[i], field_mul(c, u));
            lemma_congruent_field(c, u);
            lemma_congruent_sub(r[i], r[i], field_mul(c, u), c * u);
            lemma_congruent_add(after[i], r[i] - c * u, c * u, c * u);
            assert(congruent(after[i] + c * u, r[i]));
            lemma_congruent_mul(after[i] + c * u, r[i], w, w);
        } else {
            assert(coeff(after, i) == 0);
            assert(u == d.last());
            assert(r[i] == r.last());
            let inv = field_inv(d.last());
            // c * d.last() is congruent to r.last() * (inv * d.last()), and to r.last()
            lemma_congruent_field(r.last(), inv);
            lemma_congruent_mul(c, r.last() * inv, u, u);
            assert((r.last() * inv) * u == r.last() * (inv * u)) by (nonlinear_arith);
            lemma_congruent_residue(inv * u);
            lemma_small_mod(1, p as nat);
            lemma_congruent_mul(r.last(), r.last(), inv * u, 1);
            assert(r.last() * 1 == r.last());
            assert(congruent(c * u, r.last()));
            lemma_congruent_mul(0 + c * u, r[i], w, w);
        }
    }
    lemma_sum_congruent(fr, g, n, p);
    lemma_sum_add(fa, scaled, g, n);
    lemma_sum_scale(shifted, c, scaled, n);
    lemma_eval_sum_bound(after, x, n);
    lemma_shifted_eval(d, x, k, d.len() as int);
}

/// Long division in terms of values: the dividend is the quotient times the
/// divisor plus the remainder, at every point.
pub proof fn lemma_long_division_eval(r: Seq<int>, d: Seq<int>, x: int)
    requires
        in_field(r),
        in_field(d),
        d.len() >= 1,
        is_unit(d.last()),
    ensures
        congruent(
            eval_sum(r, x),
            eval_sum(long_div_quotient(r, d), x) * eval_sum(d, x) + eval_sum(
                long_div_remainder(r, d),
                x,
            ),
        ),
    decreases r.len(),
{
    lemma_modulus_bound();
    if r.len() < d.len() {
        let q = long_div_quotient(r, d);
        assert(eval_sum(q, x) == 0);
        assert(0 * eval_sum(d, x) == 0);
    } else {
        let after = div_step_remainder(r, d);
        let c = div_step_quotient(r, d);
        let k = (r.len() - d.len()) as int;
        let shorter = long_div_quotient(after, d);
        let q = long_div_quotient(r, d);
        let rest = eval_sum(long_div_remainder(r, d), x);
        let ed = eval_sum(d, x);
        let w = pow(x, k as nat);
        assert(in_field(after)) by {
            assert forall|i: int| 0 <= i < after.len() implies 0 <= #[trigger] after[i]
                < modulus() by {
                if i >= k {
                    lemma_congruent_residue(r[i] - field_mul(c, d[i - k]));
                } else {
                    assert(after[i] == r[i]);
                }
            }
        }
        lemma_long_division_eval(after, d, x);
        lemma_division_step_eval(r, d, x);
        lemma_quotient_len(after, d);
        assert(q == shorter.push(c));
        // the value of the quotient gains the term of the new coefficient
        let fq = eval_term(q, x);
        let fs = eval_term(shorter, x);
        assert forall|i: int| 0 <= i < k implies #[trigger] fq(i) == fs(i) by {
            assert(coeff(q, i) == coeff(shorter, i));
        }
        lemma_sum_ext(fq, fs, k);
        assert(coeff(q, k) == c);
        assert(fq(k) == c * w);
        assert(eval_sum(q, x) == eval_sum(shorter, x) + c * w);
        let es = eval_sum(shorter, x);
        assert((es + c * w) * ed + rest == (es * ed + rest) + c * (w * ed)) by (nonlinear_arith);
        lemma_congruent_add(eval_sum(after, x), es * ed + rest, c * (w * ed), c * (w * ed));
    }
}

/// An exact division in terms of values: the dividend is the quotient times the
/// divisor, at every point.
pub proof fn lemma_exact_division_eval(a: Seq<int>, d: Seq<int>, q: Seq<int>, x: int)
    requires
        in_field(a),
        in_field(d),
        d.len() >= 1,
        d.last() != 0,
        is_unit(d.last()),
        poly_div(a, d) == Ok::<Seq<int>, Failure>(q),
    ensures
        poly_eval(a, x) == field_mul(poly_eval(q, x), poly_eval(d, x)),
{
    lemma_modulus_bound();
    let p = modulus();
    assert(!is_zero_poly(d)) by {
        assert(d[d.len() - 1] != 0);
    }
    if is_zero_poly(a) {
        lemma_eval_of_zero(a, x);
        assert(q =~= Seq::<int>::empty());
        lemma_eval_of_zero(q, x);
        assert(0 * poly_eval(d, x) == 0);
        lemma_small_mod(0, p as nat);
    } else {
        let full = long_div_quotient(a, d);
        let rest = long_div_remainder(a, d);
        lemma_long_division_eval(a, d, x);
        lemma_eval_of_zero(rest, x);
        lemma_eval_trim(full, x);
        lemma_mul_mod_noop_general(eval_sum(full, x), eval_sum(d, x), p);
    }
}

/// One is a unit.
pub proof fn lemma_one_is_unit()
    ensures
        is_unit(1),
{
    lemma_modulus_bound();
    assert(1 * 1 == 1);
    lemma_small_mod(1, modulus() as nat);
    assert(crate::field::is_inverse(1, 1));
}

/// The inverse of a unit, times the unit, is congruent to one.
pub proof fn lemma_unit_cancels(x: int, y: int)
    requires
        is_unit(y),
    ensures
        congruent((x * field_inv(y)) * y, x),
        congruent(field_div(1, y), field_inv(y)),
{
    lemma_modulus_bound();
    let inv = field_inv(y);
    assert((x * inv) * y == x * (inv * y)) by (nonlinear_arith);
    lemma_congruent_residue(inv * y);
    lemma_small_mod(1, modulus() as nat);
    lemma_congruent_mul(x, x, inv * y, 1);
    assert(x * 1 == x);
    assert(1 * inv == inv);
    lemma_congruent_residue(1 * inv);
}

/// Every coefficient of the quotient of long division is a scalar.
pub proof fn lemma_long_quotient_in_field(r: Seq<int>, d: Seq<int>)
    ensures
        in_field(long_div_quotient(r, d)),
    decreases r.len(),
{
    if d.len() > 0 && r.len() >= d.len() {
        lemma_long_quotient_in_field(crate::algebra::div_step_remainder(r, d), d);
        lemma_congruent_residue(r.last() * field_inv(d.last()));
    }
}

/// The quotient of an exact division is a polynomial over the field.
pub proof fn lemma_quotient_in_field(a: Seq<int>, d: Seq<int>, q: Seq<int>)
    requires
        poly_div(a, d) == Ok::<Seq<int>, Failure>(q),
    ensures
        in_field(q),
{
    lemma_modulus_bound();
    let full = long_div_quotient(a, d);
    lemma_long_quotient_in_field(a, d);
    assert forall|i: int| 0 <= i < q.len() implies 0 <= #[trigger] q[i] < modulus() by {
        if q.len() > 0 {
            crate::ring_laws::lemma_trim_coeff(full, i);
            crate::ring_laws::lemma_trim_canonical(full);
            assert(coeff(full, i) == full[i]);
        }
    }
}

/// What long division leaves has fewer coefficients than the divisor.
pub proof fn lemma_remainder_len(r: Seq<int>, d: Seq<int>)
    requires
        d.len() >= 1,
    ensures
        long_div_remainder(r, d).len() == (if r.len() >= d.len() {
            d.len() - 1
        } else {
            r.len() as int
        }),
    decreases r.len(),
{
    if r.len() >= d.len() {
        lemma_remainder_len(div_step_remainder(r, d), d);
    }
}

/// One step of long division leaves a polynomial over the field.
pub proof fn lemma_step_in_field(r: Seq<int>, d: Seq<int>)
    requires
        in_field(r),
        d.len() >= 1,
        r.len() >= d.len(),
    ensures
        in_field(div_step_remainder(r, d)),
{
    let after = div_step_remainder(r, d);
    let c = div_step_quotient(r, d);
    let k = r.len() - d.len();
    assert forall|i: int| 0 <= i < after.len() implies 0 <= #[trigger] after[i] < modulus() by {
        if i >= k {
            lemma_congruent_residue(r[i] - field_mul(c, d[i - k]));
        } else {
            assert(after[i] == r[i]);
        }
    }
}

/// What long division leaves is a polynomial over the field.
pub proof fn lemma_remainder_in_field(r: Seq<int>, d: Seq<int>)
    requires
        in_field(r),
        d.len() >= 1,
    ensures
        in_field(long_div_remainder(r, d)),
    decreases r.len(),
{
    if r.len() >= d.len() {
        lemma_step_in_field(r, d);
        lemma_remainder_in_field(div_step_remainder(r, d), d);
    }
}

/// Long division, coefficient by coefficient: the dividend is the quotient times
/// the divisor plus the remainder.
pub proof fn lemma_long_division_coefficients(r: Seq<int>, d: Seq<int>, i: int)
    requires
        in_field(r),
        in_field(d),
        d.len() >= 1,
        is_unit(d.last()),
        i >= 0,
    ensures
        congruent(
            coeff(r, i),
            conv(long_div_quotient(r, d), d, i) + coeff(long_div_remainder(r, d), i),
        ),
    decreases r.len(),
{
    lemma_modulus_bound();
    let p = modulus();
    if r.len() < d.len() {
        lemma_conv_of_zero(long_div_quotient(r, d), d, i);
    } else {
        let after = div_step_remainder(r, d);
        let c = div_step_quotient(r, d);
        let n = r.len() as int;
        let k = n - d.len();
        let shorter = long_div_quotient(after, d);
        let q = long_div_quotient(r, d);
        lemma_step_in_field(r, d);
        lemma_long_division_coefficients(after, d, i);
        lemma_quotient_len(after, d);
        assert(q == shorter.push(c));
        assert(q.drop_last() =~= shorter);
        lemma_conv_drop_last(q, d, i);
        // the step, coefficient by coefficient
        let u = coeff(d, i - k);
        if i < k {
            assert(u == 0);
            assert(c * 0 == 0);
            assert(coeff(after, i) == coeff(r, i));
        } else if i < n - 1 {
            assert(after[i] == field_sub(r[i], field_mul(c, u)));
            lemma_congruent_field(r[i], field_mul(c, u));
            lemma_congruent_field(c, u);
            lemma_congruent_sub(r[i], r[i], field_mul(c, u), c * u);
            lemma_congruent_add(after[i], r[i] - c * u, c * u, c * u);
        } else if i == n - 1 {
            assert(coeff(after, i) == 0);
            assert(u == d.last());
            let inv = field_inv(d.last());
            lemma_congruent_field(r.last(), inv);
            lemma_congruent_mul(c, r.last() * inv, u, u);
            assert((r.last() * inv) * u == r.last() * (inv * u)) by (nonlinear_arith);
            lemma_congruent_residue(inv * u);
            lemma_small_mod(1, p as nat);
            lemma_congruent_mul(r.last(), r.last(), inv * u, 1);
            assert(r.last() * 1 == r.last());
        } else {
            assert(u == 0);
            assert(c * 0 == 0);
        }
        assert(congruent(coeff(r, i), coeff(after, i) + c * u));
        let rest = coeff(long_div_remainder(r, d), i);
        lemma_congruent_add(coeff(after, i), conv(shorter, d, i) + rest, c * u, c * u);
    }
}

} // verus!
