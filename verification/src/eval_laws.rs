//! Evaluation is a ring homomorphism: the value of a sum, a difference, a scaled
//! polynomial and a product is the sum, the difference, the multiple and the
//! product of the values.

use crate::algebra::coeff;
use crate::algebra::conv;
use crate::algebra::conv_term;
use crate::algebra::degree;
use crate::algebra::eval_term;
use crate::algebra::longer;
use crate::algebra::monomial;
use crate::algebra::poly_add;
use crate::algebra::poly_eval;
use crate::algebra::poly_mul;
use crate::algebra::poly_scale;
use crate::algebra::poly_sub;
use crate::algebra::raw_mul;
use crate::algebra::trim;
use crate::circuits::weighted_sum;
use crate::congruence::congruent;
use crate::congruence::lemma_congruent_add;
use crate::congruence::lemma_congruent_field;
use crate::field::field_add;
use crate::field::field_mul;
use crate::field::field_pow;
use crate::field::field_sub;
use crate::field::lemma_modulus_bound;
use crate::field::modulus;
use crate::sums::lemma_sum_add;
use crate::sums::lemma_sum_congruent;
use crate::sums::lemma_sum_exchange;
use crate::sums::lemma_sum_ext;
use crate::sums::lemma_sum_scale;
use crate::sums::lemma_sum_single;
use crate::sums::lemma_sum_sub;
use crate::sums::lemma_sum_zero;
use crate::sums::lemma_sum_zero_tail;
use crate::sums::sum_to;
use vstd::arithmetic::div_mod::lemma_add_mod_noop;
use vstd::arithmetic::div_mod::lemma_mod_bound;
use vstd::arithmetic::div_mod::lemma_mul_mod_noop_general;
use vstd::arithmetic::div_mod::lemma_mul_mod_noop_left;
use vstd::arithmetic::div_mod::lemma_small_mod;
use vstd::arithmetic::div_mod::lemma_sub_mod_noop;
use vstd::arithmetic::power::lemma_pow_adds;
use vstd::arithmetic::power::pow;
use vstd::prelude::*;

verus! {

/// The sum that gives the value of `a` may run over any range that covers `a`.
pub proof fn lemma_eval_sum_bound(a: Seq<int>, x: int, n: int)
    requires
        n >= a.len(),
    ensures
        sum_to(eval_term(a, x), n) == sum_to(eval_term(a, x), a.len() as int),
{
    let f = eval_term(a, x);
    assert forall|i: int| a.len() <= i < n implies #[trigger] f(i) == 0 by {
        assert(coeff(a, i) == 0);
        assert(0 * pow(x, i as nat) == 0);
    }
    lemma_sum_zero_tail(f, a.len() as int, n);
}

/// The sum that gives a coefficient of a product may run over any range that
/// covers the indices at which both factors have a coefficient.
pub proof fn lemma_conv_sum_bound(a: Seq<int>, b: Seq<int>, k: int, n: int)
    requires
        k >= 0,
        n >= k + 1 || n >= a.len(),
        n >= 0,
    ensures
        sum_to(conv_term(a, b, k), n) == conv(a, b, k),
{
    let f = conv_term(a, b, k);
    if n >= k + 1 {
        assert forall|i: int| k + 1 <= i < n implies #[trigger] f(i) == 0 by {
            assert(coeff(b, k - i) == 0);
            assert(coeff(a, i) * 0 == 0);
        }
        lemma_sum_zero_tail(f, k + 1, n);
    } else {
        assert forall|i: int| n <= i < k + 1 implies #[trigger] f(i) == 0 by {
            assert(coeff(a, i) == 0);
            assert(0 * coeff(b, k - i) == 0);
        }
        lemma_sum_zero_tail(f, n, k + 1);
    }
}

/// The value of a sum is the sum of the values.
pub proof fn lemma_eval_add(a: Seq<int>, b: Seq<int>, x: int)
    ensures
        poly_eval(poly_add(a, b), x) == field_add(poly_eval(a, x), poly_eval(b, x)),
{
    lemma_modulus_bound();
    let p = modulus();
    let n = longer(a, b) as int;
    let s = poly_add(a, b);
    let fs = eval_term(s, x);
    let fa = eval_term(a, x);
    let fb = eval_term(b, x);
    let h = |i: int| fa(i) + fb(i);
    assert forall|i: int| 0 <= i < n implies #[trigger] fs(i) % p == h(i) % p by {
        let u = coeff(a, i);
        let v = coeff(b, i);
        let w = pow(x, i as nat);
        assert(s[i] == (u + v) % p);
        lemma_mul_mod_noop_left(u + v, w, p);
        assert((u + v) * w == u * w + v * w) by (nonlinear_arith);
    }
    lemma_sum_congruent(fs, h, n, p);
    lemma_sum_add(fa, fb, h, n);
    lemma_eval_sum_bound(a, x, n);
    lemma_eval_sum_bound(b, x, n);
    lemma_add_mod_noop(sum_to(fa, a.len() as int), sum_to(fb, b.len() as int), p);
}

/// The value of a difference is the difference of the values.
pub proof fn lemma_eval_sub(a: Seq<int>, b: Seq<int>, x: int)
    ensures
        poly_eval(poly_sub(a, b), x) == field_sub(poly_eval(a, x), poly_eval(b, x)),
{
    lemma_modulus_bound();
    let p = modulus();
    let n = longer(a, b) as int;
    let s = poly_sub(a, b);
    let fs = eval_term(s, x);
    let fa = eval_term(a, x);
    let fb = eval_term(b, x);
    let h = |i: int| fa(i) - fb(i);
    assert forall|i: int| 0 <= i < n implies #[trigger] fs(i) % p == h(i) % p by {
        let u = coeff(a, i);
        let v = coeff(b, i);
        let w = pow(x, i as nat);
        assert(s[i] == (u - v) % p);
        lemma_mul_mod_noop_left(u - v, w, p);
        assert((u - v) * w == u * w - v * w) by (nonlinear_arith);
    }
    lemma_sum_congruent(fs, h, n, p);
    lemma_sum_sub(fa, fb, h, n);
    lemma_eval_sum_bound(a, x, n);
    lemma_eval_sum_bound(b, x, n);
    lemma_sub_mod_noop(sum_to(fa, a.len() as int), sum_to(fb, b.len() as int), p);
}

/// The value of a scaled polynomial is the scaled value.
pub proof fn lemma_eval_scale(a: Seq<int>, c: int, x: int)
    ensures
        poly_eval(poly_scale(a, c), x) == field_mul(poly_eval(a, x), c),
{
    lemma_modulus_bound();
    let p = modulus();
    let n = a.len() as int;
    let s = poly_scale(a, c);
    let fs = eval_term(s, x);
    let fa = eval_term(a, x);
    let h = |i: int| c * fa(i);
    assert forall|i: int| 0 <= i < n implies #[trigger] fs(i) % p == h(i) % p by {
        let w = pow(x, i as nat);
        assert(s[i] == (a[i] * c) % p);
        lemma_mul_mod_noop_left(a[i] * c, w, p);
        assert((a[i] * c) * w == c * (a[i] * w)) by (nonlinear_arith);
    }
    lemma_sum_congruent(fs, h, n, p);
    lemma_sum_scale(fa, c, h, n);
    lemma_mul_mod_noop_left(sum_to(fa, n), c, p);
    assert(c * sum_to(fa, n) == sum_to(fa, n) * c) by (nonlinear_arith);
}

/// Cutting trailing zeros does not change the value.
pub proof fn lemma_eval_trim(a: Seq<int>, x: int)
    ensures
        poly_eval(trim(a), x) == poly_eval(a, x),
    decreases a.len(),
{
    if a.len() > 0 && a.last() == 0 {
        let shorter = a.drop_last();
        lemma_eval_trim(shorter, x);
        let f = eval_term(a, x);
        let g = eval_term(shorter, x);
        assert(f(a.len() - 1) == 0) by {
            assert(coeff(a, a.len() - 1) == 0);
            assert(0 * pow(x, (a.len() - 1) as nat) == 0);
        }
        assert forall|i: int| 0 <= i < shorter.len() implies #[trigger] f(i) == g(i) by {
            assert(coeff(a, i) == coeff(shorter, i));
        }
        lemma_sum_ext(f, g, shorter.len() as int);
    }
}

/// The part of a product that a single coefficient of the first factor gives:
/// the sum over `k` of `b[k - i] * x^k` is `x^i` times the value of `b`.
pub proof fn lemma_shifted_eval(b: Seq<int>, x: int, i: int, n: int)
    requires
        i >= 0,
        n >= 0,
    ensures
        sum_to(|k: int| coeff(b, k - i) * pow(x, k as nat), i + n) == pow(x, i as nat) * sum_to(
            eval_term(b, x),
            n,
        ),
    decreases n,
{
    let f = |k: int| coeff(b, k - i) * pow(x, k as nat);
    let g = eval_term(b, x);
    if n == 0 {
        assert forall|k: int| 0 <= k < i implies #[trigger] f(k) == 0 by {
            assert(coeff(b, k - i) == 0);
            assert(0 * pow(x, k as nat) == 0);
        }
        lemma_sum_zero(f, i);
        assert(pow(x, i as nat) * 0 == 0);
    } else {
        lemma_shifted_eval(b, x, i, n - 1);
        let c = coeff(b, n - 1);
        let s = sum_to(g, n - 1);
        let xi = pow(x, i as nat);
        let xn = pow(x, (n - 1) as nat);
        lemma_pow_adds(x, i as nat, (n - 1) as nat);
        assert(pow(x, (i + n - 1) as nat) == xi * xn);
        assert(f(i + n - 1) == c * (xi * xn));
        assert(g(n - 1) == c * xn);
        assert(xi * s + c * (xi * xn) == xi * (s + c * xn)) by (nonlinear_arith);
    }
}

/// Over the integers, the value of the convolution is the product of the values.
proof fn lemma_eval_conv(a: Seq<int>, b: Seq<int>, x: int, n: int)
    requires
        n >= 1 + degree(a) + degree(b),
    ensures
        sum_to(|k: int| conv(a, b, k) * pow(x, k as nat), n) == sum_to(
            eval_term(a, x),
            a.len() as int,
        ) * sum_to(eval_term(b, x), b.len() as int),
{
    let la = a.len() as int;
    let ea = sum_to(eval_term(a, x), la);
    let eb = sum_to(eval_term(b, x), b.len() as int);
    let f = |i: int, k: int| coeff(a, i) * (coeff(b, k - i) * pow(x, k as nat));
    let cols = |k: int| conv(a, b, k) * pow(x, k as nat);
    let rows = |i: int| eb * eval_term(a, x)(i);
    assert forall|k: int| 0 <= k < n implies #[trigger] cols(k) == sum_to(
        |i: int| f(i, k),
        la,
    ) by {
        let w = pow(x, k as nat);
        let column = |i: int| f(i, k);
        let ct = conv_term(a, b, k);
        if la >= 0 {
            assert forall|i: int| 0 <= i < la implies #[trigger] column(i) == w * ct(i) by {
                let u = coeff(a, i);
                let v = coeff(b, k - i);
                assert(u * (v * w) == w * (u * v)) by (nonlinear_arith);
            }
            lemma_sum_scale(ct, w, column, la);
            if la == 0 {
                assert(sum_to(ct, 0) == 0);
                assert forall|i: int| 0 <= i < k + 1 implies #[trigger] ct(i) == 0 by {
                    assert(coeff(a, i) == 0);
                    assert(0 * coeff(b, k - i) == 0);
                }
                lemma_sum_zero(ct, k + 1);
            } else {
                lemma_conv_sum_bound(a, b, k, la);
            }
            assert(w * conv(a, b, k) == conv(a, b, k) * w) by (nonlinear_arith);
        }
    }
    assert forall|i: int| 0 <= i < la implies #[trigger] rows(i) == sum_to(
        |k: int| f(i, k),
        n,
    ) by {
        let u = coeff(a, i);
        let row = |k: int| f(i, k);
        let shifted = |k: int| coeff(b, k - i) * pow(x, k as nat);
        assert forall|k: int| 0 <= k < n implies #[trigger] row(k) == u * shifted(k) by {}
        lemma_sum_scale(shifted, u, row, n);
        lemma_shifted_eval(b, x, i, n - i);
        lemma_eval_sum_bound(b, x, n - i);
        let xi = pow(x, i as nat);
        assert(sum_to(shifted, n) == xi * eb);
        assert(u * (xi * eb) == eb * (u * xi)) by (nonlinear_arith);
    }
    lemma_sum_exchange(f, rows, cols, la, n);
    lemma_sum_scale(eval_term(a, x), eb, rows, la);
    assert(eb * ea == ea * eb) by (nonlinear_arith);
}

/// The value of a product is the product of the values.
pub proof fn lemma_eval_mul(a: Seq<int>, b: Seq<int>, x: int)
    ensures
        poly_eval(poly_mul(a, b), x) == field_mul(poly_eval(a, x), poly_eval(b, x)),
{
    lemma_modulus_bound();
    let p = modulus();
    let r = raw_mul(a, b);
    let n = 1 + degree(a) + degree(b);
    lemma_eval_trim(r, x);
    let fr = eval_term(r, x);
    let g = |k: int| conv(a, b, k) * pow(x, k as nat);
    assert forall|k: int| 0 <= k < n implies #[trigger] fr(k) % p == g(k) % p by {
        assert(r[k] == conv(a, b, k) % p);
        lemma_mul_mod_noop_left(conv(a, b, k), pow(x, k as nat), p);
    }
    lemma_sum_congruent(fr, g, n, p);
    lemma_eval_conv(a, b, x, n);
    lemma_mul_mod_noop_general(
        sum_to(eval_term(a, x), a.len() as int),
        sum_to(eval_term(b, x), b.len() as int),
        p,
    );
}

/// A value is a canonical representative.
pub proof fn lemma_eval_in_field(a: Seq<int>, x: int)
    ensures
        0 <= poly_eval(a, x) < modulus(),
{
    lemma_modulus_bound();
    lemma_mod_bound(sum_to(eval_term(a, x), a.len() as int), modulus());
}

/// The value of a zero polynomial is zero.
pub proof fn lemma_eval_of_zero(a: Seq<int>, x: int)
    requires
        forall|i: int| 0 <= i < a.len() ==> #[trigger] a[i] == 0,
    ensures
        sum_to(eval_term(a, x), a.len() as int) == 0,
        poly_eval(a, x) == 0,
{
    lemma_modulus_bound();
    let f = eval_term(a, x);
    assert forall|i: int| 0 <= i < a.len() implies #[trigger] f(i) == 0 by {
        assert(a[i] == 0);
        assert(0 * pow(x, i as nat) == 0);
    }
    lemma_sum_zero(f, a.len() as int);
    lemma_small_mod(0, modulus() as nat);
}

/// The value of `x^j` at `x`.
pub proof fn lemma_monomial_eval(j: int, x: int)
    requires
        j >= 0,
    ensures
        poly_eval(monomial(j), x) == field_pow(x, j as nat),
{
    let m = monomial(j);
    let f = eval_term(m, x);
    assert forall|i: int| 0 <= i < j + 1 && i != j implies #[trigger] f(i) == 0 by {
        assert(coeff(m, i) == 0);
        assert(0 * pow(x, i as nat) == 0);
    }
    lemma_sum_single(f, j + 1, j);
    assert(coeff(m, j) == 1);
    assert(1 * pow(x, j as nat) == pow(x, j as nat));
}

/// The value at `x` of a sum of polynomials weighted by scalars is the sum of
/// their values weighted by the scalars.
pub proof fn lemma_weighted_sum_eval(polys: Seq<Seq<int>>, a: Seq<int>, n: int, x: int)
    requires
        0 <= n <= polys.len(),
        n <= a.len(),
    ensures
        congruent(
            poly_eval(weighted_sum(polys, a, n), x),
            sum_to(|i: int| poly_eval(polys[i], x) * a[i], n),
        ),
    decreases n,
{
    lemma_modulus_bound();
    let f = |i: int| poly_eval(polys[i], x) * a[i];
    if n <= 0 {
        lemma_eval_of_zero(Seq::<int>::empty(), x);
    } else {
        lemma_weighted_sum_eval(polys, a, n - 1, x);
        let before = weighted_sum(polys, a, n - 1);
        let term = poly_scale(polys[n - 1], a[n - 1]);
        lemma_eval_add(before, term, x);
        lemma_eval_scale(polys[n - 1], a[n - 1], x);
        lemma_congruent_field(poly_eval(before, x), poly_eval(term, x));
        lemma_congruent_field(poly_eval(polys[n - 1], x), a[n - 1]);
        lemma_congruent_add(
            poly_eval(before, x),
            sum_to(f, n - 1),
            poly_eval(term, x),
            f(n - 1),
        );
    }
}

} // verus!
