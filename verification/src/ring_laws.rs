//! Polynomials form a ring: addition and multiplication are associative.

use crate::algebra::coeff;
use crate::algebra::conv;
use crate::algebra::conv_term;
use crate::algebra::degree;
use crate::algebra::in_field;
use crate::algebra::poly_add;
use crate::algebra::poly_mul;
use crate::algebra::raw_mul;
use crate::algebra::trim;
use crate::division_laws::is_unit;
use crate::division_laws::lemma_product_top;
use crate::division_laws::lemma_unit_is_no_zero_divisor;
use crate::eval_laws::lemma_conv_sum_bound;
use crate::field::field_mul;
use crate::field::lemma_modulus_bound;
use crate::field::modulus;
use crate::sums::lemma_sum_add;
use crate::sums::lemma_sum_congruent;
use crate::sums::lemma_sum_exchange;
use crate::sums::lemma_sum_scale;
use crate::sums::lemma_sum_zero;
use crate::sums::sum_to;
use vstd::arithmetic::div_mod::lemma_add_mod_noop;
use vstd::arithmetic::div_mod::lemma_add_mod_noop_right;
use vstd::arithmetic::div_mod::lemma_mul_mod_noop_left;
use vstd::arithmetic::div_mod::lemma_mul_mod_noop_right;
use vstd::arithmetic::div_mod::lemma_small_mod;
use vstd::prelude::*;

verus! {

/// `(P + Q) + R = P + (Q + R)`.
pub proof fn lemma_add_associative(a: Seq<int>, b: Seq<int>, c: Seq<int>)
    ensures
        poly_add(poly_add(a, b), c) == poly_add(a, poly_add(b, c)),
{
    lemma_modulus_bound();
    let p = modulus();
    let left = poly_add(poly_add(a, b), c);
    let right = poly_add(a, poly_add(b, c));
    assert(left.len() == right.len());
    assert forall|i: int| 0 <= i < left.len() implies left[i] == right[i] by {
        let x = coeff(a, i);
        let y = coeff(b, i);
        let z = coeff(c, i);
        lemma_small_mod(0, p as nat);
        assert(coeff(poly_add(a, b), i) == (x + y) % p);
        assert(coeff(poly_add(b, c), i) == (y + z) % p);
        lemma_add_mod_noop_right(z, x + y, p);
        lemma_add_mod_noop_right(x, y + z, p);
    }
    assert(left =~= right);
}

/// `P + Q = Q + P`.
pub proof fn lemma_add_commutative(a: Seq<int>, b: Seq<int>)
    ensures
        poly_add(a, b) == poly_add(b, a),
{
    assert(poly_add(a, b) =~= poly_add(b, a));
}

/// The polynomial without coefficients is the identity of addition.
pub proof fn lemma_add_identity(a: Seq<int>)
    requires
        in_field(a),
    ensures
        poly_add(a, Seq::empty()) == a,
        poly_add(Seq::empty(), a) == a,
{
    lemma_modulus_bound();
    let p = modulus();
    assert forall|i: int| 0 <= i < a.len() implies #[trigger] poly_add(a, Seq::empty())[i]
        == a[i] by {
        lemma_small_mod(a[i] as nat, p as nat);
    }
    assert(poly_add(a, Seq::empty()) =~= a);
    lemma_add_commutative(a, Seq::empty());
}

/// Beyond the degrees of its factors a product has no coefficient.
pub proof fn lemma_conv_support(a: Seq<int>, b: Seq<int>, k: int)
    requires
        k >= 1 + degree(a) + degree(b),
    ensures
        conv(a, b, k) == 0,
{
    let f = conv_term(a, b, k);
    assert forall|i: int| 0 <= i < k + 1 implies #[trigger] f(i) == 0 by {
        if i < a.len() {
            assert(coeff(b, k - i) == 0);
            assert(coeff(a, i) * 0 == 0);
        } else {
            assert(coeff(a, i) == 0);
            assert(0 * coeff(b, k - i) == 0);
        }
    }
    lemma_sum_zero(f, k + 1);
}

/// Cutting trailing zeros changes no coefficient.
pub proof fn lemma_trim_coeff(s: Seq<int>, i: int)
    ensures
        coeff(trim(s), i) == coeff(s, i),
    decreases s.len(),
{
    if s.len() > 0 && s.last() == 0 {
        lemma_trim_coeff(s.drop_last(), i);
    }
}

/// What is left after cutting trailing zeros does not end in zero.
pub proof fn lemma_trim_canonical(s: Seq<int>)
    ensures
        trim(s).len() > 0 ==> trim(s).last() != 0,
        trim(s).len() <= s.len(),
    decreases s.len(),
{
    if s.len() > 0 && s.last() == 0 {
        lemma_trim_canonical(s.drop_last());
    }
}

/// Sequences with the same coefficients are the same once their trailing zeros
/// are cut.
pub proof fn lemma_trim_unique(s: Seq<int>, t: Seq<int>)
    requires
        forall|i: int| #![trigger coeff(s, i)] #![trigger coeff(t, i)] coeff(s, i) == coeff(t, i),
    ensures
        trim(s) == trim(t),
{
    let x = trim(s);
    let y = trim(t);
    lemma_trim_canonical(s);
    lemma_trim_canonical(t);
    assert forall|i: int| coeff(x, i) == coeff(y, i) by {
        lemma_trim_coeff(s, i);
        lemma_trim_coeff(t, i);
        assert(coeff(s, i) == coeff(t, i));
    }
    if x.len() < y.len() {
        assert(coeff(x, y.len() - 1) == coeff(y, y.len() - 1));
    }
    if y.len() < x.len() {
        assert(coeff(x, x.len() - 1) == coeff(y, x.len() - 1));
    }
    assert forall|i: int| 0 <= i < x.len() implies x[i] == y[i] by {
        assert(coeff(x, i) == coeff(y, i));
    }
    assert(x =~= y);
}

/// The coefficient of `x^k` of the convolution, reduced.
pub proof fn lemma_raw_mul_coeff(a: Seq<int>, b: Seq<int>, k: int)
    requires
        k >= 0,
    ensures
        coeff(raw_mul(a, b), k) == conv(a, b, k) % modulus(),
{
    lemma_modulus_bound();
    if k >= 1 + degree(a) + degree(b) {
        lemma_conv_support(a, b, k);
        lemma_small_mod(0, modulus() as nat);
    }
}

/// The coefficient of `x^k` of a product.
pub proof fn lemma_poly_mul_coeff(a: Seq<int>, b: Seq<int>, k: int)
    requires
        k >= 0,
    ensures
        coeff(poly_mul(a, b), k) == conv(a, b, k) % modulus(),
{
    lemma_trim_coeff(raw_mul(a, b), k);
    lemma_raw_mul_coeff(a, b, k);
}

/// A sum over a shifted index: the terms below the shift are zero.
pub proof fn lemma_sum_shift(g: spec_fn(int) -> int, h: spec_fn(int) -> int, j: int, n: int)
    requires
        j >= 0,
        n >= 0,
        forall|i: int| 0 <= i < n + j ==> #[trigger] h(i) == g(i - j),
        forall|l: int| -j <= l < 0 ==> #[trigger] g(l) == 0,
    ensures
        sum_to(h, n + j) == sum_to(g, n),
    decreases n,
{
    if n == 0 {
        assert forall|i: int| 0 <= i < j implies #[trigger] h(i) == 0 by {
            assert(h(i) == g(i - j));
        }
        lemma_sum_zero(h, j);
    } else {
        lemma_sum_shift(g, h, j, n - 1);
        assert(h(n + j - 1) == g(n - 1));
    }
}

/// The coefficient of `x^k` of a product of three polynomials, with the sums
/// taken in either order.
pub proof fn lemma_triple_convolution(a: Seq<int>, b: Seq<int>, c: Seq<int>, k: int)
    requires
        k >= 0,
    ensures
        sum_to(|i: int| conv(a, b, i) * coeff(c, k - i), k + 1) == sum_to(
            |j: int| coeff(a, j) * conv(b, c, k - j),
            k + 1,
        ),
{
    let f = |i: int, j: int| (coeff(a, j) * coeff(b, i - j)) * coeff(c, k - i);
    let rows = |i: int| conv(a, b, i) * coeff(c, k - i);
    let cols = |j: int| coeff(a, j) * conv(b, c, k - j);
    assert forall|i: int| 0 <= i < k + 1 implies #[trigger] rows(i) == sum_to(
        |j: int| f(i, j),
        k + 1,
    ) by {
        let z = coeff(c, k - i);
        let row = |j: int| f(i, j);
        let ct = conv_term(a, b, i);
        assert forall|j: int| 0 <= j < k + 1 implies #[trigger] row(j) == z * ct(j) by {
            let u = coeff(a, j);
            let v = coeff(b, i - j);
            assert((u * v) * z == z * (u * v)) by (nonlinear_arith);
        }
        lemma_sum_scale(ct, z, row, k + 1);
        lemma_conv_sum_bound(a, b, i, k + 1);
        assert(z * conv(a, b, i) == conv(a, b, i) * z) by (nonlinear_arith);
    }
    assert forall|j: int| 0 <= j < k + 1 implies #[trigger] cols(j) == sum_to(
        |i: int| f(i, j),
        k + 1,
    ) by {
        let u = coeff(a, j);
        let column = |i: int| f(i, j);
        let g = conv_term(b, c, k - j);
        let shifted = |i: int| g(i - j);
        assert forall|l: int| -j <= l < 0 implies #[trigger] g(l) == 0 by {
            assert(coeff(b, l) == 0);
            assert(0 * coeff(c, (k - j) - l) == 0);
        }
        lemma_sum_shift(g, shifted, j, k + 1 - j);
        assert forall|i: int| 0 <= i < k + 1 implies #[trigger] column(i) == u * shifted(i) by {
            let v = coeff(b, i - j);
            let z = coeff(c, k - i);
            assert((k - j) - (i - j) == k - i);
            assert(shifted(i) == v * z);
            assert((u * v) * z == u * (v * z)) by (nonlinear_arith);
        }
        lemma_sum_scale(shifted, u, column, k + 1);
    }
    lemma_sum_exchange(f, rows, cols, k + 1, k + 1);
}

/// `(P · Q) · R = P · (Q · R)`.
pub proof fn lemma_mul_associative(a: Seq<int>, b: Seq<int>, c: Seq<int>)
    ensures
        poly_mul(poly_mul(a, b), c) == poly_mul(a, poly_mul(b, c)),
{
    lemma_modulus_bound();
    let p = modulus();
    let ab = poly_mul(a, b);
    let bc = poly_mul(b, c);
    let left = raw_mul(ab, c);
    let right = raw_mul(a, bc);
    assert forall|k: int|
        #![trigger coeff(left, k)]
        #![trigger coeff(right, k)]
        coeff(left, k) == coeff(right, k) by {
        if k >= 0 {
            lemma_raw_mul_coeff(ab, c, k);
            lemma_raw_mul_coeff(a, bc, k);
            let rows = |i: int| conv(a, b, i) * coeff(c, k - i);
            let cols = |j: int| coeff(a, j) * conv(b, c, k - j);
            let lt = conv_term(ab, c, k);
            let rt = conv_term(a, bc, k);
            assert forall|i: int| 0 <= i < k + 1 implies #[trigger] lt(i) % p == rows(i) % p by {
                lemma_poly_mul_coeff(a, b, i);
                lemma_mul_mod_noop_left(conv(a, b, i), coeff(c, k - i), p);
            }
            lemma_sum_congruent(lt, rows, k + 1, p);
            assert forall|j: int| 0 <= j < k + 1 implies #[trigger] rt(j) % p == cols(j) % p by {
                lemma_poly_mul_coeff(b, c, k - j);
                lemma_mul_mod_noop_right(coeff(a, j), conv(b, c, k - j), p);
            }
            lemma_sum_congruent(rt, cols, k + 1, p);
            lemma_triple_convolution(a, b, c, k);
        }
    }
    lemma_trim_unique(left, right);
}

/// A product has at most as many coefficients as the convolution.
pub proof fn lemma_poly_mul_len(a: Seq<int>, b: Seq<int>)
    ensures
        poly_mul(a, b).len() <= 1 + degree(a) + degree(b),
{
    lemma_trim_len(raw_mul(a, b));
}

/// Cutting trailing zeros does not lengthen a sequence.
pub proof fn lemma_trim_len(a: Seq<int>)
    ensures
        trim(a).len() <= a.len(),
    decreases a.len(),
{
    if a.len() > 0 && a.last() == 0 {
        lemma_trim_len(a.drop_last());
    }
}

/// `(P + Q) · R = P · R + Q · R`, once the trailing zeros of the sum on the
/// right are cut.
pub proof fn lemma_mul_distributes(a: Seq<int>, b: Seq<int>, c: Seq<int>)
    ensures
        poly_mul(poly_add(a, b), c) == trim(poly_add(poly_mul(a, c), poly_mul(b, c))),
{
    lemma_modulus_bound();
    let p = modulus();
    let sum = poly_add(a, b);
    let left = raw_mul(sum, c);
    let right = poly_add(poly_mul(a, c), poly_mul(b, c));
    assert forall|k: int|
        #![trigger coeff(left, k)]
        #![trigger coeff(right, k)]
        coeff(left, k) == coeff(right, k) by {
        if k >= 0 {
            lemma_raw_mul_coeff(sum, c, k);
            lemma_poly_mul_coeff(a, c, k);
            lemma_poly_mul_coeff(b, c, k);
            let fs = conv_term(sum, c, k);
            let fa = conv_term(a, c, k);
            let fb = conv_term(b, c, k);
            let both = |i: int| fa(i) + fb(i);
            assert forall|i: int| 0 <= i < k + 1 implies #[trigger] fs(i) % p == both(i) % p by {
                let x = coeff(a, i);
                let y = coeff(b, i);
                let z = coeff(c, k - i);
                lemma_small_mod(0, p as nat);
                assert(coeff(sum, i) == (x + y) % p);
                lemma_mul_mod_noop_left(x + y, z, p);
                assert((x + y) * z == x * z + y * z) by (nonlinear_arith);
            }
            lemma_sum_congruent(fs, both, k + 1, p);
            lemma_sum_add(fa, fb, both, k + 1);
            lemma_add_mod_noop(conv(a, c, k), conv(b, c, k), p);
            lemma_small_mod(0, p as nat);
            if k >= right.len() {
                assert(coeff(poly_mul(a, c), k) == 0);
                assert(coeff(poly_mul(b, c), k) == 0);
            }
        }
    }
    lemma_trim_unique(left, right);
}

/// The degree of a product is the sum of the degrees, for factors that do not
/// end in zero, where the highest coefficient of the second has an inverse.
pub proof fn lemma_product_degree(a: Seq<int>, b: Seq<int>)
    requires
        in_field(a),
        a.len() >= 1,
        a.last() != 0,
        b.len() >= 1,
        is_unit(b.last()),
    ensures
        degree(poly_mul(a, b)) == degree(a) + degree(b),
        poly_mul(a, b).len() == a.len() + b.len() - 1,
        poly_mul(a, b).last() == field_mul(a.last(), b.last()),
{
    let raw = raw_mul(a, b);
    lemma_product_top(a, b);
    assert(raw.last() == field_mul(a.last(), b.last()));
    if raw.last() == 0 {
        lemma_unit_is_no_zero_divisor(a.last(), b.last());
    }
}

} // verus!
