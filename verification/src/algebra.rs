//! The mathematical model of polynomials over the scalar field.
//!
//! A polynomial is modelled as the sequence of its coefficients, lowest power
//! first, each an integer in `[0, modulus())`. The functions of this module say
//! what each operation of `Polynomial` computes.

use crate::error::Failure;
use crate::error::Operation;
use crate::field::field_add;
use crate::field::field_div;
use crate::field::field_mul;
use crate::field::field_neg;
use crate::field::field_sub;
use crate::field::modulus;
use crate::sums::sum_to;
use vstd::arithmetic::power::pow;
use vstd::prelude::*;

verus! {

/// Every coefficient is a canonical representative.
pub open spec fn in_field(a: Seq<int>) -> bool {
    forall|i: int| 0 <= i < a.len() ==> 0 <= #[trigger] a[i] < modulus()
}

/// The coefficient of `x^i`; zero outside the sequence.
pub open spec fn coeff(a: Seq<int>, i: int) -> int {
    if 0 <= i < a.len() {
        a[i]
    } else {
        0
    }
}

/// The zero polynomial: no coefficients, or only zeros.
pub open spec fn is_zero_poly(a: Seq<int>) -> bool {
    forall|i: int| 0 <= i < a.len() ==> #[trigger] a[i] == 0
}

/// The last coefficient, if there is one, is not zero.
pub open spec fn is_canonical(a: Seq<int>) -> bool {
    a.len() > 0 ==> a.last() != 0
}

/// The degree by length: one less than the number of coefficients, and zero
/// without coefficients.
pub open spec fn degree(a: Seq<int>) -> int {
    if a.len() == 0 {
        0
    } else {
        a.len() - 1
    }
}

/// The longer of two lengths.
pub open spec fn longer(a: Seq<int>, b: Seq<int>) -> nat {
    if a.len() >= b.len() {
        a.len()
    } else {
        b.len()
    }
}

/// Sum: coefficient by coefficient, the shorter operand extended by zeros.
pub open spec fn poly_add(a: Seq<int>, b: Seq<int>) -> Seq<int> {
    Seq::new(longer(a, b), |i: int| field_add(coeff(a, i), coeff(b, i)))
}

/// Difference: coefficient by coefficient, the shorter operand extended by zeros.
pub open spec fn poly_sub(a: Seq<int>, b: Seq<int>) -> Seq<int> {
    Seq::new(longer(a, b), |i: int| field_sub(coeff(a, i), coeff(b, i)))
}

/// Every coefficient times the scalar `c`.
pub open spec fn poly_scale(a: Seq<int>, c: int) -> Seq<int> {
    Seq::new(a.len(), |i: int| field_mul(a[i], c))
}

/// Every coefficient divided by the scalar `c`.
pub open spec fn poly_scale_div(a: Seq<int>, c: int) -> Seq<int> {
    Seq::new(a.len(), |i: int| field_div(a[i], c))
}

/// The polynomial with only its highest coefficient kept.
pub open spec fn poly_lead(a: Seq<int>) -> Seq<int> {
    Seq::new(
        a.len(),
        |i: int|
            if i == a.len() - 1 {
                a[i]
            } else {
                0
            },
    )
}

/// All coefficients but the highest are zero.
pub open spec fn is_lead_form(a: Seq<int>) -> bool {
    forall|i: int| 0 <= i < a.len() - 1 ==> #[trigger] a[i] == 0
}

/// The `i`-th term of the convolution that gives the coefficient of `x^k` in a
/// product.
pub open spec fn conv_term(a: Seq<int>, b: Seq<int>, k: int) -> spec_fn(int) -> int {
    |i: int| coeff(a, i) * coeff(b, k - i)
}

/// The coefficient of `x^k` in the product of `a` and `b`, over the integers.
pub open spec fn conv(a: Seq<int>, b: Seq<int>, k: int) -> int {
    sum_to(conv_term(a, b, k), k + 1)
}

/// The product before its trailing zeros are cut: `1 + degree(a) + degree(b)`
/// coefficients.
pub open spec fn raw_mul(a: Seq<int>, b: Seq<int>) -> Seq<int> {
    Seq::new((1 + degree(a) + degree(b)) as nat, |k: int| conv(a, b, k) % modulus())
}

/// The sequence without its trailing zeros.
pub open spec fn trim(a: Seq<int>) -> Seq<int>
    decreases a.len(),
{
    if a.len() == 0 {
        a
    } else if a.last() == 0 {
        trim(a.drop_last())
    } else {
        a
    }
}

/// Product: the convolution of the coefficients, trailing zeros cut.
pub open spec fn poly_mul(a: Seq<int>, b: Seq<int>) -> Seq<int> {
    trim(raw_mul(a, b))
}

/// The `i`-th term of the value of `a` at `x`.
pub open spec fn eval_term(a: Seq<int>, x: int) -> spec_fn(int) -> int {
    |i: int| coeff(a, i) * pow(x, i as nat)
}

/// The value of the polynomial at `x`, in the field.
pub open spec fn poly_eval(a: Seq<int>, x: int) -> int {
    sum_to(eval_term(a, x), a.len() as int) % modulus()
}

/// The sum of the polynomials `terms[0..n]`, added up from the left.
pub open spec fn poly_sum(terms: Seq<Seq<int>>, n: int) -> Seq<int>
    decreases n,
{
    if n <= 0 {
        Seq::empty()
    } else {
        poly_add(poly_sum(terms, n - 1), terms[n - 1])
    }
}

/// The coefficient that one step of long division adds to the quotient: the
/// highest coefficient of the remainder divided by that of the divisor.
pub open spec fn div_step_quotient(r: Seq<int>, d: Seq<int>) -> int {
    field_div(r.last(), d.last())
}

/// The remainder after one step of long division: the multiple of the divisor
/// that cancels the highest coefficient is taken off, and that coefficient is
/// dropped.
pub open spec fn div_step_remainder(r: Seq<int>, d: Seq<int>) -> Seq<int> {
    let k = r.len() - d.len();
    let c = div_step_quotient(r, d);
    Seq::new(
        (r.len() - 1) as nat,
        |i: int|
            if i >= k {
                field_sub(r[i], field_mul(c, d[i - k]))
            } else {
                r[i]
            },
    )
}

/// The quotient of long division of `r` by `d`, one coefficient for every step.
pub open spec fn long_div_quotient(r: Seq<int>, d: Seq<int>) -> Seq<int>
    decreases r.len(),
{
    if d.len() == 0 || r.len() < d.len() {
        Seq::empty()
    } else {
        long_div_quotient(div_step_remainder(r, d), d).push(div_step_quotient(r, d))
    }
}

/// What long division of `r` by `d` leaves: fewer coefficients than `d` has.
pub open spec fn long_div_remainder(r: Seq<int>, d: Seq<int>) -> Seq<int>
    decreases r.len(),
{
    if d.len() == 0 || r.len() < d.len() {
        r
    } else {
        long_div_remainder(div_step_remainder(r, d), d)
    }
}

/// Exact division of `a` by `d`.
///
/// A zero divisor is refused, and a zero dividend gives the polynomial without
/// coefficients. Otherwise `a` is divided by `d` in long division, which needs the
/// highest coefficient of `d` to be invertible: a divisor that ends in zero is
/// refused where a step would be taken, by a failure that names the step, and
/// leaves `a` as the remainder where `a` is shorter than `d`.
pub open spec fn poly_div(a: Seq<int>, d: Seq<int>) -> Result<Seq<int>, Failure> {
    if is_zero_poly(d) {
        Err(Failure::DivisionByZero)
    } else if is_zero_poly(a) {
        Ok(Seq::empty())
    } else if d.last() == 0 {
        if a.len() >= d.len() {
            Err(Failure::Within(Operation::DividingLead, Box::new(Failure::DivisionByZero)))
        } else {
            Err(Failure::NonZeroRemainder(a))
        }
    } else if is_zero_poly(long_div_remainder(a, d)) {
        Ok(trim(long_div_quotient(a, d)))
    } else {
        Err(Failure::NonZeroRemainder(long_div_remainder(a, d)))
    }
}

/// The polynomial `x - (j + 1)`, whose root is the `j`-th point of the
/// interpolation domain `1, 2, 3, ...`.
pub open spec fn root_factor(j: int) -> Seq<int> {
    seq![field_neg(j + 1), 1]
}

/// The polynomial `x^i`.
pub open spec fn monomial(i: int) -> Seq<int> {
    Seq::new(
        (i + 1) as nat,
        |j: int|
            if j == i {
                1int
            } else {
                0int
            },
    )
}

/// The product of `x - (j + 1)` over the `j < m` other than `i`.
pub open spec fn basis_numerator(i: int, m: int) -> Seq<int>
    decreases m,
{
    if m <= 0 {
        seq![1]
    } else if m - 1 == i {
        basis_numerator(i, m - 1)
    } else {
        poly_mul(basis_numerator(i, m - 1), root_factor(m - 1))
    }
}

/// The product of `(i + 1) - (j + 1)` over the `j < m` other than `i`.
pub open spec fn basis_denominator(i: int, m: int) -> int
    decreases m,
{
    if m <= 0 {
        1
    } else if m - 1 == i {
        basis_denominator(i, m - 1)
    } else {
        field_mul(basis_denominator(i, m - 1), field_sub(i + 1, m))
    }
}

/// The `i`-th Lagrange basis polynomial on the domain `1..=n`.
pub open spec fn lagrange_basis(i: int, n: int) -> Seq<int> {
    poly_scale_div(basis_numerator(i, n), basis_denominator(i, n))
}

/// The terms of the Lagrange interpolation of the values `y` on the domain
/// `1..=y.len()`.
pub open spec fn lagrange_terms(y: Seq<int>) -> Seq<Seq<int>> {
    Seq::new(y.len(), |i: int| poly_scale(lagrange_basis(i, y.len() as int), y[i]))
}

/// The Lagrange interpolation of the values `y` on the domain `1..=y.len()`.
pub open spec fn interpolation(y: Seq<int>) -> Seq<int> {
    poly_sum(lagrange_terms(y), y.len() as int)
}

/// The vanishing polynomial of the domain `1..=d`: the product of `x - k` over
/// `k` from 1 to `d`, for `d` of at least 1.
pub open spec fn vanishing(d: int) -> Seq<int>
    decreases d,
{
    if d <= 1 {
        root_factor(0)
    } else {
        poly_mul(vanishing(d - 1), root_factor(d - 1))
    }
}

} // verus!
