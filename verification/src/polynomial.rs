//! Dense univariate polynomials over the scalar field.

use crate::algebra::basis_denominator;
use crate::algebra::basis_numerator;
use crate::algebra::coeff;
use crate::algebra::conv_term;
use crate::algebra::degree;
use crate::algebra::div_step_quotient;
use crate::algebra::div_step_remainder;
use crate::algebra::eval_term;
use crate::algebra::in_field;
use crate::algebra::interpolation;
use crate::algebra::is_canonical;
use crate::algebra::is_lead_form;
use crate::algebra::is_zero_poly;
use crate::algebra::lagrange_basis;
use crate::algebra::lagrange_terms;
use crate::algebra::long_div_quotient;
use crate::algebra::long_div_remainder;
use crate::algebra::longer;
use crate::algebra::monomial;
use crate::algebra::poly_add;
use crate::algebra::poly_div;
use crate::algebra::poly_eval;
use crate::algebra::poly_lead;
use crate::algebra::poly_mul;
use crate::algebra::poly_scale;
use crate::algebra::poly_scale_div;
use crate::algebra::poly_sub;
use crate::algebra::poly_sum;
use crate::algebra::raw_mul;
use crate::algebra::root_factor;
use crate::algebra::trim;
use crate::curve::Group;
use crate::division_laws::lemma_division_of_lead_forms;
use crate::division_laws::lemma_exact_division_eval;
use crate::division_laws::lemma_mul_then_div;
use crate::division_laws::lemma_quotient_len;
use crate::error::Error;
use crate::error::Failure;
use crate::error::Operation;
use crate::error::outcome;
use crate::error::poly_outcome;
use crate::eval_laws::lemma_eval_of_zero;
use crate::field::Scalar;
use crate::field::field_inv;
use crate::field::field_mul;
use crate::field::is_inverse;
use crate::field::lemma_modulus_bound;
use crate::field::modulus;
use crate::field::scalars_view;
use crate::field::scalars_wf;
use crate::integers::Integer;
use crate::integers::residues;
use crate::integers::scalars_from_ints;
use crate::interpolation_laws::denominators_invertible;
use crate::interpolation_laws::lemma_field_mul_zero;
use crate::interpolation_laws::lemma_interpolation_len;
use crate::interpolation_laws::lemma_interpolation_takes_values;
use crate::interpolation_laws::lemma_scale_div_is_scale;
use crate::interpolation_laws::lemma_small_difference_nonzero;
use crate::ring_laws::lemma_poly_mul_len;
use crate::ring_laws::lemma_trim_canonical;
use crate::sums::sum_to;
use vstd::arithmetic::div_mod::lemma_add_mod_noop;
use vstd::arithmetic::div_mod::lemma_mod_bound;
use vstd::arithmetic::div_mod::lemma_mul_mod_noop_right;
use vstd::arithmetic::div_mod::lemma_small_mod;
use vstd::arithmetic::power::pow;
use vstd::prelude::*;

verus! {

/// A polynomial: its coefficients, lowest power first.
#[derive(Clone, Debug, PartialEq, Eq)]
pub struct Polynomial {
    coefficients: Vec<Scalar>,
}

impl View for Polynomial {
    type V = Seq<int>;

    /// The values of the coefficients.
    closed spec fn view(&self) -> Seq<int> {
        scalars_view(self.coefficients@)
    }
}

impl Polynomial {
    /// Every coefficient is a canonical representative.
    pub open spec fn wf(&self) -> bool {
        in_field(self@)
    }

    /// The coefficients are well-formed scalars exactly when the polynomial is
    /// well-formed.
    proof fn lemma_wf(&self)
        ensures
            self.wf() <==> scalars_wf(self.coefficients@),
            self@.len() == self.coefficients@.len(),
            forall|i: int| 0 <= i < self@.len() ==> self@[i] == (#[trigger] self.coefficients@[i])@,
    {
        if scalars_wf(self.coefficients@) {
            assert forall|i: int| 0 <= i < self@.len() implies 0 <= #[trigger] self@[i]
                < modulus() by {
                assert(self.coefficients@[i].wf());
            }
        }
        if self.wf() {
            assert forall|i: int| 0 <= i < self.coefficients@.len() implies (
            #[trigger] self.coefficients@[i]).wf() by {
                assert(self@[i] == self.coefficients@[i]@);
            }
        }
    }

    /// The polynomial with the given coefficients, lowest power first. Trailing
    /// zeros are kept.
    pub fn new(vec: Vec<Scalar>) -> (r: Polynomial)
        requires
            scalars_wf(vec@),
        ensures
            r@ == scalars_view(vec@),
            r.wf(),
    {
        let r = Polynomial { coefficients: vec };
        proof {
            r.lemma_wf();
        }
        r
    }

    /// The coefficients, lowest power first.
    pub fn coefficients(&self) -> (r: &Vec<Scalar>)
        ensures
            scalars_view(r@) == self@,
            self.wf() ==> scalars_wf(r@),
    {
        proof {
            self.lemma_wf();
        }
        &self.coefficients
    }

    /// The number of coefficients.
    pub fn len(&self) -> (r: usize)
        ensures
            r == self@.len(),
    {
        self.coefficients.len()
    }

    /// A copy of the polynomial.
    pub fn duplicate(&self) -> (r: Polynomial)
        ensures
            r@ == self@,
    {
        let mut out: Vec<Scalar> = Vec::new();
        let mut i: usize = 0;
        while i < self.coefficients.len()
            invariant
                i <= self.coefficients.len(),
                out@ == self.coefficients@.take(i as int),
            decreases self.coefficients.len() - i,
        {
            out.push(self.coefficients[i]);
            i += 1;
            assert(out@ =~= self.coefficients@.take(i as int));
        }
        assert(out@ =~= self.coefficients@);
        Polynomial { coefficients: out }
    }

    /// The coefficient of `x^i`, zero where the polynomial has none.
    pub fn coefficient_or_zero(&self, i: usize) -> (r: Scalar)
        requires
            self.wf(),
        ensures
            r@ == coeff(self@, i as int),
            r.wf(),
    {
        proof {
            self.lemma_wf();
        }
        if i < self.coefficients.len() {
            self.coefficients[i]
        } else {
            Scalar::zero()
        }
    }

    /// One less than the number of coefficients; zero for a polynomial without
    /// coefficients.
    pub fn degree(&self) -> (r: usize)
        ensures
            r == degree(self@),
            r < usize::MAX,
    {
        if self.coefficients.len() == 0 {
            0
        } else {
            self.coefficients.len() - 1
        }
    }

    /// Whether the polynomial has no coefficient other than zero.
    pub fn is_zero(&self) -> (r: bool)
        ensures
            r == is_zero_poly(self@),
    {
        let mut i: usize = 0;
        while i < self.coefficients.len()
            invariant
                i <= self.coefficients.len(),
                forall|j: int| 0 <= j < i ==> #[trigger] self@[j] == 0,
            decreases self.coefficients.len() - i,
        {
            if !self.coefficients[i].is_zero() {
                assert(self@[i as int] != 0);
                return false;
            }
            i += 1;
        }
        true
    }

    /// The polynomial with all coefficients but the highest replaced by zero.
    pub fn lead(&self) -> (r: Polynomial)
        requires
            self.wf(),
        ensures
            r@ == poly_lead(self@),
            r.wf(),
    {
        proof {
            self.lemma_wf();
            lemma_modulus_bound();
        }
        let n = self.coefficients.len();
        let mut out: Vec<Scalar> = Vec::new();
        let mut i: usize = 0;
        while i < n
            invariant
                i <= n,
                n == self.coefficients.len(),
                out.len() == i,
                scalars_wf(self.coefficients@),
                scalars_wf(out@),
                forall|j: int| 0 <= j < i ==> (#[trigger] out@[j])@ == poly_lead(self@)[j],
            decreases n - i,
        {
            if i == n - 1 {
                out.push(self.coefficients[i]);
            } else {
                out.push(Scalar::zero());
            }
            i += 1;
        }
        let r = Polynomial { coefficients: out };
        proof {
            r.lemma_wf();
            assert(r@ =~= poly_lead(self@));
        }
        r
    }

    /// Whether all coefficients but the highest are zero.
    pub fn is_lead(&self) -> (r: bool)
        ensures
            r == is_lead_form(self@),
    {
        let n = self.coefficients.len();
        if n == 0 {
            return true;
        }
        let mut i: usize = 0;
        while i < n - 1
            invariant
                i <= n - 1,
                n == self.coefficients.len(),
                forall|j: int| 0 <= j < i ==> #[trigger] self@[j] == 0,
            decreases n - i,
        {
            if !self.coefficients[i].is_zero() {
                assert(self@[i as int] != 0);
                return false;
            }
            i += 1;
        }
        true
    }

    /// The polynomial whose coefficients stand for the given integers, which may
    /// be of any integer type.
    pub fn from_ints<T: Integer>(vec: &Vec<T>) -> (r: Polynomial)
        ensures
            r@ == residues(vec@),
            r.wf(),
    {
        let r = Polynomial { coefficients: scalars_from_ints(vec) };
        proof {
            r.lemma_wf();
            assert(r@ =~= residues(vec@));
        }
        r
    }

    /// The value of the polynomial at `tau`; zero for a polynomial without
    /// coefficients.
    pub fn evaluate(&self, tau: &Scalar) -> (r: Scalar)
        requires
            self.wf(),
            tau.wf(),
        ensures
            r@ == poly_eval(self@, tau@),
            r.wf(),
    {
        proof {
            self.lemma_wf();
            lemma_modulus_bound();
        }
        let n = self.coefficients.len();
        let mut acc = Scalar::zero();
        let mut i: usize = 0;
        proof {
            lemma_small_mod(0, modulus() as nat);
        }
        while i < n
            invariant
                i <= n,
                n == self.coefficients.len(),
                scalars_wf(self.coefficients@),
                self@.len() == n,
                forall|j: int| 0 <= j < n ==> self@[j] == (#[trigger] self.coefficients@[j])@,
                tau.wf(),
                acc.wf(),
                modulus() > 0,
                acc@ == sum_to(eval_term(self@, tau@), i as int) % modulus(),
            decreases n - i,
        {
            let power = tau.pow(i as u64);
            let term = self.coefficients[i].times(&power);
            let next = acc.plus(&term);
            proof {
                let p = modulus();
                let c = self.coefficients@[i as int]@;
                let w = pow(tau@, i as nat);
                let s = sum_to(eval_term(self@, tau@), i as int);
                assert(coeff(self@, i as int) == c);
                assert(eval_term(self@, tau@)(i as int) == c * w);
                lemma_mul_mod_noop_right(c, w, p);
                lemma_add_mod_noop(s, c * w, p);
            }
            acc = next;
            i += 1;
        }
        acc
    }

    /// Sum: the shorter operand is extended by zeros; trailing zeros are kept.
    pub fn plus(&self, rhs: &Polynomial) -> (r: Polynomial)
        requires
            self.wf(),
            rhs.wf(),
        ensures
            r@ == poly_add(self@, rhs@),
            r.wf(),
    {
        let n = if self.len() >= rhs.len() {
            self.len()
        } else {
            rhs.len()
        };
        let mut out: Vec<Scalar> = Vec::new();
        let mut i: usize = 0;
        while i < n
            invariant
                i <= n,
                n == longer(self@, rhs@),
                self.wf(),
                rhs.wf(),
                out.len() == i,
                scalars_wf(out@),
                forall|j: int| 0 <= j < i ==> (#[trigger] out@[j])@ == poly_add(self@, rhs@)[j],
            decreases n - i,
        {
            let x = self.coefficient_or_zero(i);
            let y = rhs.coefficient_or_zero(i);
            out.push(x.plus(&y));
            i += 1;
        }
        let r = Polynomial { coefficients: out };
        proof {
            r.lemma_wf();
            assert(r@ =~= poly_add(self@, rhs@));
        }
        r
    }

    /// Difference: the shorter operand is extended by zeros; trailing zeros are
    /// kept.
    pub fn minus(&self, rhs: &Polynomial) -> (r: Polynomial)
        requires
            self.wf(),
            rhs.wf(),
        ensures
            r@ == poly_sub(self@, rhs@),
            r.wf(),
    {
        let n = if self.len() >= rhs.len() {
            self.len()
        } else {
            rhs.len()
        };
        let mut out: Vec<Scalar> = Vec::new();
        let mut i: usize = 0;
        while i < n
            invariant
                i <= n,
                n == longer(self@, rhs@),
                self.wf(),
                rhs.wf(),
                out.len() == i,
                scalars_wf(out@),
                forall|j: int| 0 <= j < i ==> (#[trigger] out@[j])@ == poly_sub(self@, rhs@)[j],
            decreases n - i,
        {
            let x = self.coefficient_or_zero(i);
            let y = rhs.coefficient_or_zero(i);
            out.push(x.minus(&y));
            i += 1;
        }
        let r = Polynomial { coefficients: out };
        proof {
            r.lemma_wf();
            assert(r@ =~= poly_sub(self@, rhs@));
        }
        r
    }

    /// Every coefficient times the scalar.
    pub fn scale(&self, c: &Scalar) -> (r: Polynomial)
        requires
            self.wf(),
            c.wf(),
        ensures
            r@ == poly_scale(self@, c@),
            r.wf(),
    {
        proof {
            self.lemma_wf();
        }
        let n = self.coefficients.len();
        let mut out: Vec<Scalar> = Vec::new();
        let mut i: usize = 0;
        while i < n
            invariant
                i <= n,
                n == self.coefficients.len(),
                self@.len() == n,
                scalars_wf(self.coefficients@),
                forall|j: int| 0 <= j < n ==> self@[j] == (#[trigger] self.coefficients@[j])@,
                c.wf(),
                out.len() == i,
                scalars_wf(out@),
                forall|j: int| 0 <= j < i ==> (#[trigger] out@[j])@ == poly_scale(self@, c@)[j],
            decreases n - i,
        {
            out.push(self.coefficients[i].times(c));
            i += 1;
        }
        let r = Polynomial { coefficients: out };
        proof {
            r.lemma_wf();
            assert(r@ =~= poly_scale(self@, c@));
        }
        r
    }

    /// Every coefficient divided by the scalar, which is not zero: the scalar is
    /// inverted, and every coefficient is multiplied by the inverse.
    pub fn scale_div(&self, c: &Scalar) -> (r: Polynomial)
        requires
            self.wf(),
            c.wf(),
            c@ != 0,
        ensures
            r@ == poly_scale_div(self@, c@),
            is_inverse(field_inv(c@), c@),
            r.wf(),
    {
        let inverse = Scalar::one().divided_by(c);
        proof {
            lemma_modulus_bound();
            assert(1 * field_inv(c@) == field_inv(c@));
            lemma_small_mod(field_inv(c@) as nat, modulus() as nat);
            lemma_scale_div_is_scale(self@, c@);
        }
        self.scale(&inverse)
    }

    /// Product: the convolution of the coefficients, with trailing zeros cut.
    pub fn times(&self, rhs: &Polynomial) -> (r: Polynomial)
        requires
            self.wf(),
            rhs.wf(),
            self@.len() + rhs@.len() <= usize::MAX,
        ensures
            r@ == poly_mul(self@, rhs@),
            is_canonical(r@),
            r.wf(),
    {
        proof {
            lemma_modulus_bound();
            lemma_trim_canonical(raw_mul(self@, rhs@));
        }
        let n: usize = 1 + self.degree() + rhs.degree();
        let mut out: Vec<Scalar> = Vec::new();
        let mut k: usize = 0;
        while k < n
            invariant
                k <= n,
                n == 1 + degree(self@) + degree(rhs@),
                self.wf(),
                rhs.wf(),
                modulus() > 0,
                out.len() == k,
                scalars_wf(out@),
                forall|j: int| 0 <= j < k ==> (#[trigger] out@[j])@ == raw_mul(self@, rhs@)[j],
            decreases n - k,
        {
            let mut acc = Scalar::zero();
            let mut i: usize = 0;
            proof {
                lemma_small_mod(0, modulus() as nat);
            }
            while i <= k
                invariant
                    i <= k + 1,
                    k < n,
                    self.wf(),
                    rhs.wf(),
                    modulus() > 0,
                    acc.wf(),
                    acc@ == sum_to(conv_term(self@, rhs@, k as int), i as int) % modulus(),
                decreases k + 1 - i,
            {
                let x = self.coefficient_or_zero(i);
                let y = rhs.coefficient_or_zero(k - i);
                let next = acc.plus(&x.times(&y));
                proof {
                    let p = modulus();
                    let s = sum_to(conv_term(self@, rhs@, k as int), i as int);
                    assert(conv_term(self@, rhs@, k as int)(i as int) == x@ * y@);
                    lemma_add_mod_noop(s, x@ * y@, p);
                    lemma_mod_bound(x@ * y@, p);
                    lemma_small_mod(((x@ * y@) % p) as nat, p as nat);
                }
                acc = next;
                i += 1;
            }
            out.push(acc);
            k += 1;
        }
        proof {
            assert(scalars_view(out@) =~= raw_mul(self@, rhs@));
        }
        Polynomial::trimmed(out)
    }

    /// The polynomial with the given coefficients, without trailing zeros.
    fn trimmed(coefficients: Vec<Scalar>) -> (r: Polynomial)
        requires
            scalars_wf(coefficients@),
        ensures
            r@ == trim(scalars_view(coefficients@)),
            r.wf(),
    {
        let mut out = coefficients;
        while out.len() > 0 && out[out.len() - 1].is_zero()
            invariant
                scalars_wf(out@),
                trim(scalars_view(out@)) == trim(scalars_view(coefficients@)),
            decreases out.len(),
        {
            proof {
                assert(scalars_view(out@).last() == 0);
                assert(scalars_view(out@).drop_last() =~= scalars_view(out@.drop_last()));
            }
            out.pop();
        }
        let r = Polynomial { coefficients: out };
        proof {
            r.lemma_wf();
            if out.len() > 0 {
                assert(scalars_view(out@).last() == out@[out.len() - 1]@);
            }
        }
        r
    }

    /// Exact division.
    ///
    /// A zero divisor is refused; a zero dividend gives the polynomial without
    /// coefficients. Otherwise the dividend is divided in long division, highest
    /// coefficient first, and the quotient is returned without trailing zeros if
    /// nothing is left, else the remainder is reported. A step that would divide by
    /// a highest coefficient of zero fails under its name, `DividingLead`.
    ///
    /// Division undoes multiplication: a product `P · Q`, divided by a `Q` that
    /// does not end in zero, gives `P` without its trailing zeros.
    pub fn divided_by(&self, rhs: &Polynomial) -> (r: Result<Polynomial, Error>)
        requires
            self.wf(),
            rhs.wf(),
        ensures
            poly_outcome(r) == poly_div(self@, rhs@),
            r matches Ok(q) ==> q.wf() && is_canonical(q@),
            r matches Err(Error::NonZeroRemainder { remainder }) ==> remainder.wf(),
            forall|p: Seq<int>|
                in_field(p) && rhs@.len() > 0 && rhs@.last() != 0 && self@ == #[trigger] poly_mul(
                    p,
                    rhs@,
                ) ==> poly_outcome(r) == Ok::<Seq<int>, Failure>(trim(p)),
            r matches Ok(q) ==> forall|x: int|
                poly_eval(self@, x) == field_mul(#[trigger] poly_eval(q@, x), poly_eval(rhs@, x)),
    {
        proof {
            self.lemma_wf();
            rhs.lemma_wf();
            lemma_trim_canonical(long_div_quotient(self@, rhs@));
        }
        if rhs.is_zero() {
            assert(rhs@.len() > 0 ==> rhs@[rhs@.len() - 1] == 0);
            return Err(Error::DivisionByZero);
        }
        let m = rhs.coefficients.len();
        let n = self.coefficients.len();
        let top = rhs.coefficients[m - 1];
        assert(rhs@.last() == top@);
        if top.is_zero() {
            if self.is_zero() {
                let q = Polynomial::new(Vec::new());
                proof {
                    assert(q@ =~= Seq::<int>::empty());
                    assert forall|x: int|
                        poly_eval(self@, x) == field_mul(
                            #[trigger] poly_eval(q@, x),
                            poly_eval(rhs@, x),
                        ) by {
                        lemma_eval_of_zero(self@, x);
                        lemma_eval_of_zero(q@, x);
                        lemma_field_mul_zero(0, poly_eval(rhs@, x));
                    }
                }
                return Ok(q);
            } else if n >= m {
                return Err(Error::DivisionByZero.within(Operation::DividingLead));
            } else {
                return Err(Error::NonZeroRemainder { remainder: self.duplicate() });
            }
        }
        let top_inverse = Scalar::one().divided_by(&top);
        proof {
            lemma_modulus_bound();
            assert(1 * field_inv(top@) == field_inv(top@));
            lemma_small_mod(field_inv(top@) as nat, modulus() as nat);
            assert(top_inverse@ == field_inv(top@));
            assert forall|p: Seq<int>|
                in_field(p) && rhs@.len() > 0 && rhs@.last() != 0 && self@ == #[trigger] poly_mul(
                    p,
                    rhs@,
                ) implies poly_div(self@, rhs@) == Ok::<Seq<int>, Failure>(trim(p)) by {
                lemma_mul_then_div(p, rhs@);
            }
            assert forall|q: Seq<int>, x: int|
                poly_div(self@, rhs@) == Ok::<Seq<int>, Failure>(q) implies poly_eval(self@, x)
                == field_mul(#[trigger] poly_eval(q, x), poly_eval(rhs@, x)) by {
                lemma_exact_division_eval(self@, rhs@, q, x);
            }
        }
        if self.is_zero() {
            let q = Polynomial::new(Vec::new());
            assert(q@ =~= Seq::<int>::empty());
            return Ok(q);
        }
        if n >= m && self.is_lead() && rhs.is_lead() {
            // a single term divided by a single term
            let mut single: Vec<Scalar> = Vec::new();
            let mut f: usize = 0;
            while f < n - m
                invariant
                    f <= n - m,
                    single.len() == f,
                    scalars_wf(single@),
                    forall|j: int| 0 <= j < f ==> (#[trigger] single@[j])@ == 0,
                decreases n - m - f,
            {
                single.push(Scalar::zero());
                f += 1;
            }
            single.push(self.coefficients[n - 1].times(&top_inverse));
            proof {
                assert(self@.last() == self.coefficients@[n - 1]@);
                lemma_division_of_lead_forms(self@, rhs@);
                assert(scalars_view(single@) =~= long_div_quotient(self@, rhs@));
            }
            return Ok(Polynomial::trimmed(single));
        }
        let copy = self.duplicate();
        proof {
            copy.lemma_wf();
        }
        let mut rem: Vec<Scalar> = copy.coefficients;
        let mut quotient: Vec<Scalar> = Vec::new();
        let size: usize = if n >= m {
            n - m + 1
        } else {
            0
        };
        let mut f: usize = 0;
        while f < size
            invariant
                f <= size,
                quotient.len() == f,
                scalars_wf(quotient@),
                forall|j: int| 0 <= j < f ==> (#[trigger] quotient@[j])@ == 0,
            decreases size - f,
        {
            quotient.push(Scalar::zero());
            f += 1;
        }
        proof {
            lemma_quotient_len(self@, rhs@);
            assert(scalars_view(rem@) == self@);
        }
        while rem.len() >= m
            invariant
                m == rhs.coefficients.len(),
                m >= 1,
                rhs.wf(),
                scalars_wf(rhs.coefficients@),
                rhs@.len() == m,
                forall|j: int| 0 <= j < m ==> rhs@[j] == (#[trigger] rhs.coefficients@[j])@,
                top == rhs.coefficients@[m - 1],
                top@ != 0,
                top_inverse.wf(),
                top_inverse@ == field_inv(top@),
                scalars_wf(rem@),
                scalars_wf(quotient@),
                rem.len() <= n,
                quotient.len() == size,
                size == long_div_quotient(self@, rhs@).len(),
                size == (if n >= m {
                    n - m + 1
                } else {
                    0
                }),
                long_div_remainder(scalars_view(rem@), rhs@) == long_div_remainder(self@, rhs@),
                forall|j: int|
                    0 <= j < size && j > rem.len() - m ==> (#[trigger] quotient@[j])@
                        == long_div_quotient(self@, rhs@)[j],
                forall|j: int|
                    0 <= j <= rem.len() - m ==> long_div_quotient(scalars_view(rem@), rhs@)[j]
                        == #[trigger] long_div_quotient(self@, rhs@)[j],
            decreases rem.len(),
        {
            let len = rem.len();
            let k = len - m;
            let ghost before = scalars_view(rem@);
            let c = rem[len - 1].times(&top_inverse);
            proof {
                assert(before.last() == rem@[len - 1]@);
                assert(c@ == div_step_quotient(before, rhs@));
            }
            let mut i: usize = k;
            while i < len - 1
                invariant
                    k <= i <= len - 1,
                    len == rem.len(),
                    k == len - m,
                    m == rhs.coefficients.len(),
                    rhs@.len() == m,
                    scalars_wf(rhs.coefficients@),
                    forall|j: int| 0 <= j < m ==> rhs@[j] == (#[trigger] rhs.coefficients@[j])@,
                    scalars_wf(rem@),
                    c.wf(),
                    c@ == div_step_quotient(before, rhs@),
                    before.len() == len,
                    forall|j: int|
                        0 <= j < i ==> (#[trigger] rem@[j])@ == div_step_remainder(
                            before,
                            rhs@,
                        )[j],
                    forall|j: int| i <= j < len ==> (#[trigger] rem@[j])@ == before[j],
                decreases len - 1 - i,
            {
                let d = rhs.coefficients[i - k];
                let updated = rem[i].minus(&c.times(&d));
                rem.set(i, updated);
                i += 1;
            }
            rem.pop();
            quotient.set(k, c);
            proof {
                let after = scalars_view(rem@);
                assert(after =~= div_step_remainder(before, rhs@));
                let q = long_div_quotient(self@, rhs@);
                let qb = long_div_quotient(before, rhs@);
                let qa = long_div_quotient(after, rhs@);
                lemma_quotient_len(before, rhs@);
                lemma_quotient_len(after, rhs@);
                assert(qb == qa.push(c@));
                assert(qb[k as int] == c@);
                assert(q[k as int] == qb[k as int]);
                assert forall|j: int| 0 <= j <= rem.len() - m implies qa[j] == #[trigger] q[j] by {
                    assert(qb[j] == qa[j]);
                    assert(qb[j] == q[j]);
                }
            }
        }
        proof {
            let q = long_div_quotient(self@, rhs@);
            assert(scalars_view(quotient@) =~= q);
        }
        let remainder = Polynomial { coefficients: rem };
        proof {
            remainder.lemma_wf();
        }
        if remainder.is_zero() {
            Ok(Polynomial::trimmed(quotient))
        } else {
            Err(Error::NonZeroRemainder { remainder })
        }
    }

    /// The polynomial through the points `(1, vec[0])`, `(2, vec[1])`, ...: the
    /// Lagrange interpolation of the values on the domain `1..=vec.len()`.
    pub fn interpolate_from_vector(vec: &Vec<Scalar>) -> (r: Polynomial)
        requires
            scalars_wf(vec@),
            vec@.len() + 2 <= usize::MAX,
        ensures
            r@ == interpolation(scalars_view(vec@)),
            r@.len() == vec@.len(),
            forall|k: int|
                0 <= k < vec@.len() ==> #[trigger] poly_eval(r@, k + 1) == vec@[k]@,
            r.wf(),
    {
        let n = vec.len();
        let ghost y = scalars_view(vec@);
        let mut acc = Polynomial::new(Vec::new());
        let mut i: usize = 0;
        proof {
            assert(acc@ =~= Seq::<int>::empty());
        }
        while i < n
            invariant
                i <= n,
                n == vec.len(),
                n + 2 <= usize::MAX,
                scalars_wf(vec@),
                y == scalars_view(vec@),
                acc.wf(),
                acc@ == poly_sum(lagrange_terms(y), i as int),
                forall|j: int|
                    0 <= j < i ==> is_inverse(
                        field_inv(#[trigger] basis_denominator(j, n as int)),
                        basis_denominator(j, n as int),
                    ),
            decreases n - i,
        {
            let basis = Polynomial::lagrange_basis(i, n);
            let term = basis.scale(&vec[i]);
            proof {
                assert(y[i as int] == vec@[i as int]@);
                assert(lagrange_terms(y)[i as int] == term@);
            }
            acc = acc.plus(&term);
            i += 1;
        }
        proof {
            assert(in_field(y)) by {
                assert forall|k: int| 0 <= k < y.len() implies 0 <= #[trigger] y[k]
                    < modulus() by {
                    assert(vec@[k].wf());
                }
            }
            assert(y.len() == n);
            lemma_interpolation_len(y);
            assert(denominators_invertible(y.len() as int));
            lemma_interpolation_takes_values(y);
            assert(acc@ == interpolation(y));
            assert forall|k: int| 0 <= k < vec@.len() implies #[trigger] poly_eval(acc@, k + 1)
                == vec@[k]@ by {
                assert(poly_eval(interpolation(y), k + 1) == y[k]);
                assert(y[k] == vec@[k]@);
            }
        }
        acc
    }

    /// The polynomial `x - (j + 1)`.
    pub fn root_factor(j: usize) -> (r: Polynomial)
        requires
            j < usize::MAX,
        ensures
            r@ == root_factor(j as int),
            r.wf(),
    {
        let root = Scalar::from_u128((j + 1) as u128);
        let mut pair: Vec<Scalar> = Vec::new();
        pair.push(root.negated());
        pair.push(Scalar::one());
        let r = Polynomial::new(pair);
        assert(r@ =~= root_factor(j as int));
        r
    }

    /// The polynomial `x^i`.
    pub fn monomial(i: usize) -> (r: Polynomial)
        requires
            i < usize::MAX,
        ensures
            r@ == monomial(i as int),
            r.wf(),
    {
        let mut out: Vec<Scalar> = Vec::new();
        let mut j: usize = 0;
        while j < i
            invariant
                j <= i,
                out.len() == j,
                scalars_wf(out@),
                forall|k: int| 0 <= k < j ==> (#[trigger] out@[k])@ == 0,
            decreases i - j,
        {
            out.push(Scalar::zero());
            j += 1;
        }
        out.push(Scalar::one());
        let r = Polynomial::new(out);
        assert(r@ =~= monomial(i as int));
        r
    }

    /// The polynomial that is one at `i + 1` and zero at the other points of
    /// `1..=n`.
    pub fn lagrange_basis(i: usize, n: usize) -> (r: Polynomial)
        requires
            i < n,
            n + 2 <= usize::MAX,
        ensures
            r@ == lagrange_basis(i as int, n as int),
            is_inverse(
                field_inv(basis_denominator(i as int, n as int)),
                basis_denominator(i as int, n as int),
            ),
            r.wf(),
    {
        proof {
            lemma_modulus_bound();
        }
        let here = Scalar::from_u128((i + 1) as u128);
        let mut numerator = Polynomial::from_ints(&vec![1i32]);
        let mut denominator = Scalar::one();
        let mut j: usize = 0;
        proof {
            lemma_small_mod(1, modulus() as nat);
            assert(numerator@ =~= seq![1int]);
        }
        while j < n
            invariant
                j <= n,
                i < n,
                n + 2 <= usize::MAX,
                here@ == i + 1,
                here.wf(),
                modulus() > 0x1_0000_0000_0000_0000_0000_0000_0000_0000int,
                numerator.wf(),
                numerator@ == basis_numerator(i as int, j as int),
                numerator@.len() <= j + 1,
                denominator.wf(),
                denominator@ == basis_denominator(i as int, j as int),
                denominator@ != 0,
            decreases n - j,
        {
            if j != i {
                let there = Scalar::from_u128((j + 1) as u128);
                let factor = Polynomial::root_factor(j);
                proof {
                    lemma_poly_mul_len(numerator@, factor@);
                }
                numerator = numerator.times(&factor);
                let gap = here.minus(&there);
                proof {
                    lemma_small_difference_nonzero(i + 1, j + 1);
                }
                denominator = denominator.times(&gap);
            }
            j += 1;
        }
        numerator.scale_div(&denominator)
    }

    /// The combination of the elements of a reference string with the
    /// coefficients: `srs[0]` times the first coefficient, plus `srs[1]` times the
    /// second, and so on, added up from the left.
    pub fn evaluate_over_srs<T: Group>(&self, srs: &Vec<T>) -> (r: Result<T, Error>)
        requires
            self.wf(),
        ensures
            outcome(r) == srs_value(self@, srs@),
    {
        proof {
            self.lemma_wf();
        }
        let n = self.coefficients.len();
        if srs.len() < n {
            return Err(Error::SrsTooSmall { srs_len: srs.len(), coefficients: n });
        }
        if n == 0 {
            return Err(Error::NoCoefficients);
        }
        let mut acc = srs[0].times(&self.coefficients[0]);
        let mut i: usize = 1;
        while i < n
            invariant
                1 <= i <= n,
                n == self.coefficients.len(),
                n <= srs.len(),
                self@.len() == n,
                scalars_wf(self.coefficients@),
                forall|j: int| 0 <= j < n ==> self@[j] == (#[trigger] self.coefficients@[j])@,
                acc == srs_combination(self@, srs@, i as int),
            decreases n - i,
        {
            let term = srs[i].times(&self.coefficients[i]);
            acc = acc.plus(&term);
            i += 1;
        }
        Ok(acc)
    }

    /// The sum of the polynomials, added up from the left; the polynomial without
    /// coefficients if there are none.
    pub fn sum(terms: &Vec<Polynomial>) -> (r: Polynomial)
        requires
            forall|i: int| 0 <= i < terms@.len() ==> (#[trigger] terms@[i]).wf(),
        ensures
            r@ == poly_sum(polynomials_view(terms@), terms@.len() as int),
            r.wf(),
    {
        let mut acc = Polynomial { coefficients: Vec::new() };
        let mut i: usize = 0;
        proof {
            acc.lemma_wf();
            assert(acc@ =~= Seq::<int>::empty());
        }
        while i < terms.len()
            invariant
                i <= terms.len(),
                forall|j: int| 0 <= j < terms@.len() ==> (#[trigger] terms@[j]).wf(),
                acc.wf(),
                acc@ == poly_sum(polynomials_view(terms@), i as int),
            decreases terms.len() - i,
        {
            acc = acc.plus(&terms[i]);
            i += 1;
        }
        acc
    }
}

/// The combination of the first `n` elements of a reference string with the first
/// `n` coefficients, for `n` of at least 1.
pub open spec fn srs_combination<T: Group>(coefficients: Seq<int>, srs: Seq<T>, n: int) -> T
    decreases n,
{
    if n <= 1 {
        srs[0].scaled(coefficients[0])
    } else {
        srs_combination(coefficients, srs, n - 1).combined(srs[n - 1].scaled(coefficients[n - 1]))
    }
}

/// What the combination of a reference string with the coefficients of a
/// polynomial gives: the string has to be at least as long as the polynomial, and
/// the polynomial needs a coefficient. A string that is too short is reported with
/// its length and the number of coefficients.
pub open spec fn srs_value<T: Group>(p: Seq<int>, srs: Seq<T>) -> Result<T, Failure> {
    if srs.len() < p.len() {
        Err(Failure::SrsTooSmall { srs_len: srs.len(), coefficients: p.len() })
    } else if p.len() == 0 {
        Err(Failure::NoCoefficients)
    } else {
        Ok(srs_combination(p, srs, p.len() as int))
    }
}

/// The models of a sequence of polynomials.
pub open spec fn polynomials_view(s: Seq<Polynomial>) -> Seq<Seq<int>> {
    Seq::new(s.len(), |i: int| s[i]@)
}

/// Every polynomial of the sequence is well-formed.
pub open spec fn polynomials_wf(s: Seq<Polynomial>) -> bool {
    forall|i: int| 0 <= i < s.len() ==> (#[trigger] s[i]).wf()
}

impl core::ops::Add for Polynomial {
    type Output = Polynomial;

    /// Sum of two polynomials.
    fn add(self, rhs: Polynomial) -> (r: Polynomial)
        ensures
            r@ == poly_add(self@, rhs@),
            r.wf(),
    {
        self.plus(&rhs)
    }
}

impl vstd::std_specs::ops::AddSpecImpl for Polynomial {
    open spec fn obeys_add_spec() -> bool {
        false
    }

    open spec fn add_req(self, rhs: Polynomial) -> bool {
        self.wf() && rhs.wf()
    }

    open spec fn add_spec(self, rhs: Polynomial) -> Polynomial {
        self
    }
}

impl<'a> core::ops::Add<&'a Polynomial> for &'a Polynomial {
    type Output = Polynomial;

    /// Sum of two polynomials.
    fn add(self, rhs: &'a Polynomial) -> (r: Polynomial)
        ensures
            r@ == poly_add(self@, rhs@),
            r.wf(),
    {
        self.plus(rhs)
    }
}

impl<'a> vstd::std_specs::ops::AddSpecImpl<&'a Polynomial> for &'a Polynomial {
    open spec fn obeys_add_spec() -> bool {
        false
    }

    open spec fn add_req(self, rhs: &'a Polynomial) -> bool {
        self.wf() && rhs.wf()
    }

    open spec fn add_spec(self, rhs: &'a Polynomial) -> Polynomial {
        *self
    }
}

impl<'a> core::ops::Sub<&'a Polynomial> for &'a Polynomial {
    type Output = Polynomial;

    /// Difference of two polynomials.
    fn sub(self, rhs: &'a Polynomial) -> (r: Polynomial)
        ensures
            r@ == poly_sub(self@, rhs@),
            r.wf(),
    {
        self.minus(rhs)
    }
}

impl<'a> vstd::std_specs::ops::SubSpecImpl<&'a Polynomial> for &'a Polynomial {
    open spec fn obeys_sub_spec() -> bool {
        false
    }

    open spec fn sub_req(self, rhs: &'a Polynomial) -> bool {
        self.wf() && rhs.wf()
    }

    open spec fn sub_spec(self, rhs: &'a Polynomial) -> Polynomial {
        *self
    }
}

impl<'a> core::ops::Mul<&'a Polynomial> for &'a Polynomial {
    type Output = Polynomial;

    /// Product of two polynomials.
    fn mul(self, rhs: &'a Polynomial) -> (r: Polynomial)
        ensures
            r@ == poly_mul(self@, rhs@),
            is_canonical(r@),
            r.wf(),
    {
        self.times(rhs)
    }
}

impl<'a> vstd::std_specs::ops::MulSpecImpl<&'a Polynomial> for &'a Polynomial {
    open spec fn obeys_mul_spec() -> bool {
        false
    }

    open spec fn mul_req(self, rhs: &'a Polynomial) -> bool {
        self.wf() && rhs.wf() && self@.len() + rhs@.len() <= usize::MAX
    }

    open spec fn mul_spec(self, rhs: &'a Polynomial) -> Polynomial {
        *self
    }
}

impl core::ops::Mul for Polynomial {
    type Output = Polynomial;

    /// Product of two polynomials.
    fn mul(self, rhs: Polynomial) -> (r: Polynomial)
        ensures
            r@ == poly_mul(self@, rhs@),
            is_canonical(r@),
            r.wf(),
    {
        self.times(&rhs)
    }
}

impl vstd::std_specs::ops::MulSpecImpl for Polynomial {
    open spec fn obeys_mul_spec() -> bool {
        false
    }

    open spec fn mul_req(self, rhs: Polynomial) -> bool {
        self.wf() && rhs.wf() && self@.len() + rhs@.len() <= usize::MAX
    }

    open spec fn mul_spec(self, rhs: Polynomial) -> Polynomial {
        self
    }
}

impl core::ops::Div for Polynomial {
    type Output = Result<Polynomial, Error>;

    /// Exact quotient of two polynomials.
    fn div(self, rhs: Polynomial) -> (r: Result<Polynomial, Error>)
        ensures
            poly_outcome(r) == poly_div(self@, rhs@),
            r matches Ok(q) ==> q.wf() && is_canonical(q@),
            r matches Err(Error::NonZeroRemainder { remainder }) ==> remainder.wf(),
            forall|p: Seq<int>|
                in_field(p) && rhs@.len() > 0 && rhs@.last() != 0 && self@ == #[trigger] poly_mul(
                    p,
                    rhs@,
                ) ==> poly_outcome(r) == Ok::<Seq<int>, Failure>(trim(p)),
            r matches Ok(q) ==> forall|x: int|
                poly_eval(self@, x) == field_mul(#[trigger] poly_eval(q@, x), poly_eval(rhs@, x)),
    {
        self.divided_by(&rhs)
    }
}

impl vstd::std_specs::ops::DivSpecImpl for Polynomial {
    open spec fn obeys_div_spec() -> bool {
        false
    }

    open spec fn div_req(self, rhs: Polynomial) -> bool {
        self.wf() && rhs.wf()
    }

    open spec fn div_spec(self, rhs: Polynomial) -> Result<Polynomial, Error> {
        Ok(self)
    }
}

impl<'a> core::ops::Mul<Scalar> for &'a Polynomial {
    type Output = Polynomial;

    /// The polynomial times a scalar.
    fn mul(self, rhs: Scalar) -> (r: Polynomial)
        ensures
            r@ == poly_scale(self@, rhs@),
            r.wf(),
    {
        self.scale(&rhs)
    }
}

impl<'a> vstd::std_specs::ops::MulSpecImpl<Scalar> for &'a Polynomial {
    open spec fn obeys_mul_spec() -> bool {
        false
    }

    open spec fn mul_req(self, rhs: Scalar) -> bool {
        self.wf() && rhs.wf()
    }

    open spec fn mul_spec(self, rhs: Scalar) -> Polynomial {
        *self
    }
}

impl<'a> core::ops::Div<Scalar> for &'a Polynomial {
    type Output = Polynomial;

    /// The polynomial divided by a scalar that is not zero.
    fn div(self, rhs: Scalar) -> (r: Polynomial)
        ensures
            r@ == poly_scale_div(self@, rhs@),
            is_inverse(field_inv(rhs@), rhs@),
            r.wf(),
    {
        self.scale_div(&rhs)
    }
}

impl<'a> vstd::std_specs::ops::DivSpecImpl<Scalar> for &'a Polynomial {
    open spec fn obeys_div_spec() -> bool {
        false
    }

    open spec fn div_req(self, rhs: Scalar) -> bool {
        self.wf() && rhs.wf() && rhs@ != 0
    }

    open spec fn div_spec(self, rhs: Scalar) -> Polynomial {
        *self
    }
}

impl<T: Integer> core::convert::From<Vec<T>> for Polynomial {
    /// The polynomial whose coefficients stand for the given integers, which may
    /// be of any integer type.
    fn from(vec: Vec<T>) -> (r: Polynomial)
        ensures
            r@ == residues(vec@),
            r.wf(),
    {
        Polynomial::from_ints(&vec)
    }
}

impl<T: Integer> vstd::std_specs::convert::FromSpecImpl<Vec<T>> for Polynomial {
    open spec fn obeys_from_spec() -> bool {
        false
    }

    open spec fn from_spec(vec: Vec<T>) -> Polynomial {
        arbitrary()
    }
}

impl core::ops::AddAssign for Polynomial {
    /// Adds a polynomial to this one.
    fn add_assign(&mut self, rhs: Polynomial)
        requires
            old(self).wf(),
            rhs.wf(),
        ensures
            final(self)@ == poly_add(old(self)@, rhs@),
            final(self).wf(),
    {
        let sum = self.plus(&rhs);
        *self = sum;
    }
}

impl core::ops::SubAssign for Polynomial {
    /// Takes a polynomial off this one.
    fn sub_assign(&mut self, rhs: Polynomial)
        requires
            old(self).wf(),
            rhs.wf(),
        ensures
            final(self)@ == poly_sub(old(self)@, rhs@),
            final(self).wf(),
    {
        let difference = self.minus(&rhs);
        *self = difference;
    }
}

} // verus!
