//! Rank-1 constraint systems and quadratic arithmetic programs.

use crate::algebra::degree;
use crate::algebra::interpolation;
use crate::algebra::poly_add;
use crate::algebra::poly_eval;
use crate::algebra::poly_mul;
use crate::algebra::poly_scale;
use crate::algebra::poly_sub;
use crate::error::Error;
use crate::eval_laws::lemma_eval_in_field;
use crate::eval_laws::lemma_eval_mul;
use crate::eval_laws::lemma_eval_sub;
use crate::field::Scalar;
use crate::field::field_add;
use crate::field::field_mul;
use crate::field::lemma_modulus_bound;
use crate::field::modulus;
use crate::field::scalars_view;
use crate::field::scalars_wf;
use crate::helpers::os_rng;
use crate::helpers::rand_small_scalar;
use crate::integers::Integer;
use crate::integers::matrix_residues;
use crate::integers::residues;
use crate::integers::scalars_from_ints;
use crate::polynomial::Polynomial;
use crate::polynomial::polynomials_view;
use crate::polynomial::polynomials_wf;
use crate::sums::sum_to;
use vstd::arithmetic::div_mod::lemma_add_mod_noop;
use vstd::arithmetic::div_mod::lemma_mod_bound;
use vstd::arithmetic::div_mod::lemma_small_mod;
use vstd::prelude::*;

verus! {

/// The values of the columns of a matrix.
pub open spec fn matrix_view(m: Seq<Vec<Scalar>>) -> Seq<Seq<int>> {
    Seq::new(m.len(), |i: int| scalars_view(m[i]@))
}

/// Every entry of the matrix is a canonical representative.
pub open spec fn matrix_wf(m: Seq<Vec<Scalar>>) -> bool {
    forall|i: int| 0 <= i < m.len() ==> scalars_wf(#[trigger] m[i]@)
}

/// The smaller of two numbers.
pub open spec fn smaller(a: int, b: int) -> int {
    if a <= b {
        a
    } else {
        b
    }
}

/// The larger of two numbers.
pub open spec fn larger(a: int, b: int) -> int {
    if a >= b {
        a
    } else {
        b
    }
}

/// A column with every entry multiplied by `w`.
pub open spec fn scaled_column(col: Seq<int>, w: int) -> Seq<int> {
    Seq::new(col.len(), |j: int| field_mul(col[j], w))
}

/// The entrywise sum of two vectors, as long as the shorter of them.
pub open spec fn zip_add(a: Seq<int>, b: Seq<int>) -> Seq<int> {
    Seq::new(smaller(a.len() as int, b.len() as int) as nat, |j: int| field_add(a[j], b[j]))
}

/// The entrywise product of two vectors, as long as the shorter of them.
pub open spec fn zip_mul(a: Seq<int>, b: Seq<int>) -> Seq<int> {
    Seq::new(smaller(a.len() as int, b.len() as int) as nat, |j: int| field_mul(a[j], b[j]))
}

/// The combination of the first `n` columns of `m` with the first `n` entries of
/// `w`, added up from the left, for `n` of at least 1.
pub open spec fn column_combination(m: Seq<Seq<int>>, w: Seq<int>, n: int) -> Seq<int>
    decreases n,
{
    if n <= 1 {
        scaled_column(m[0], w[0])
    } else {
        zip_add(column_combination(m, w, n - 1), scaled_column(m[n - 1], w[n - 1]))
    }
}

/// The number of columns that enter a combination: columns without a witness
/// entry, and witness entries without a column, are left out.
pub open spec fn used_columns(m: Seq<Seq<int>>, w: Seq<int>) -> int {
    smaller(m.len() as int, w.len() as int)
}

/// Whether the witness `w` satisfies the system: `None` where a matrix or the
/// witness is empty, else whether the combination of the columns of `o` is the
/// entrywise product of the combinations of the columns of `l` and of `r`.
pub open spec fn r1cs_accepts(
    l: Seq<Seq<int>>,
    r: Seq<Seq<int>>,
    o: Seq<Seq<int>>,
    w: Seq<int>,
) -> Option<bool> {
    if used_columns(o, w) == 0 || used_columns(l, w) == 0 || used_columns(r, w) == 0 {
        None
    } else {
        Some(
            column_combination(o, w, used_columns(o, w)) == zip_mul(
                column_combination(l, w, used_columns(l, w)),
                column_combination(r, w, used_columns(r, w)),
            ),
        )
    }
}

/// The matrix has `n_witness` columns of `n_constraints` entries.
pub open spec fn matrix_shape(m: Seq<Seq<int>>, n_witness: int, n_constraints: int) -> bool {
    &&& m.len() == n_witness
    &&& forall|i: int| 0 <= i < m.len() ==> (#[trigger] m[i]).len() == n_constraints
}

/// The term that column `i` gives to row `j` of the product of a matrix and a
/// witness.
pub open spec fn row_term(m: Seq<Seq<int>>, w: Seq<int>, j: int) -> spec_fn(int) -> int {
    |i: int| m[i][j] * w[i]
}

/// Row `j` of the product `M · w`, in the field.
pub open spec fn row_value(m: Seq<Seq<int>>, w: Seq<int>, j: int) -> int {
    sum_to(row_term(m, w, j), m.len() as int) % modulus()
}

/// `L·w ∘ R·w = O·w`: in every row, the product of the left and the right
/// combination is the output combination.
pub open spec fn satisfies(
    l: Seq<Seq<int>>,
    r: Seq<Seq<int>>,
    o: Seq<Seq<int>>,
    w: Seq<int>,
    n_constraints: int,
) -> bool {
    forall|j: int|
        0 <= j < n_constraints ==> field_mul(#[trigger] row_value(l, w, j), row_value(r, w, j))
            == row_value(o, w, j)
}

/// The combination of the columns of a matrix of the stated shape is, row by
/// row, the product of the matrix and the witness.
pub proof fn lemma_column_combination_rows(
    m: Seq<Seq<int>>,
    w: Seq<int>,
    n: int,
    n_constraints: int,
)
    requires
        1 <= n <= m.len(),
        n <= w.len(),
        forall|i: int| 0 <= i < m.len() ==> (#[trigger] m[i]).len() == n_constraints,
    ensures
        column_combination(m, w, n).len() == n_constraints,
        forall|j: int|
            0 <= j < n_constraints ==> #[trigger] column_combination(m, w, n)[j] == sum_to(
                row_term(m, w, j),
                n,
            ) % modulus(),
    decreases n,
{
    lemma_modulus_bound();
    let p = modulus();
    if n <= 1 {
        assert(m[0].len() == n_constraints);
        assert forall|j: int| 0 <= j < n_constraints implies #[trigger] column_combination(
            m,
            w,
            n,
        )[j] == sum_to(row_term(m, w, j), n) % p by {
            assert(sum_to(row_term(m, w, j), 1) == sum_to(row_term(m, w, j), 0) + row_term(
                m,
                w,
                j,
            )(0));
        }
    } else {
        lemma_column_combination_rows(m, w, n - 1, n_constraints);
        assert(m[n - 1].len() == n_constraints);
        let before = column_combination(m, w, n - 1);
        assert forall|j: int| 0 <= j < n_constraints implies #[trigger] column_combination(
            m,
            w,
            n,
        )[j] == sum_to(row_term(m, w, j), n) % p by {
            let s = sum_to(row_term(m, w, j), n - 1);
            let t = m[n - 1][j] * w[n - 1];
            assert(before[j] == s % p);
            assert(row_term(m, w, j)(n - 1) == t);
            lemma_add_mod_noop(s, t, p);
            lemma_mod_bound(s, p);
            lemma_small_mod((s % p) as nat, p as nat);
        }
    }
}

/// A rank-1 constraint system speaks the truth about its witnesses: for matrices
/// of `n_witness` columns and `n_constraints` rows and a witness of `n_witness`
/// entries, the system accepts the witness exactly if `L·w ∘ R·w = O·w`.
pub proof fn lemma_r1cs_accepts_iff_satisfied(
    l: Seq<Seq<int>>,
    r: Seq<Seq<int>>,
    o: Seq<Seq<int>>,
    w: Seq<int>,
    n_constraints: int,
)
    requires
        w.len() >= 1,
        n_constraints >= 0,
        matrix_shape(l, w.len() as int, n_constraints),
        matrix_shape(r, w.len() as int, n_constraints),
        matrix_shape(o, w.len() as int, n_constraints),
    ensures
        r1cs_accepts(l, r, o, w) == Some(satisfies(l, r, o, w, n_constraints)),
{
    let n = w.len() as int;
    lemma_column_combination_rows(l, w, n, n_constraints);
    lemma_column_combination_rows(r, w, n, n_constraints);
    lemma_column_combination_rows(o, w, n, n_constraints);
    let cl = column_combination(l, w, n);
    let cr = column_combination(r, w, n);
    let co = column_combination(o, w, n);
    let product = zip_mul(cl, cr);
    if satisfies(l, r, o, w, n_constraints) {
        assert forall|j: int| 0 <= j < n_constraints implies co[j] == product[j] by {
            assert(cl[j] == row_value(l, w, j));
            assert(cr[j] == row_value(r, w, j));
            assert(co[j] == row_value(o, w, j));
        }
        assert(co =~= product);
    }
    if co == product {
        assert forall|j: int| 0 <= j < n_constraints implies field_mul(
            #[trigger] row_value(l, w, j),
            row_value(r, w, j),
        ) == row_value(o, w, j) by {
            assert(cl[j] == row_value(l, w, j));
            assert(cr[j] == row_value(r, w, j));
            assert(co[j] == row_value(o, w, j));
            assert(product[j] == field_mul(cl[j], cr[j]));
        }
    }
}

/// A rank-1 constraint system: three matrices, each a vector of columns with one
/// column for every witness slot and one entry for every constraint, and the
/// values of the public prefix of the witness.
#[allow(non_snake_case)]
#[derive(Clone, Debug)]
pub struct R1CS {
    /// Left factors, column by column.
    pub L: Vec<Vec<Scalar>>,
    /// Right factors, column by column.
    pub R: Vec<Vec<Scalar>>,
    /// Products, column by column.
    pub O: Vec<Vec<Scalar>>,
    pub public_witness: Vec<Scalar>,
}

/// The matrix of scalars that stands for a matrix of integers.
pub fn matrix_from_ints<T: Integer>(m: &Vec<Vec<T>>) -> (r: Vec<Vec<Scalar>>)
    ensures
        matrix_view(r@) == matrix_residues(m@),
        matrix_wf(r@),
{
    let mut out: Vec<Vec<Scalar>> = Vec::new();
    let mut i: usize = 0;
    while i < m.len()
        invariant
            i <= m.len(),
            out.len() == i,
            matrix_wf(out@),
            forall|j: int| 0 <= j < i ==> scalars_view((#[trigger] out@[j])@) == residues(m@[j]@),
        decreases m.len() - i,
    {
        out.push(scalars_from_ints(&m[i]));
        i += 1;
    }
    assert(matrix_view(out@) =~= matrix_residues(m@));
    out
}

/// Whether two vectors of scalars are equal: of one length, with equal entries.
pub fn scalars_equal(a: &Vec<Scalar>, b: &Vec<Scalar>) -> (r: bool)
    ensures
        r == (scalars_view(a@) == scalars_view(b@)),
{
    if a.len() != b.len() {
        assert(scalars_view(a@).len() != scalars_view(b@).len());
        return false;
    }
    let mut i: usize = 0;
    while i < a.len()
        invariant
            i <= a.len(),
            a.len() == b.len(),
            forall|j: int| 0 <= j < i ==> (#[trigger] a@[j])@ == b@[j]@,
        decreases a.len() - i,
    {
        if !a[i].same(&b[i]) {
            assert(scalars_view(a@)[i as int] != scalars_view(b@)[i as int]);
            return false;
        }
        i += 1;
    }
    assert(scalars_view(a@) =~= scalars_view(b@));
    true
}

/// The combination of the columns of a matrix with the entries of a witness;
/// `None` where there is no column with a witness entry.
pub fn combine_columns(m: &Vec<Vec<Scalar>>, witness: &Vec<Scalar>) -> (r: Option<Vec<Scalar>>)
    requires
        matrix_wf(m@),
        scalars_wf(witness@),
    ensures
        r is None <==> used_columns(matrix_view(m@), scalars_view(witness@)) == 0,
        r matches Some(c) ==> scalars_wf(c@) && scalars_view(c@) == column_combination(
            matrix_view(m@),
            scalars_view(witness@),
            used_columns(matrix_view(m@), scalars_view(witness@)),
        ),
{
    let n = if m.len() <= witness.len() {
        m.len()
    } else {
        witness.len()
    };
    if n == 0 {
        return None;
    }
    let ghost mv = matrix_view(m@);
    let ghost wv = scalars_view(witness@);
    let mut acc = scale_column(&m[0], &witness[0]);
    let mut i: usize = 1;
    while i < n
        invariant
            1 <= i <= n,
            n == used_columns(mv, wv),
            n <= m.len(),
            n <= witness.len(),
            mv == matrix_view(m@),
            wv == scalars_view(witness@),
            matrix_wf(m@),
            scalars_wf(witness@),
            scalars_wf(acc@),
            scalars_view(acc@) == column_combination(mv, wv, i as int),
        decreases n - i,
    {
        let column = scale_column(&m[i], &witness[i]);
        let ghost before = scalars_view(acc@);
        let len = if acc.len() <= column.len() {
            acc.len()
        } else {
            column.len()
        };
        let mut next: Vec<Scalar> = Vec::new();
        let mut j: usize = 0;
        while j < len
            invariant
                j <= len,
                len == smaller(acc.len() as int, column.len() as int),
                scalars_wf(acc@),
                scalars_wf(column@),
                next.len() == j,
                scalars_wf(next@),
                forall|k: int|
                    0 <= k < j ==> (#[trigger] next@[k])@ == field_add(acc@[k]@, column@[k]@),
            decreases len - j,
        {
            next.push(acc[j].plus(&column[j]));
            j += 1;
        }
        proof {
            assert(scalars_view(next@) =~= zip_add(before, scalars_view(column@)));
        }
        acc = next;
        i += 1;
    }
    Some(acc)
}

/// A column with every entry multiplied by a scalar.
pub fn scale_column(column: &Vec<Scalar>, w: &Scalar) -> (r: Vec<Scalar>)
    requires
        scalars_wf(column@),
        w.wf(),
    ensures
        scalars_view(r@) == scaled_column(scalars_view(column@), w@),
        scalars_wf(r@),
{
    let mut out: Vec<Scalar> = Vec::new();
    let mut j: usize = 0;
    while j < column.len()
        invariant
            j <= column.len(),
            scalars_wf(column@),
            w.wf(),
            out.len() == j,
            scalars_wf(out@),
            forall|k: int| 0 <= k < j ==> (#[trigger] out@[k])@ == field_mul(column@[k]@, w@),
        decreases column.len() - j,
    {
        out.push(column[j].times(w));
        j += 1;
    }
    assert(scalars_view(out@) =~= scaled_column(scalars_view(column@), w@));
    out
}

impl R1CS {
    /// Every entry of the system is a canonical representative.
    pub open spec fn wf(&self) -> bool {
        &&& matrix_wf(self.L@)
        &&& matrix_wf(self.R@)
        &&& matrix_wf(self.O@)
        &&& scalars_wf(self.public_witness@)
    }

    /// The system has `n_witness` columns in each matrix, each of `n_constraints`
    /// entries.
    pub open spec fn shaped(&self, n_witness: int, n_constraints: int) -> bool {
        &&& matrix_shape(matrix_view(self.L@), n_witness, n_constraints)
        &&& matrix_shape(matrix_view(self.R@), n_witness, n_constraints)
        &&& matrix_shape(matrix_view(self.O@), n_witness, n_constraints)
    }

    /// The system with the given matrices, each a vector of columns, and the
    /// given public prefix of the witness, every integer standing for its residue.
    /// The entries may be of any integer type.
    pub fn new<T: Integer, W: Integer>(
        l: Vec<Vec<T>>,
        r: Vec<Vec<T>>,
        o: Vec<Vec<T>>,
        public_witness: Vec<W>,
    ) -> (s: R1CS)
        ensures
            matrix_view(s.L@) == matrix_residues(l@),
            matrix_view(s.R@) == matrix_residues(r@),
            matrix_view(s.O@) == matrix_residues(o@),
            scalars_view(s.public_witness@) == residues(public_witness@),
            s.wf(),
    {
        R1CS {
            L: matrix_from_ints(&l),
            R: matrix_from_ints(&r),
            O: matrix_from_ints(&o),
            public_witness: scalars_from_ints(&public_witness),
        }
    }

    /// Whether the witness satisfies the system.
    ///
    /// The columns of each matrix are combined with the entries of the witness;
    /// the witness is accepted if the combination of the output columns is the
    /// entrywise product of the other two. For a system of `n_witness` columns and
    /// a witness of so many entries that is so exactly if `L·w ∘ R·w = O·w`.
    pub fn verify(&self, witness: &Vec<Scalar>) -> (r: Result<bool, Error>)
        requires
            self.wf(),
            scalars_wf(witness@),
        ensures
            match r {
                Ok(b) => r1cs_accepts(
                    matrix_view(self.L@),
                    matrix_view(self.R@),
                    matrix_view(self.O@),
                    scalars_view(witness@),
                ) == Some(b),
                Err(e) => e == Error::EmptyMatrix && r1cs_accepts(
                    matrix_view(self.L@),
                    matrix_view(self.R@),
                    matrix_view(self.O@),
                    scalars_view(witness@),
                ) is None,
            },
            forall|n_constraints: int|
                witness@.len() >= 1 && n_constraints >= 0 && #[trigger] self.shaped(
                    witness@.len() as int,
                    n_constraints,
                ) ==> r == Ok::<bool, Error>(
                    satisfies(
                        matrix_view(self.L@),
                        matrix_view(self.R@),
                        matrix_view(self.O@),
                        scalars_view(witness@),
                        n_constraints,
                    ),
                ),
    {
        let o = match combine_columns(&self.O, witness) {
            Some(c) => c,
            None => { return Err(Error::EmptyMatrix); },
        };
        let l = match combine_columns(&self.L, witness) {
            Some(c) => c,
            None => { return Err(Error::EmptyMatrix); },
        };
        let r = match combine_columns(&self.R, witness) {
            Some(c) => c,
            None => { return Err(Error::EmptyMatrix); },
        };
        let len = if l.len() <= r.len() {
            l.len()
        } else {
            r.len()
        };
        let mut rhs: Vec<Scalar> = Vec::new();
        let mut j: usize = 0;
        while j < len
            invariant
                j <= len,
                len == smaller(l.len() as int, r.len() as int),
                scalars_wf(l@),
                scalars_wf(r@),
                rhs.len() == j,
                forall|k: int| 0 <= k < j ==> (#[trigger] rhs@[k])@ == field_mul(l@[k]@, r@[k]@),
            decreases len - j,
        {
            rhs.push(l[j].times(&r[j]));
            j += 1;
        }
        proof {
            assert(scalars_view(rhs@) =~= zip_mul(scalars_view(l@), scalars_view(r@)));
            assert forall|n_constraints: int|
                witness@.len() >= 1 && n_constraints >= 0 && #[trigger] self.shaped(
                    witness@.len() as int,
                    n_constraints,
                ) implies r1cs_accepts(
                matrix_view(self.L@),
                matrix_view(self.R@),
                matrix_view(self.O@),
                scalars_view(witness@),
            ) == Some(
                satisfies(
                    matrix_view(self.L@),
                    matrix_view(self.R@),
                    matrix_view(self.O@),
                    scalars_view(witness@),
                    n_constraints,
                ),
            ) by {
                lemma_r1cs_accepts_iff_satisfied(
                    matrix_view(self.L@),
                    matrix_view(self.R@),
                    matrix_view(self.O@),
                    scalars_view(witness@),
                    n_constraints,
                );
            }
        }
        Ok(scalars_equal(&o, &rhs))
    }
}

/// The largest degree among the first `n` polynomials; zero if there are none.
pub open spec fn max_degree(polys: Seq<Seq<int>>, n: int) -> int
    decreases n,
{
    if n <= 0 {
        0
    } else {
        larger(max_degree(polys, n - 1), degree(polys[n - 1]))
    }
}

/// The largest number of coefficients among the first `n` polynomials.
pub open spec fn longest(polys: Seq<Seq<int>>, n: int) -> int
    decreases n,
{
    if n <= 0 {
        0
    } else {
        larger(longest(polys, n - 1), polys[n - 1].len() as int)
    }
}

/// The sum of the first `n` polynomials, each scaled by its entry of `w`, added
/// up from the left.
pub open spec fn weighted_sum(polys: Seq<Seq<int>>, w: Seq<int>, n: int) -> Seq<int>
    decreases n,
{
    if n <= 0 {
        Seq::empty()
    } else {
        poly_add(weighted_sum(polys, w, n - 1), poly_scale(polys[n - 1], w[n - 1]))
    }
}

/// The check of a program on a witness `a` at the point `tau`: the witness has
/// one entry for every polynomial, and with `A`, `B`, `W` the sums of the
/// polynomials weighted by the witness, `A(tau)·B(tau) = W(tau) + (A·B − W)(tau)`.
pub open spec fn qap_accepts(
    u: Seq<Seq<int>>,
    v: Seq<Seq<int>>,
    w: Seq<Seq<int>>,
    a: Seq<int>,
    tau: int,
) -> bool {
    let n = a.len() as int;
    let au = weighted_sum(u, a, n);
    let av = weighted_sum(v, a, n);
    let aw = weighted_sum(w, a, n);
    let ht = poly_sub(poly_mul(au, av), aw);
    &&& a.len() == u.len()
    &&& a.len() == v.len()
    &&& a.len() == w.len()
    &&& field_mul(poly_eval(au, tau), poly_eval(av, tau)) == field_add(
        poly_eval(aw, tau),
        poly_eval(ht, tau),
    )
}

/// The check of a program holds for every witness that has one entry for every
/// polynomial, at whatever point it is made.
pub proof fn lemma_qap_accepts_every_witness(
    u: Seq<Seq<int>>,
    v: Seq<Seq<int>>,
    w: Seq<Seq<int>>,
    a: Seq<int>,
    tau: int,
)
    requires
        a.len() == u.len(),
        a.len() == v.len(),
        a.len() == w.len(),
    ensures
        qap_accepts(u, v, w, a, tau),
{
    lemma_modulus_bound();
    let p = modulus();
    let n = a.len() as int;
    let au = weighted_sum(u, a, n);
    let av = weighted_sum(v, a, n);
    let aw = weighted_sum(w, a, n);
    let product = poly_mul(au, av);
    let ht = poly_sub(product, aw);
    lemma_eval_mul(au, av, tau);
    lemma_eval_sub(product, aw, tau);
    lemma_eval_in_field(product, tau);
    lemma_eval_in_field(aw, tau);
    let x = poly_eval(product, tau);
    let y = poly_eval(aw, tau);
    lemma_add_mod_noop(y, x - y, p);
    lemma_small_mod(y as nat, p as nat);
    lemma_small_mod(x as nat, p as nat);
}

/// A program derived from a constraint system accepts what the system accepts:
/// if the system, of `n_witness` columns, accepts a witness of `n_witness`
/// entries, then the check of the interpolated program holds at every point.
pub proof fn lemma_qap_accepts_what_r1cs_accepts(
    l: Seq<Seq<int>>,
    r: Seq<Seq<int>>,
    o: Seq<Seq<int>>,
    a: Seq<int>,
    n_constraints: int,
    tau: int,
)
    requires
        matrix_shape(l, a.len() as int, n_constraints),
        matrix_shape(r, a.len() as int, n_constraints),
        matrix_shape(o, a.len() as int, n_constraints),
        r1cs_accepts(l, r, o, a) == Some(true),
    ensures
        qap_accepts(interpolated(l), interpolated(r), interpolated(o), a, tau),
{
    lemma_qap_accepts_every_witness(interpolated(l), interpolated(r), interpolated(o), a, tau);
}

/// The polynomials that interpolate the columns of a matrix on the domain
/// `1..=n_constraints`.
pub open spec fn interpolated(m: Seq<Seq<int>>) -> Seq<Seq<int>> {
    Seq::new(m.len(), |i: int| interpolation(m[i]))
}

/// Polynomials of `len` coefficients each have the largest degree `len - 1`.
pub proof fn lemma_max_degree_of_equal_lengths(polys: Seq<Seq<int>>, n: int, len: int)
    requires
        0 <= n <= polys.len(),
        len >= 1,
        forall|i: int| 0 <= i < polys.len() ==> (#[trigger] polys[i]).len() == len,
    ensures
        max_degree(polys, n) == (if n == 0 {
            0
        } else {
            len - 1
        }),
    decreases n,
{
    if n > 0 {
        lemma_max_degree_of_equal_lengths(polys, n - 1, len);
        assert(polys[n - 1].len() == len);
    }
}

/// The weighted sum has as many coefficients as the longest polynomial in it.
pub proof fn lemma_weighted_sum_len(polys: Seq<Seq<int>>, w: Seq<int>, n: int)
    ensures
        weighted_sum(polys, w, n).len() == longest(polys, n),
    decreases n,
{
    if n > 0 {
        lemma_weighted_sum_len(polys, w, n - 1);
    }
}

/// The longest of the first `n` polynomials is no longer than the longest of
/// more of them.
pub proof fn lemma_longest_monotonic(polys: Seq<Seq<int>>, n: int, m: int)
    requires
        n <= m,
    ensures
        longest(polys, n) <= longest(polys, m),
    decreases m - n,
{
    if n < m {
        lemma_longest_monotonic(polys, n, m - 1);
    }
    if n <= 0 && m <= 0 {
    } else if m > 0 && n <= 0 {
        lemma_longest_nonnegative(polys, m);
    }
}

pub proof fn lemma_longest_nonnegative(polys: Seq<Seq<int>>, n: int)
    ensures
        longest(polys, n) >= 0,
    decreases n,
{
    if n > 0 {
        lemma_longest_nonnegative(polys, n - 1);
    }
}

/// The sum of the polynomials, each scaled by its weight; polynomials without a
/// weight, and weights without a polynomial, are left out.
pub fn weighted_polynomial_sum(polys: &Vec<Polynomial>, weights: &Vec<Scalar>) -> (r: Polynomial)
    requires
        polynomials_wf(polys@),
        scalars_wf(weights@),
    ensures
        r@ == weighted_sum(
            polynomials_view(polys@),
            scalars_view(weights@),
            smaller(polys@.len() as int, weights@.len() as int),
        ),
        r.wf(),
{
    let n = if polys.len() <= weights.len() {
        polys.len()
    } else {
        weights.len()
    };
    let mut acc = Polynomial::new(Vec::new());
    let mut i: usize = 0;
    proof {
        assert(acc@ =~= Seq::<int>::empty());
    }
    while i < n
        invariant
            i <= n,
            n == smaller(polys@.len() as int, weights@.len() as int),
            polynomials_wf(polys@),
            scalars_wf(weights@),
            acc.wf(),
            acc@ == weighted_sum(polynomials_view(polys@), scalars_view(weights@), i as int),
        decreases n - i,
    {
        let term = polys[i].scale(&weights[i]);
        acc = acc.plus(&term);
        i += 1;
    }
    acc
}

/// A quadratic arithmetic program: for every witness slot three polynomials, and
/// the values of the public prefix of the witness.
#[derive(Clone, Debug, PartialEq, Eq)]
pub struct QAP {
    /// Output.
    pub w: Vec<Polynomial>,
    /// Left factor of the product.
    pub u: Vec<Polynomial>,
    /// Right factor of the product.
    pub v: Vec<Polynomial>,
    pub public_witness: Vec<Scalar>,
}

/// The largest degree among the polynomials.
pub fn largest_degree(polys: &Vec<Polynomial>) -> (r: usize)
    ensures
        r == max_degree(polynomials_view(polys@), polys@.len() as int),
        r < usize::MAX,
{
    let mut best: usize = 0;
    let mut i: usize = 0;
    while i < polys.len()
        invariant
            i <= polys.len(),
            best == max_degree(polynomials_view(polys@), i as int),
            best < usize::MAX,
        decreases polys.len() - i,
    {
        let d = polys[i].degree();
        if d > best {
            best = d;
        }
        i += 1;
    }
    best
}

impl QAP {
    /// Every coefficient of the program is a canonical representative.
    pub open spec fn wf(&self) -> bool {
        &&& polynomials_wf(self.u@)
        &&& polynomials_wf(self.v@)
        &&& polynomials_wf(self.w@)
        &&& scalars_wf(self.public_witness@)
    }

    /// The largest degree among the polynomials of the program.
    pub open spec fn spec_max_polynomial_degree(&self) -> int {
        larger(
            larger(
                max_degree(polynomials_view(self.u@), self.u@.len() as int),
                max_degree(polynomials_view(self.v@), self.v@.len() as int),
            ),
            max_degree(polynomials_view(self.w@), self.w@.len() as int),
        )
    }

    /// The number of coefficients of the longest of the left factors plus that of
    /// the longest of the right factors: the size of the largest product that the
    /// program asks for.
    pub open spec fn product_size(&self) -> int {
        longest(polynomials_view(self.u@), self.u@.len() as int) + longest(
            polynomials_view(self.v@),
            self.v@.len() as int,
        )
    }

    /// The degree of the program: the number of constraints of the system it was
    /// derived from, one more than the largest degree among its polynomials.
    pub fn degree(&self) -> (r: usize)
        ensures
            r == self.spec_max_polynomial_degree() + 1,
    {
        self.max_polynomial_degree() + 1
    }

    /// The largest degree among the polynomials of the program.
    pub fn max_polynomial_degree(&self) -> (r: usize)
        ensures
            r == self.spec_max_polynomial_degree(),
            r < usize::MAX,
    {
        let a = largest_degree(&self.u);
        let b = largest_degree(&self.v);
        let c = largest_degree(&self.w);
        let ab = if a >= b {
            a
        } else {
            b
        };
        if ab >= c {
            ab
        } else {
            c
        }
    }

    /// The probabilistic check of the program on a witness, at a point drawn from
    /// `0..1000` by a generator seeded from the operating system, and at the point
    /// zero where the system has no entropy to give. The check holds for every
    /// witness that has one entry for every polynomial, whatever the point, and
    /// for no other.
    pub fn verify(&self, witness: &Vec<Scalar>) -> (r: bool)
        requires
            self.wf(),
            scalars_wf(witness@),
            self.product_size() <= usize::MAX,
        ensures
            r == (witness@.len() == self.u@.len() && witness@.len() == self.v@.len()
                && witness@.len() == self.w@.len()),
    {
        let tau = match os_rng() {
            Some(mut rng) => rand_small_scalar(&mut rng),
            None => Scalar::zero(),
        };
        proof {
            if witness@.len() == self.u@.len() && witness@.len() == self.v@.len() && witness@.len()
                == self.w@.len() {
                lemma_qap_accepts_every_witness(
                    polynomials_view(self.u@),
                    polynomials_view(self.v@),
                    polynomials_view(self.w@),
                    scalars_view(witness@),
                    tau@,
                );
            }
        }
        self.verify_at(witness, &tau)
    }

    /// The check of the program on a witness at the point `tau`.
    pub fn verify_at(&self, witness: &Vec<Scalar>, tau: &Scalar) -> (r: bool)
        requires
            self.wf(),
            scalars_wf(witness@),
            tau.wf(),
            self.product_size() <= usize::MAX,
        ensures
            r == qap_accepts(
                polynomials_view(self.u@),
                polynomials_view(self.v@),
                polynomials_view(self.w@),
                scalars_view(witness@),
                tau@,
            ),
    {
        if witness.len() != self.u.len() || witness.len() != self.v.len() || witness.len()
            != self.w.len() {
            return false;
        }
        let a = weighted_polynomial_sum(&self.u, witness);
        let b = weighted_polynomial_sum(&self.v, witness);
        let w = weighted_polynomial_sum(&self.w, witness);
        proof {
            lemma_weighted_sum_len(
                polynomials_view(self.u@),
                scalars_view(witness@),
                witness@.len() as int,
            );
            lemma_weighted_sum_len(
                polynomials_view(self.v@),
                scalars_view(witness@),
                witness@.len() as int,
            );
        }
        let ht = a.times(&b).minus(&w);
        let lhs = a.evaluate(tau).times(&b.evaluate(tau));
        let rhs = w.evaluate(tau).plus(&ht.evaluate(tau));
        lhs.same(&rhs)
    }

    /// The program of a constraint system: for every witness slot, the
    /// polynomials that interpolate its column of each matrix on the domain
    /// `1..=n_constraints`. The public prefix of the witness is carried over.
    pub fn from(r1cs: R1CS) -> (q: QAP)
        requires
            r1cs.wf(),
            columns_fit(r1cs.L@),
            columns_fit(r1cs.R@),
            columns_fit(r1cs.O@),
        ensures
            polynomials_view(q.u@) == interpolated(matrix_view(r1cs.L@)),
            polynomials_view(q.v@) == interpolated(matrix_view(r1cs.R@)),
            polynomials_view(q.w@) == interpolated(matrix_view(r1cs.O@)),
            q.public_witness == r1cs.public_witness,
            q.wf(),
            q.interpolates(r1cs),
            forall|n_witness: int, n_constraints: int|
                n_witness >= 1 && n_constraints >= 1 && #[trigger] r1cs.shaped(
                    n_witness,
                    n_constraints,
                ) ==> q.spec_max_polynomial_degree() + 1 == n_constraints,
    {
        let u = interpolate_columns(&r1cs.L);
        let v = interpolate_columns(&r1cs.R);
        let w = interpolate_columns(&r1cs.O);
        proof {
            assert forall|n_witness: int, n_constraints: int|
                n_witness >= 1 && n_constraints >= 1 && #[trigger] r1cs.shaped(
                    n_witness,
                    n_constraints,
                ) implies larger(
                larger(
                    max_degree(polynomials_view(u@), u@.len() as int),
                    max_degree(polynomials_view(v@), v@.len() as int),
                ),
                max_degree(polynomials_view(w@), w@.len() as int),
            ) + 1 == n_constraints by {
                assert forall|i: int| 0 <= i < u@.len() implies (#[trigger] polynomials_view(
                    u@,
                )[i]).len() == n_constraints by {
                    assert(matrix_view(r1cs.L@)[i].len() == n_constraints);
                    assert(u@[i]@.len() == r1cs.L@[i]@.len());
                }
                assert forall|i: int| 0 <= i < v@.len() implies (#[trigger] polynomials_view(
                    v@,
                )[i]).len() == n_constraints by {
                    assert(matrix_view(r1cs.R@)[i].len() == n_constraints);
                    assert(v@[i]@.len() == r1cs.R@[i]@.len());
                }
                assert forall|i: int| 0 <= i < w@.len() implies (#[trigger] polynomials_view(
                    w@,
                )[i]).len() == n_constraints by {
                    assert(matrix_view(r1cs.O@)[i].len() == n_constraints);
                    assert(w@[i]@.len() == r1cs.O@[i]@.len());
                }
                lemma_max_degree_of_equal_lengths(
                    polynomials_view(u@),
                    u@.len() as int,
                    n_constraints,
                );
                lemma_max_degree_of_equal_lengths(
                    polynomials_view(v@),
                    v@.len() as int,
                    n_constraints,
                );
                lemma_max_degree_of_equal_lengths(
                    polynomials_view(w@),
                    w@.len() as int,
                    n_constraints,
                );
            }
        }
        QAP { w, u, v, public_witness: r1cs.public_witness }
    }

    /// Every polynomial of the program takes, at the point `k + 1`, the entry of
    /// row `k` of its column of the system.
    pub open spec fn interpolates(&self, r1cs: R1CS) -> bool {
        &&& self.u@.len() == r1cs.L@.len()
        &&& self.v@.len() == r1cs.R@.len()
        &&& self.w@.len() == r1cs.O@.len()
        &&& forall|i: int, k: int|
            0 <= i < r1cs.L@.len() && 0 <= k < r1cs.L@[i]@.len() ==> poly_eval(
                self.u@[i]@,
                k + 1,
            ) == #[trigger] r1cs.L@[i]@[k]@
        &&& forall|i: int, k: int|
            0 <= i < r1cs.R@.len() && 0 <= k < r1cs.R@[i]@.len() ==> poly_eval(
                self.v@[i]@,
                k + 1,
            ) == #[trigger] r1cs.R@[i]@[k]@
        &&& forall|i: int, k: int|
            0 <= i < r1cs.O@.len() && 0 <= k < r1cs.O@[i]@.len() ==> poly_eval(
                self.w@[i]@,
                k + 1,
            ) == #[trigger] r1cs.O@[i]@[k]@
    }
}

/// Every column is short enough for its length, and two more, to be counted.
pub open spec fn columns_fit(m: Seq<Vec<Scalar>>) -> bool {
    forall|i: int| 0 <= i < m.len() ==> (#[trigger] m[i])@.len() + 2 <= usize::MAX
}

/// The polynomials that interpolate the columns of a matrix.
pub fn interpolate_columns(m: &Vec<Vec<Scalar>>) -> (r: Vec<Polynomial>)
    requires
        matrix_wf(m@),
        columns_fit(m@),
    ensures
        polynomials_view(r@) == interpolated(matrix_view(m@)),
        polynomials_wf(r@),
        r@.len() == m@.len(),
        forall|i: int| 0 <= i < m@.len() ==> (#[trigger] r@[i])@.len() == m@[i]@.len(),
        forall|i: int, k: int|
            0 <= i < m@.len() && 0 <= k < m@[i]@.len() ==> poly_eval(r@[i]@, k + 1)
                == #[trigger] m@[i]@[k]@,
{
    let mut out: Vec<Polynomial> = Vec::new();
    let mut i: usize = 0;
    while i < m.len()
        invariant
            i <= m.len(),
            matrix_wf(m@),
            columns_fit(m@),
            out.len() == i,
            polynomials_wf(out@),
            forall|j: int|
                0 <= j < i ==> (#[trigger] out@[j])@ == interpolation(scalars_view(m@[j]@)),
            forall|j: int| 0 <= j < i ==> (#[trigger] out@[j])@.len() == m@[j]@.len(),
            forall|j: int, k: int|
                0 <= j < i && 0 <= k < m@[j]@.len() ==> poly_eval(out@[j]@, k + 1)
                    == #[trigger] m@[j]@[k]@,
        decreases m.len() - i,
    {
        out.push(Polynomial::interpolate_from_vector(&m[i]));
        i += 1;
    }
    assert(polynomials_view(out@) =~= interpolated(matrix_view(m@)));
    out
}

/// Polynomials of `len` coefficients each have the longest length `len`.
pub proof fn lemma_longest_of_equal_lengths(polys: Seq<Seq<int>>, n: int, len: int)
    requires
        0 <= n <= polys.len(),
        len >= 0,
        forall|i: int| 0 <= i < polys.len() ==> (#[trigger] polys[i]).len() == len,
    ensures
        longest(polys, n) == (if n == 0 {
            0
        } else {
            len
        }),
    decreases n,
{
    if n > 0 {
        lemma_longest_of_equal_lengths(polys, n - 1, len);
        assert(polys[n - 1].len() == len);
    }
}

} // verus!
