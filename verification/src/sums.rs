//! Finite sums of integer-valued functions, and the few facts about them that the
//! algebra of polynomials rests on.

use vstd::arithmetic::div_mod::lemma_add_mod_noop;
use vstd::arithmetic::mul::lemma_mul_is_distributive_add;
use vstd::prelude::*;

verus! {

/// `f(0) + f(1) + ... + f(n - 1)`.
pub open spec fn sum_to(f: spec_fn(int) -> int, n: int) -> int
    decreases n,
{
    if n <= 0 {
        0
    } else {
        sum_to(f, n - 1) + f(n - 1)
    }
}

/// Sums of functions that agree below `n` are equal.
pub proof fn lemma_sum_ext(f: spec_fn(int) -> int, g: spec_fn(int) -> int, n: int)
    requires
        forall|i: int| 0 <= i < n ==> #[trigger] f(i) == g(i),
    ensures
        sum_to(f, n) == sum_to(g, n),
    decreases n,
{
    if n > 0 {
        lemma_sum_ext(f, g, n - 1);
    }
}

/// A sum of zeros is zero.
pub proof fn lemma_sum_zero(f: spec_fn(int) -> int, n: int)
    requires
        forall|i: int| 0 <= i < n ==> #[trigger] f(i) == 0,
    ensures
        sum_to(f, n) == 0,
    decreases n,
{
    if n > 0 {
        lemma_sum_zero(f, n - 1);
    }
}

/// Terms that are zero from `m` on do not count.
pub proof fn lemma_sum_zero_tail(f: spec_fn(int) -> int, m: int, n: int)
    requires
        0 <= m <= n,
        forall|i: int| m <= i < n ==> #[trigger] f(i) == 0,
    ensures
        sum_to(f, n) == sum_to(f, m),
    decreases n - m,
{
    if m < n {
        lemma_sum_zero_tail(f, m, n - 1);
    }
}

/// A sum with a single term that is not zero is that term.
pub proof fn lemma_sum_single(f: spec_fn(int) -> int, n: int, k: int)
    requires
        0 <= k < n,
        forall|i: int| 0 <= i < n && i != k ==> #[trigger] f(i) == 0,
    ensures
        sum_to(f, n) == f(k),
    decreases n,
{
    if n - 1 == k {
        lemma_sum_zero(f, n - 1);
    } else {
        lemma_sum_single(f, n - 1, k);
    }
}

/// The sum of a pointwise sum is the sum of the sums.
pub proof fn lemma_sum_add(
    f: spec_fn(int) -> int,
    g: spec_fn(int) -> int,
    h: spec_fn(int) -> int,
    n: int,
)
    requires
        forall|i: int| 0 <= i < n ==> #[trigger] h(i) == f(i) + g(i),
    ensures
        sum_to(h, n) == sum_to(f, n) + sum_to(g, n),
    decreases n,
{
    if n > 0 {
        lemma_sum_add(f, g, h, n - 1);
    }
}

/// The sum of a pointwise difference is the difference of the sums.
pub proof fn lemma_sum_sub(
    f: spec_fn(int) -> int,
    g: spec_fn(int) -> int,
    h: spec_fn(int) -> int,
    n: int,
)
    requires
        forall|i: int| 0 <= i < n ==> #[trigger] h(i) == f(i) - g(i),
    ensures
        sum_to(h, n) == sum_to(f, n) - sum_to(g, n),
    decreases n,
{
    if n > 0 {
        lemma_sum_sub(f, g, h, n - 1);
    }
}

/// A constant factor moves out of a sum.
pub proof fn lemma_sum_scale(f: spec_fn(int) -> int, c: int, h: spec_fn(int) -> int, n: int)
    requires
        forall|i: int| 0 <= i < n ==> #[trigger] h(i) == c * f(i),
    ensures
        sum_to(h, n) == c * sum_to(f, n),
    decreases n,
{
    if n > 0 {
        lemma_sum_scale(f, c, h, n - 1);
        lemma_mul_is_distributive_add(c, sum_to(f, n - 1), f(n - 1));
    } else {
        assert(c * 0 == 0);
    }
}

/// Sums of termwise congruent functions are congruent.
pub proof fn lemma_sum_congruent(f: spec_fn(int) -> int, g: spec_fn(int) -> int, n: int, m: int)
    requires
        m > 0,
        forall|i: int| 0 <= i < n ==> #[trigger] f(i) % m == g(i) % m,
    ensures
        sum_to(f, n) % m == sum_to(g, n) % m,
    decreases n,
{
    if n > 0 {
        lemma_sum_congruent(f, g, n - 1, m);
        lemma_add_mod_noop(sum_to(f, n - 1), f(n - 1), m);
        lemma_add_mod_noop(sum_to(g, n - 1), g(n - 1), m);
    }
}

/// A double sum may be taken in either order.
pub proof fn lemma_sum_exchange(
    f: spec_fn(int, int) -> int,
    rows: spec_fn(int) -> int,
    cols: spec_fn(int) -> int,
    n: int,
    m: int,
)
    requires
        forall|i: int| 0 <= i < n ==> #[trigger] rows(i) == sum_to(|j: int| f(i, j), m),
        forall|j: int| 0 <= j < m ==> #[trigger] cols(j) == sum_to(|i: int| f(i, j), n),
    ensures
        sum_to(rows, n) == sum_to(cols, m),
    decreases n,
{
    if n <= 0 {
        assert forall|j: int| 0 <= j < m implies #[trigger] cols(j) == 0 by {
            assert(sum_to(|i: int| f(i, j), n) == 0);
        }
        lemma_sum_zero(cols, m);
    } else {
        let shorter = |j: int| sum_to(|i: int| f(i, j), n - 1);
        let last = |j: int| f(n - 1, j);
        lemma_sum_exchange(f, rows, shorter, n - 1, m);
        assert forall|j: int| 0 <= j < m implies #[trigger] cols(j) == shorter(j) + last(j) by {
            assert(sum_to(|i: int| f(i, j), n) == sum_to(|i: int| f(i, j), n - 1) + f(n - 1, j));
        }
        lemma_sum_add(shorter, last, cols, m);
        assert(rows(n - 1) == sum_to(|j: int| f(n - 1, j), m));
        lemma_sum_ext(last, |j: int| f(n - 1, j), m);
    }
}

/// Sums over `m..n` of functions that agree there are equal.
pub proof fn lemma_sum_tail_ext(f: spec_fn(int) -> int, g: spec_fn(int) -> int, m: int, n: int)
    requires
        m <= n,
        forall|i: int| m <= i < n ==> #[trigger] f(i) == g(i),
    ensures
        sum_to(f, n) - sum_to(f, m) == sum_to(g, n) - sum_to(g, m),
    decreases n - m,
{
    if m < n {
        lemma_sum_tail_ext(f, g, m, n - 1);
        if n - 1 < 0 {
            assert(sum_to(f, n) == 0 && sum_to(f, n - 1) == 0);
            assert(sum_to(g, n) == 0 && sum_to(g, n - 1) == 0);
        }
    }
}

} // verus!
