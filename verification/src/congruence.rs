//! Congruence modulo the order of the scalar field.

use crate::field::field_add;
use crate::field::field_mul;
use crate::field::field_sub;
use crate::field::lemma_modulus_bound;
use crate::field::modulus;
use vstd::arithmetic::div_mod::lemma_add_mod_noop;
use vstd::arithmetic::div_mod::lemma_mod_twice;
use vstd::arithmetic::div_mod::lemma_mul_mod_noop_general;
use vstd::arithmetic::div_mod::lemma_small_mod;
use vstd::arithmetic::div_mod::lemma_sub_mod_noop;
use vstd::prelude::*;

verus! {

/// `x` and `y` have the same residue.
pub open spec fn congruent(x: int, y: int) -> bool {
    x % modulus() == y % modulus()
}

/// Sums of congruent numbers are congruent.
pub proof fn lemma_congruent_add(x: int, x2: int, y: int, y2: int)
    requires
        congruent(x, x2),
        congruent(y, y2),
    ensures
        congruent(x + y, x2 + y2),
{
    lemma_modulus_bound();
    lemma_add_mod_noop(x, y, modulus());
    lemma_add_mod_noop(x2, y2, modulus());
}

/// Differences of congruent numbers are congruent.
pub proof fn lemma_congruent_sub(x: int, x2: int, y: int, y2: int)
    requires
        congruent(x, x2),
        congruent(y, y2),
    ensures
        congruent(x - y, x2 - y2),
{
    lemma_modulus_bound();
    lemma_sub_mod_noop(x, y, modulus());
    lemma_sub_mod_noop(x2, y2, modulus());
}

/// Products of congruent numbers are congruent.
pub proof fn lemma_congruent_mul(x: int, x2: int, y: int, y2: int)
    requires
        congruent(x, x2),
        congruent(y, y2),
    ensures
        congruent(x * y, x2 * y2),
{
    lemma_modulus_bound();
    lemma_mul_mod_noop_general(x, y, modulus());
    lemma_mul_mod_noop_general(x2, y2, modulus());
}

/// A number is congruent to its residue.
pub proof fn lemma_congruent_residue(x: int)
    ensures
        congruent(x % modulus(), x),
        0 <= x % modulus() < modulus(),
{
    lemma_modulus_bound();
    lemma_mod_twice(x, modulus());
    vstd::arithmetic::div_mod::lemma_mod_bound(x, modulus());
}

/// The operations of the field are those of the integers, up to congruence.
pub proof fn lemma_congruent_field(a: int, b: int)
    ensures
        congruent(field_add(a, b), a + b),
        congruent(field_sub(a, b), a - b),
        congruent(field_mul(a, b), a * b),
{
    lemma_congruent_residue(a + b);
    lemma_congruent_residue(a - b);
    lemma_congruent_residue(a * b);
}

/// Congruent scalars are equal.
pub proof fn lemma_congruent_scalars(x: int, y: int)
    requires
        0 <= x < modulus(),
        0 <= y < modulus(),
        congruent(x, y),
    ensures
        x == y,
{
    lemma_small_mod(x as nat, modulus() as nat);
    lemma_small_mod(y as nat, modulus() as nat);
}

} // verus!
