//! Arithmetic modulo the order of the scalar field.

use crate::primitives::algebra::reduced;
use crate::primitives::field::modulus;
use vstd::arithmetic::div_mod::{
    lemma_add_mod_noop,
    lemma_mod_bound,
    lemma_mul_mod_noop,
    lemma_small_mod,
    lemma_sub_mod_noop,
};
use vstd::arithmetic::power::pow;
use vstd::prelude::*;

verus! {

/// `(x mod r + y mod r) mod r = (x + y) mod r`, and the variants with one
/// side already reduced.
pub proof fn lemma_add_mod(x: int, y: int)
    ensures
        ((x % modulus()) + (y % modulus())) % modulus() == (x + y) % modulus(),
        ((x % modulus()) + y) % modulus() == (x + y) % modulus(),
        (x + (y % modulus())) % modulus() == (x + y) % modulus(),
{
    lemma_add_mod_noop(x, y, modulus());
    lemma_add_mod_noop(x % modulus(), y, modulus());
    lemma_add_mod_noop(x, y % modulus(), modulus());
    lemma_mod_bound(x, modulus());
    lemma_mod_bound(y, modulus());
    lemma_small_mod((x % modulus()) as nat, modulus() as nat);
    lemma_small_mod((y % modulus()) as nat, modulus() as nat);
}

/// `(x mod r - y mod r) mod r = (x - y) mod r`, and the variants with one
/// side already reduced.
pub proof fn lemma_sub_mod(x: int, y: int)
    ensures
        ((x % modulus()) - (y % modulus())) % modulus() == (x - y) % modulus(),
        ((x % modulus()) - y) % modulus() == (x - y) % modulus(),
        (x - (y % modulus())) % modulus() == (x - y) % modulus(),
{
    lemma_sub_mod_noop(x, y, modulus());
    lemma_sub_mod_noop(x % modulus(), y, modulus());
    lemma_sub_mod_noop(x, y % modulus(), modulus());
    lemma_mod_bound(x, modulus());
    lemma_mod_bound(y, modulus());
    lemma_small_mod((x % modulus()) as nat, modulus() as nat);
    lemma_small_mod((y % modulus()) as nat, modulus() as nat);
}

/// `(x mod r) * (y mod r) mod r = x * y mod r`, and the variants with one
/// side already reduced.
pub proof fn lemma_mul_mod(x: int, y: int)
    ensures
        ((x % modulus()) * (y % modulus())) % modulus() == (x * y) % modulus(),
        ((x % modulus()) * y) % modulus() == (x * y) % modulus(),
        (x * (y % modulus())) % modulus() == (x * y) % modulus(),
{
    lemma_mul_mod_noop(x, y, modulus());
    lemma_mul_mod_noop(x % modulus(), y, modulus());
    lemma_mul_mod_noop(x, y % modulus(), modulus());
    lemma_mod_bound(x, modulus());
    lemma_mod_bound(y, modulus());
    lemma_small_mod((x % modulus()) as nat, modulus() as nat);
    lemma_small_mod((y % modulus()) as nat, modulus() as nat);
}

/// A canonical residue is its own remainder.
pub proof fn lemma_reduced_mod(x: int)
    requires
        0 <= x < modulus(),
    ensures
        x % modulus() == x,
{
    lemma_small_mod(x as nat, modulus() as nat);
}

/// A remainder modulo `r` is a canonical residue.
pub proof fn lemma_mod_range(x: int)
    ensures
        0 <= x % modulus() < modulus(),
{
    lemma_mod_bound(x, modulus());
}

/// One more factor: `z^(e+1) = z * z^e`.
pub proof fn lemma_pow_succ(z: int, e: nat)
    ensures
        pow(z, e + 1) == z * pow(z, e),
        pow(z, 0) == 1,
{
    reveal(pow);
}

} // verus!
