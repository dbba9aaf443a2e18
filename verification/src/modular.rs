//! Arithmetic modulo the order of the curve's groups.

use vstd::arithmetic::div_mod::*;
use vstd::prelude::*;

verus! {

/// The order of the groups of BLS12-377, which is also the order of the field
/// that their exponents come from.
#[verifier::opaque]
pub open spec fn modulus() -> int {
    8444461749428370424248824938781546531375899335154063827935233455917409239041int
}

/// Whether two integers stand for the same element of the scalar field.
pub open spec fn congruent(a: int, b: int) -> bool {
    a % modulus() == b % modulus()
}

/// The integer `base` raised to the power `exponent`.
pub open spec fn power(base: int, exponent: nat) -> int
    decreases exponent,
{
    if exponent == 0 {
        1
    } else {
        base * power(base, (exponent - 1) as nat)
    }
}

/// The order of the groups lies above every 128-bit integer.
pub proof fn lemma_modulus_bounds()
    ensures
        modulus() > 0x1_0000_0000_0000_0000_0000_0000_0000_0000,
{
    reveal(modulus);
}

/// Reducing an integer does not change its class.
pub proof fn lemma_reduced(a: int)
    ensures
        0 <= a % modulus() < modulus(),
        congruent(a % modulus(), a),
{
    lemma_modulus_bounds();
    lemma_mod_twice(a, modulus());
}

/// A reduced integer is its own remainder.
pub proof fn lemma_small(a: int)
    requires
        0 <= a < modulus(),
    ensures
        a % modulus() == a,
{
    lemma_small_mod(a as nat, modulus() as nat);
}

/// Congruence is kept by sums.
pub proof fn lemma_congruent_add(a: int, b: int, c: int, d: int)
    requires
        congruent(a, b),
        congruent(c, d),
    ensures
        congruent(a + c, b + d),
{
    lemma_modulus_bounds();
    lemma_add_mod_noop(a, c, modulus());
    lemma_add_mod_noop(b, d, modulus());
}

/// Congruence is kept by differences.
pub proof fn lemma_congruent_sub(a: int, b: int, c: int, d: int)
    requires
        congruent(a, b),
        congruent(c, d),
    ensures
        congruent(a - c, b - d),
{
    lemma_modulus_bounds();
    lemma_sub_mod_noop(a, c, modulus());
    lemma_sub_mod_noop(b, d, modulus());
}

/// Congruence is kept by products.
pub proof fn lemma_congruent_mul(a: int, b: int, c: int, d: int)
    requires
        congruent(a, b),
        congruent(c, d),
    ensures
        congruent(a * c, b * d),
{
    lemma_modulus_bounds();
    lemma_mul_mod_noop(a, c, modulus());
    lemma_mul_mod_noop(b, d, modulus());
}

/// A factor may be reduced before a product is.
pub proof fn lemma_reduced_factor(a: int, b: int)
    ensures
        congruent(a * (b % modulus()), a * b),
{
    lemma_reduced(b);
    lemma_congruent_mul(a, a, b % modulus(), b);
}

/// No positive power of zero differs from zero.
pub proof fn lemma_power_of_zero(exponent: nat)
    ensures
        power(0, exponent) == if exponent == 0 {
            1int
        } else {
            0int
        },
{
}

} // verus!
