//! The scalar field of BLS12-377: the integers modulo the order of its groups.

use crate::modular::{modulus, power};
#[allow(unused_imports)]
use crate::modular::lemma_modulus_bounds;
use rand::rngs::StdRng;
use snarkvm_curves::bls12_377::Fr;
use snarkvm_fields::{Field, PrimeField};
use snarkvm_utilities::{BigInteger256, UniformRand};
use vstd::prelude::*;

verus! {

/// The generator of random bits that parameters, blinding polynomials and
/// randomizers are drawn from. Nothing is known of its state.
#[verifier::external_type_specification]
#[verifier::external_body]
pub struct ExStdRng(StdRng);

/// The integer that four limbs stand for, the least significant limb first.
pub open spec fn limbs_value(limbs: Seq<u64>) -> int {
    limbs[0] + limbs[1] * 0x1_0000_0000_0000_0000 + limbs[2]
        * 0x1_0000_0000_0000_0000_0000_0000_0000_0000 + limbs[3]
        * 0x1_0000_0000_0000_0000_0000_0000_0000_0000_0000_0000_0000_0000
}

/// An element of the scalar field, held as the limbs of its least non-negative
/// representative.
#[derive(Clone, Copy, Debug, PartialEq, Eq)]
pub struct Scalar {
    limbs: [u64; 4],
}

impl View for Scalar {
    type V = int;

    closed spec fn view(&self) -> int {
        limbs_value(self.limbs@)
    }
}

/// The representatives of a sequence of scalars.
pub open spec fn scalar_values(scalars: Seq<Scalar>) -> Seq<int> {
    scalars.map_values(|s: Scalar| s@)
}

/// The integers that a sequence of groups of four limbs stands for.
pub open spec fn bigint_values(bigints: Seq<[u64; 4]>) -> Seq<int> {
    bigints.map_values(|limbs: [u64; 4]| limbs_value(limbs@))
}

impl Scalar {
    /// Every scalar is held by its least non-negative representative.
    #[verifier::type_invariant]
    pub open spec fn is_reduced(self) -> bool {
        0 <= self@ < modulus()
    }

    /// The neutral element of addition.
    pub fn zero() -> (res: Scalar)
        ensures
            res@ == 0,
    {
        proof {
            lemma_modulus_bounds();
        }
        Scalar { limbs: [0, 0, 0, 0] }
    }

    /// The neutral element of multiplication.
    pub fn one() -> (res: Scalar)
        ensures
            res@ == 1,
    {
        proof {
            lemma_modulus_bounds();
        }
        Scalar { limbs: [1, 0, 0, 0] }
    }

    /// Whether this is the neutral element of addition.
    pub fn is_zero(&self) -> (res: bool)
        ensures
            res == (self@ == 0),
    {
        self.limbs[0] == 0 && self.limbs[1] == 0 && self.limbs[2] == 0 && self.limbs[3] == 0
    }

    /// The limbs of the least non-negative representative, the least
    /// significant limb first.
    pub fn to_repr(&self) -> (limbs: [u64; 4])
        ensures
            limbs_value(limbs@) == self@,
            0 <= self@ < modulus(),
    {
        proof {
            use_type_invariant(self);
        }
        self.limbs
    }

    /// The scalar with a given representative, the least significant limb
    /// first, if it lies below the modulus.
    pub fn from_repr(limbs: [u64; 4]) -> (res: Option<Scalar>)
        ensures
            res is Some <==> limbs_value(limbs@) < modulus(),
            res matches Some(s) ==> s@ == limbs_value(limbs@),
    {
        proof {
            reveal(modulus);
        }
        let m0: u64 = 0x0a11_8000_0000_0001;
        let m1: u64 = 0x59aa_76fe_d000_0001;
        let m2: u64 = 0x60b4_4d1e_5c37_b001;
        let m3: u64 = 0x12ab_655e_9a2c_a556;
        let below = if limbs[3] != m3 {
            limbs[3] < m3
        } else if limbs[2] != m2 {
            limbs[2] < m2
        } else if limbs[1] != m1 {
            limbs[1] < m1
        } else {
            limbs[0] < m0
        };
        if below {
            Some(Scalar { limbs })
        } else {
            None
        }
    }

    /// Calls `From<u128>` of BLS12-377's `Fr`: the scalar that an integer
    /// stands for. The modulus has 253 bits, so the integer is its own
    /// representative.
    #[verifier::external_body]
    pub(crate) fn from_u128(value: u128) -> (res: Scalar)
        ensures
            res@ == value,
    {
        Scalar { limbs: Fr::from(value).to_repr().0 }
    }

    /// Calls `Add` of `snarkvm_fields::Fp256`: the sum in the field.
    #[verifier::external_body]
    pub(crate) fn plus(&self, other: &Scalar) -> (res: Scalar)
        ensures
            res@ == (self@ + other@) % modulus(),
    {
        let a = Fr::from_repr(BigInteger256(self.limbs)).unwrap();
        let b = Fr::from_repr(BigInteger256(other.limbs)).unwrap();
        Scalar { limbs: (a + b).to_repr().0 }
    }

    /// Calls `Mul` of `snarkvm_fields::Fp256`: the product in the field.
    #[verifier::external_body]
    pub(crate) fn times(&self, other: &Scalar) -> (res: Scalar)
        ensures
            res@ == (self@ * other@) % modulus(),
    {
        let a = Fr::from_repr(BigInteger256(self.limbs)).unwrap();
        let b = Fr::from_repr(BigInteger256(other.limbs)).unwrap();
        Scalar { limbs: (a * b).to_repr().0 }
    }

    /// Calls `Neg` of `snarkvm_fields::Fp256`: the additive inverse.
    #[verifier::external_body]
    pub(crate) fn negated(&self) -> (res: Scalar)
        ensures
            res@ == (-self@) % modulus(),
    {
        let a = Fr::from_repr(BigInteger256(self.limbs)).unwrap();
        Scalar { limbs: (-a).to_repr().0 }
    }

    /// Calls `Field::pow` of `snarkvm_fields` with an exponent of one limb.
    #[verifier::external_body]
    pub(crate) fn pow(&self, exponent: u64) -> (res: Scalar)
        ensures
            res@ == power(self@, exponent as nat) % modulus(),
    {
        let a = Fr::from_repr(BigInteger256(self.limbs)).unwrap();
        Scalar { limbs: a.pow(&[exponent]).to_repr().0 }
    }

    /// Calls `Field::inverse` of `snarkvm_fields`: the multiplicative inverse,
    /// which zero alone does not have.
    #[verifier::external_body]
    pub(crate) fn inverse(&self) -> (res: Option<Scalar>)
        ensures
            res is Some <==> self@ != 0,
            res matches Some(s) ==> (self@ * s@) % modulus() == 1,
    {
        let a = Fr::from_repr(BigInteger256(self.limbs)).unwrap().inverse()?;
        Some(Scalar { limbs: a.to_repr().0 })
    }

    /// Calls `UniformRand::rand` of `snarkvm_utilities` on BLS12-377's `Fr`:
    /// some scalar. Nothing more holds of every draw.
    #[verifier::external_body]
    pub(crate) fn rand(rng: &mut StdRng) -> (res: Scalar) {
        Scalar { limbs: Fr::rand(rng).to_repr().0 }
    }
}

/// Whether drawing a scalar from a generator may give a value, and leave the
/// generator in the state that it is in when the reference ends.
pub closed spec fn scalar_drawn(rng: &mut StdRng, value: Scalar) -> bool {
    call_ensures(Scalar::rand, (rng,), value)
}

/// Whether drawing a 128-bit integer from a generator may give a value, and
/// leave the generator in the state that it is in when the reference ends.
pub closed spec fn u128_drawn(rng: &mut StdRng, value: u128) -> bool {
    call_ensures(rand_u128, (rng,), value)
}

/// A scalar is drawn exactly where a call of `Scalar::rand` gives it.
pub(crate) proof fn law_scalars_are_drawn(rng: &mut StdRng, value: Scalar)
    ensures
        scalar_drawn(rng, value) <==> call_ensures(Scalar::rand, (rng,), value),
{
}

/// A 128-bit integer is drawn exactly where a call of `rand_u128` gives it.
pub(crate) proof fn law_integers_are_drawn(rng: &mut StdRng, value: u128)
    ensures
        u128_drawn(rng, value) <==> call_ensures(rand_u128, (rng,), value),
{
}

/// Draws a scalar.
pub(crate) fn next_scalar(rng: &mut StdRng) -> (res: Scalar)
    ensures
        exists|r: &mut StdRng|
            *r == *old(rng) && *final(r) == *final(rng) && #[trigger] scalar_drawn(r, res),
{
    let draw = Scalar::rand;
    let res = draw(rng);
    assert(forall|r: &mut StdRng| #[trigger]
        call_ensures(Scalar::rand, (r,), res) ==> scalar_drawn(r, res));
    res
}

/// Draws a 128-bit integer.
pub(crate) fn next_u128(rng: &mut StdRng) -> (res: u128)
    ensures
        exists|r: &mut StdRng|
            *r == *old(rng) && *final(r) == *final(rng) && #[trigger] u128_drawn(r, res),
{
    let draw = rand_u128;
    let res = draw(rng);
    assert(forall|r: &mut StdRng| #[trigger]
        call_ensures(rand_u128, (r,), res) ==> u128_drawn(r, res));
    res
}

/// Calls `UniformRand::rand` of `snarkvm_utilities` on `u128`: some 128-bit
/// integer. Nothing more holds of every draw.
#[verifier::external_body]
pub(crate) fn rand_u128(rng: &mut StdRng) -> u128 {
    u128::rand(rng)
}

/// Calls `PrimeField::size_in_bits` of `snarkvm_fields` on BLS12-377's `Fr`:
/// the number of bits of the modulus.
#[verifier::external_body]
pub(crate) fn scalar_size_in_bits() -> (bits: usize)
    ensures
        bits == 253,
{
    Fr::size_in_bits()
}

} // verus!
