//! Parameters, keys, commitments and proofs.

use crate::field::{next_scalar, scalar_drawn, Scalar};
use crate::group::{g1_drawn, g2_drawn, next_g1, next_g2, G1, G2};
use crate::modular::modulus;
#[allow(unused_imports)]
use crate::modular::{lemma_congruent_add, lemma_reduced};
use crate::pairing::PreparedG2;
use crate::polynomial::{degree_of, next_polynomial, polynomial_drawn, Polynomial};
use rand::rngs::StdRng;
use std::collections::BTreeMap;
use vstd::prelude::*;

verus! {

/// What the parameters are computed from: a secret point and one element of
/// each group, with a second one for blinding.
#[derive(Clone, Copy, Debug)]
pub struct Trapdoor {
    /// The secret point.
    pub beta: Scalar,
    /// The base of the powers for polynomials.
    pub g: G1,
    /// The base of the powers for blinding polynomials.
    pub gamma_g: G1,
    /// The base of the verifier's powers.
    pub h: G2,
}

impl Trapdoor {
    /// Whether the secret point is a scalar and the bases lie in their groups.
    pub open spec fn is_valid(self) -> bool {
        &&& self.beta.is_reduced()
        &&& self.g.in_group()
        &&& self.gamma_g.in_group()
        &&& self.h.in_group()
    }

    /// A trapdoor whose bases are given multiples of the generators.
    pub fn from_exponents(beta: Scalar, g: Scalar, gamma_g: Scalar, h: Scalar) -> (res: Trapdoor)
        ensures
            res.beta == beta,
            res.g@ == g@,
            res.gamma_g@ == gamma_g@,
            res.h@ == h@,
    {
        Trapdoor {
            beta,
            g: G1::generator_times(&g),
            gamma_g: G1::generator_times(&gamma_g),
            h: G2::generator_times(&h),
        }
    }

    /// A trapdoor drawn at random: the secret point, then the bases, in their
    /// order. Every valid trapdoor may come out.
    pub fn rand(rng: &mut StdRng) -> (res: Trapdoor)
        ensures
            res.is_valid(),
            exists|r1: &mut StdRng, r2: &mut StdRng, r3: &mut StdRng, r4: &mut StdRng|
                {
                    &&& *r1 == *old(rng)
                    &&& #[trigger] scalar_drawn(r1, res.beta)
                    &&& *r2 == *final(r1)
                    &&& #[trigger] g1_drawn(r2, res.g)
                    &&& *r3 == *final(r2)
                    &&& #[trigger] g1_drawn(r3, res.gamma_g)
                    &&& *r4 == *final(r3)
                    &&& #[trigger] g2_drawn(r4, res.h)
                    &&& *final(rng) == *final(r4)
                },
    {
        let beta = next_scalar(rng);
        let g = next_g1(rng);
        let gamma_g = next_g1(rng);
        let h = next_g2(rng);
        proof {

            use_type_invariant(&beta);
            use_type_invariant(&g);
            use_type_invariant(&gamma_g);
            use_type_invariant(&h);
        }
        Trapdoor { beta, g, gamma_g, h }
    }
}

/// The public parameters of the scheme.
#[derive(Debug, PartialEq, Eq)]
pub struct UniversalParams {
    /// The multiples of `g` by the powers of the secret point, up to the
    /// maximum degree.
    pub powers_of_g: Vec<G1>,
    /// The multiples of `gamma_g` by the powers of the secret point, up to one
    /// past the maximum degree.
    pub powers_of_gamma_g: BTreeMap<usize, G1>,
    /// The base of the verifier's powers.
    pub h: G2,
    /// The multiple of `h` by the secret point.
    pub beta_h: G2,
    /// The degree bounds that are supported.
    pub supported_degree_bounds: Vec<usize>,
    /// For each supported bound, the power of `g` that shifts a polynomial of
    /// that degree up to the maximum degree.
    pub inverse_powers_of_g: BTreeMap<usize, G1>,
    /// For each supported bound, the power of `h` that undoes this shift.
    pub inverse_neg_powers_of_h: BTreeMap<usize, G2>,
    /// `h`, prepared for pairings.
    pub prepared_h: PreparedG2,
    /// `beta_h`, prepared for pairings.
    pub prepared_beta_h: PreparedG2,
}

/// The committer's key.
#[derive(Debug, PartialEq, Eq)]
pub struct Powers {
    /// The powers for polynomials.
    pub powers_of_g: Vec<G1>,
    /// The powers for blinding polynomials.
    pub powers_of_gamma_g: Vec<G1>,
}

impl Powers {
    /// The number of coefficients that a polynomial may have.
    pub fn size(&self) -> (res: usize)
        ensures
            res == self.powers_of_g@.len(),
    {
        self.powers_of_g.len()
    }
}

/// The verifier's key.
#[derive(Debug, PartialEq, Eq)]
pub struct VerifierKey {
    /// The power zero for polynomials.
    pub g: G1,
    /// The power zero for blinding polynomials.
    pub gamma_g: G1,
    /// The base of the verifier's powers.
    pub h: G2,
    /// The multiple of `h` by the secret point.
    pub beta_h: G2,
    /// `h`, prepared for pairings.
    pub prepared_h: PreparedG2,
    /// `beta_h`, prepared for pairings.
    pub prepared_beta_h: PreparedG2,
}

/// A commitment to a polynomial.
#[derive(Clone, Copy, Debug, PartialEq, Eq)]
pub struct Commitment(pub G1);

impl Commitment {
    /// The commitment to the zero polynomial.
    pub fn empty() -> (res: Commitment)
        ensures
            res.0@ == 0,
    {
        Commitment(G1::zero())
    }

    /// Adds a multiple of another commitment.
    pub fn add_scaled(&mut self, factor: &Scalar, other: &Commitment)
        ensures
            final(self).0@ == (old(self).0@ + factor@ * other.0@) % modulus(),
    {
        let product = other.0.times(factor);
        let sum = self.0.plus(&product);
        proof {
            assert(other.0@ * factor@ == factor@ * other.0@) by (nonlinear_arith);
            lemma_reduced(factor@ * other.0@);
            lemma_congruent_add(self.0@, self.0@, product@, factor@ * other.0@);
        }
        *self = Commitment(sum);
    }
}

/// What blinds a commitment.
#[derive(Debug, PartialEq, Eq)]
pub struct Randomness {
    /// The polynomial that is committed to on the side.
    pub blinding_polynomial: Polynomial,
}

impl Randomness {
    /// No blinding.
    pub fn empty() -> (res: Randomness)
        ensures
            res.blinding_polynomial@ == Seq::<int>::empty(),
    {
        Randomness { blinding_polynomial: Polynomial::zero() }
    }

    /// Whether the commitment is blinded.
    pub fn is_hiding(&self) -> (res: bool)
        ensures
            res == (self.blinding_polynomial@.len() > 0),
    {
        !self.blinding_polynomial.is_zero()
    }

    /// The degree that a blinding polynomial is drawn with: one more than the
    /// number of openings that it is to withstand.
    pub fn hiding_polynomial_degree(hiding_bound: usize) -> (degree: usize)
        requires
            hiding_bound < usize::MAX,
        ensures
            degree == hiding_bound + 1,
    {
        hiding_bound + 1
    }

    /// Blinding that withstands as many openings as the hiding bound says: a
    /// random polynomial whose degree is the hiding bound plus one, or less
    /// where the draw has zeros at its end.
    pub fn rand(hiding_bound: usize, rng: &mut StdRng) -> (res: Randomness)
        requires
            hiding_bound + 1 < usize::MAX,
        ensures
            res.blinding_polynomial@.len() <= hiding_bound + 2,
            exists|r: &mut StdRng|
                *r == *old(rng) && *final(r) == *final(rng) && #[trigger] polynomial_drawn(
                    (hiding_bound + 1) as usize,
                    r,
                    res.blinding_polynomial,
                ),
    {
        let degree: usize = Self::hiding_polynomial_degree(hiding_bound);
        assert(degree == (hiding_bound + 1) as usize);
        Randomness { blinding_polynomial: next_polynomial(degree, rng) }
    }
}

/// A proof of an evaluation.
#[derive(Clone, Copy, Debug, PartialEq, Eq)]
pub struct Proof {
    /// The commitment to the witness polynomial.
    pub w: G1,
    /// The value of the blinding polynomial, where the commitment is blinded.
    pub random_v: Option<Scalar>,
}

/// A polynomial with a label, and a bound on its degree where that is to be
/// enforced.
#[derive(Debug, PartialEq, Eq)]
pub struct LabeledPolynomial {
    label: String,
    polynomial: Polynomial,
    degree_bound: Option<usize>,
}

impl LabeledPolynomial {
    /// The label.
    pub closed spec fn spec_label(self) -> Seq<char> {
        self.label@
    }

    /// The polynomial.
    pub closed spec fn spec_polynomial(self) -> Polynomial {
        self.polynomial
    }

    /// The bound on the degree.
    pub closed spec fn spec_degree_bound(self) -> Option<usize> {
        self.degree_bound
    }

    /// Puts a label on a polynomial.
    pub fn new(label: String, polynomial: Polynomial, degree_bound: Option<usize>) -> (res:
        LabeledPolynomial)
        ensures
            res.spec_label() == label@,
            res.spec_polynomial() == polynomial,
            res.spec_degree_bound() == degree_bound,
    {
        LabeledPolynomial { label, polynomial, degree_bound }
    }

    /// The label.
    pub fn label(&self) -> (res: &String)
        ensures
            res@ == self.spec_label(),
    {
        &self.label
    }

    /// The degree of the polynomial.
    pub fn degree(&self) -> (res: usize)
        ensures
            res == degree_of(self.spec_polynomial()@),
    {
        self.polynomial.degree()
    }

    /// The bound on the degree.
    pub fn degree_bound(&self) -> (res: Option<usize>)
        ensures
            res == self.spec_degree_bound(),
    {
        self.degree_bound
    }
}

} // verus!
