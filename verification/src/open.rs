//! Opening commitments at points.

use crate::commit::{combination, committable, convert_to_bigints, degree_error};
use crate::data_structures::{Powers, Proof, Randomness};
use crate::error::Error;
use crate::field::{scalar_values, Scalar};
use crate::group::{variable_base_msm, variable_base_size};
use crate::kzg10::KZG10;
use crate::modular::modulus;
#[allow(unused_imports)]
use crate::modular::{lemma_congruent_add, lemma_reduced};
use crate::polynomial::{degree_of, eval, witness, Polynomial};
#[allow(unused_imports)]
use crate::polynomial::{divides_into, lemma_quotient_is_witness};
use vstd::prelude::*;

verus! {

/// Whether a proof is the one that a witness polynomial `w` gives, together
/// with a witness polynomial of the blinding polynomial `r` where there is one.
pub open spec fn proves(
    proof: Proof,
    powers: Powers,
    point: int,
    r: Seq<int>,
    w: Seq<int>,
    hiding_w: Option<Seq<int>>,
) -> bool {
    match hiding_w {
        None => {
            &&& proof.w@ == combination(powers.powers_of_g@, w) % modulus()
            &&& proof.random_v is None
        },
        Some(v) => {
            &&& proof.w@ == (combination(powers.powers_of_g@, w) + combination(
                powers.powers_of_gamma_g@,
                v,
            )) % modulus()
            &&& proof.random_v matches Some(value) && value@ == eval(r, point) % modulus()
        },
    }
}

/// The witness polynomial of a blinding polynomial, where there is blinding.
pub open spec fn hiding_witness(r: Seq<int>, point: int) -> Option<Seq<int>> {
    if r.len() > 0 {
        Some(witness(r, point))
    } else {
        None
    }
}

impl KZG10 {
    /// Computes the witness polynomial `w(x)`, the quotient of
    /// `p(x) - p(z)` by `x - z`, and that of the blinding polynomial. The
    /// quotient does not depend on `p(z)`, which is the remainder of `p(x)`.
    pub fn compute_witness_polynomial(
        polynomial: &Polynomial,
        point: Scalar,
        randomness: &Randomness,
    ) -> (res: Result<(Polynomial, Option<Polynomial>), Error>)
        ensures
            res matches Ok((w, hiding_w)) && w@ == witness(polynomial@, point@) && match hiding_w {
                Some(v) => Some(v@),
                None => None,
            } == hiding_witness(randomness.blinding_polynomial@, point@),
    {
        let mut coeffs: Vec<Scalar> = Vec::new();
        coeffs.push(point.negated());
        coeffs.push(Scalar::one());
        let ghost d = scalar_values(coeffs@);
        let divisor = Polynomial::from_coefficients_vec(coeffs);
        proof {
            assert(d.last() == 1);
            assert(divisor@ == d);
            lemma_reduced(-point@);
        }
        let witness_polynomial = polynomial.divided_by(&divisor);
        proof {
            let r = choose|r: Seq<int>| divides_into(polynomial@, d, witness_polynomial@, r);
            lemma_quotient_is_witness(polynomial@, d, witness_polynomial@, r, point@);
        }
        let random_witness_polynomial = if randomness.is_hiding() {
            let random_p = &randomness.blinding_polynomial;
            let quotient = random_p.divided_by(&divisor);
            proof {
                let r = choose|r: Seq<int>| divides_into(random_p@, d, quotient@, r);
                lemma_quotient_is_witness(random_p@, d, quotient@, r, point@);
            }
            Some(quotient)
        } else {
            None
        };
        Ok((witness_polynomial, random_witness_polynomial))
    }

    /// Outputs the proof that given witness polynomials make.
    pub fn open_with_witness_polynomial(
        powers: &Powers,
        point: Scalar,
        randomness: &Randomness,
        witness_polynomial: &Polynomial,
        hiding_witness_polynomial: Option<&Polynomial>,
    ) -> (res: Result<Proof, Error>)
        requires
            committable(*powers, witness_polynomial@),
            hiding_witness_polynomial matches Some(v) ==> variable_base_size(v@.len()),
        ensures
            match res {
                Err(e) => degree_error(
                    degree_of(witness_polynomial@),
                    powers.powers_of_g@.len(),
                ) == Some(e),
                Ok(proof) => {
                    &&& degree_error(
                        degree_of(witness_polynomial@),
                        powers.powers_of_g@.len(),
                    ) is None
                    &&& proves(
                        proof,
                        *powers,
                        point@,
                        randomness.blinding_polynomial@,
                        witness_polynomial@,
                        match hiding_witness_polynomial {
                            Some(v) => Some(v@),
                            None => None,
                        },
                    )
                },
            },
    {
        let plain = match Self::commit_to_polynomial(powers, witness_polynomial) {
            Err(e) => {
                return Err(e);
            },
            Ok(plain) => plain,
        };
        match hiding_witness_polynomial {
            None => Ok(Proof { w: plain, random_v: None }),
            Some(hiding_witness_polynomial) => {
                let blinding_evaluation = randomness.blinding_polynomial.evaluate(point);
                let random_witness_coeffs = convert_to_bigints(
                    hiding_witness_polynomial.coeffs().as_slice(),
                );
                let random_w = variable_base_msm(
                    powers.powers_of_gamma_g.as_slice(),
                    random_witness_coeffs.as_slice(),
                );
                proof {
                    let p = combination(powers.powers_of_g@, witness_polynomial@);
                    let r = combination(powers.powers_of_gamma_g@, hiding_witness_polynomial@);
                    lemma_reduced(p);
                    lemma_reduced(r);
                    lemma_congruent_add(plain@, p, random_w@, r);
                }
                Ok(Proof { w: plain.plus(&random_w), random_v: Some(blinding_evaluation) })
            },
        }
    }

    /// On input a polynomial and a point, outputs a proof for the value there.
    pub fn open(
        powers: &Powers,
        polynomial: &Polynomial,
        point: Scalar,
        rand: &Randomness,
    ) -> (res: Result<Proof, Error>)
        requires
            degree_error(degree_of(polynomial@), powers.powers_of_g@.len()) is None ==> {
                &&& polynomial@.len() <= 0x1_0000_0000 || committable(
                    *powers,
                    witness(polynomial@, point@),
                )
                &&& rand.blinding_polynomial@.len() > 0 ==> variable_base_size(
                    (rand.blinding_polynomial@.len() - 1) as nat,
                )
            },
        ensures
            match res {
                Err(e) => degree_error(degree_of(polynomial@), powers.powers_of_g@.len()) == Some(
                    e,
                ),
                Ok(proof) => {
                    &&& degree_error(degree_of(polynomial@), powers.powers_of_g@.len()) is None
                    &&& proves(
                        proof,
                        *powers,
                        point@,
                        rand.blinding_polynomial@,
                        witness(polynomial@, point@),
                        hiding_witness(rand.blinding_polynomial@, point@),
                    )
                },
            },
    {
        match Self::check_degree_is_too_large(polynomial.degree(), powers.size()) {
            Err(e) => {
                return Err(e);
            },
            Ok(()) => {},
        }
        let (witness_poly, hiding_witness_poly) = match Self::compute_witness_polynomial(
            polynomial,
            point,
            rand,
        ) {
            Err(e) => {
                return Err(e);
            },
            Ok(polynomials) => polynomials,
        };
        Self::open_with_witness_polynomial(
            powers,
            point,
            rand,
            &witness_poly,
            hiding_witness_poly.as_ref(),
        )
    }
}

} // verus!
