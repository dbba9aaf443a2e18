//! Committing to polynomials.

use crate::data_structures::{Commitment, Powers, Randomness};
use crate::error::Error;
use crate::field::{bigint_values, limbs_value, scalar_values, Scalar};
#[allow(unused_imports)]
use crate::group::lemma_inner_product_skip;
use crate::group::{g1_values, inner_product, variable_base_msm, variable_base_size, G1};
use crate::kzg10::KZG10;
use crate::modular::modulus;
#[allow(unused_imports)]
use crate::modular::{lemma_congruent_add, lemma_reduced};
use crate::polynomial::{degree_of, polynomial_drawn, Polynomial};
use rand::rngs::StdRng;
use std::sync::atomic::AtomicBool;
use vstd::prelude::*;
use vstd::slice::slice_subrange;

verus! {

/// The number of coefficients before the first one that is not zero.
pub open spec fn leading_zeros(p: Seq<int>) -> nat
    decreases p.len(),
{
    if p.len() == 0 || p[0] != 0 {
        0
    } else {
        1 + leading_zeros(p.drop_first())
    }
}

/// The factor of the sum of the powers of a key, weighted by coefficients.
pub open spec fn combination(powers: Seq<G1>, coeffs: Seq<int>) -> int {
    inner_product(g1_values(powers), coeffs)
}

/// The error that comes of a polynomial with too many coefficients.
pub open spec fn degree_error(degree: nat, num_powers: nat) -> Option<Error> {
    if degree + 1 > num_powers {
        Some(
            Error::TooManyCoefficients {
                num_coefficients: (degree + 1) as usize,
                num_powers: num_powers as usize,
            },
        )
    } else {
        None
    }
}

/// The error that comes of a blinding polynomial which hides nothing, or which
/// has too many coefficients.
pub open spec fn hiding_error(degree: nat, num_powers: nat) -> Option<Error> {
    if degree == 0 {
        Some(Error::HidingBoundIsZero)
    } else if degree >= num_powers {
        Some(
            Error::HidingBoundToolarge {
                hiding_poly_degree: degree as usize,
                num_powers: num_powers as usize,
            },
        )
    } else {
        None
    }
}

/// The polynomials whose coefficients can be combined with the powers of a
/// key: those with a number of coefficients that fits the machine.
pub open spec fn committable(powers: Powers, p: Seq<int>) -> bool {
    degree_error(degree_of(p), powers.powers_of_g@.len()) is None ==> {
        p.len() < 0x1_0000_0000 || variable_base_size((p.len() - leading_zeros(p)) as nat)
    }
}

/// The hiding bounds for which blinding polynomials fit the machine.
pub open spec fn hideable(powers: Powers, hiding_bound: Option<usize>) -> bool {
    hiding_bound matches Some(bound) ==> {
        &&& bound + 2 <= usize::MAX
        &&& bound + 2 < 0x1_0000_0000 || powers.powers_of_gamma_g@.len() < 0x1_0000_0000
    }
}

/// The blinding that is used, or the error that stops a commitment before it
/// is blinded, given the polynomial that was drawn.
pub open spec fn blinding_outcome(
    powers: Powers,
    hiding_bound: Option<usize>,
    terminated: bool,
    draw: Option<Seq<int>>,
) -> Result<Seq<int>, Error> {
    if terminated {
        Err(Error::Terminated)
    } else if hiding_bound is None {
        Ok(Seq::empty())
    } else {
        match draw {
            None => Err(Error::MissingRng),
            Some(r) => match hiding_error(degree_of(r), powers.powers_of_gamma_g@.len()) {
                Some(e) => Err(e),
                None => Ok(r),
            },
        }
    }
}

/// The factor of the commitment to `p` blinded by `r`.
pub open spec fn commitment_value(powers: Powers, p: Seq<int>, r: Seq<int>) -> int {
    (combination(powers.powers_of_g@, p) + combination(powers.powers_of_gamma_g@, r)) % modulus()
}

/// The factor of the commitment to `p` blinded by `r`, and that blinding, or
/// the error that stops it, given what was drawn and whether the work had been
/// called off at each of the two times of asking.
pub open spec fn commit_outcome(
    powers: Powers,
    p: Seq<int>,
    hiding_bound: Option<usize>,
    terminated_early: bool,
    draw: Option<Seq<int>>,
    terminated_late: bool,
) -> Result<(int, Seq<int>), Error> {
    match degree_error(degree_of(p), powers.powers_of_g@.len()) {
        Some(e) => Err(e),
        None => match blinding_outcome(powers, hiding_bound, terminated_early, draw) {
            Err(e) => Err(e),
            Ok(r) => if terminated_late {
                Err(Error::Terminated)
            } else {
                Ok((commitment_value(powers, p, r), r))
            },
        },
    }
}

/// The polynomial that was drawn, if one was.
pub open spec fn drawn(draw: Option<Randomness>) -> Option<Seq<int>> {
    match draw {
        Some(randomness) => Some(randomness.blinding_polynomial@),
        None => None,
    }
}

/// A commitment and its blinding, by what they stand for.
pub open spec fn committed(res: Result<(Commitment, Randomness), Error>) -> Result<
    (int, Seq<int>),
    Error,
> {
    match res {
        Ok((commitment, randomness)) => Ok((commitment.0@, randomness.blinding_polynomial@)),
        Err(e) => Err(e),
    }
}

/// Whether reading a terminator may give a value.
pub open spec fn was_read(terminator: &AtomicBool, value: bool) -> bool {
    call_ensures(
        AtomicBool::load,
        (terminator, std::sync::atomic::Ordering::Relaxed),
        value,
    )
}

impl KZG10 {
    /// Outputs a commitment to a polynomial. The terminator is asked once the
    /// polynomial is committed to, and again once the blinding polynomial is.
    /// The generator is drawn from for a hiding commitment only, and not before
    /// the terminator was asked.
    pub fn commit(
        powers: &Powers,
        polynomial: &Polynomial,
        hiding_bound: Option<usize>,
        terminator: &AtomicBool,
        rng: Option<&mut StdRng>,
    ) -> (res: Result<(Commitment, Randomness), Error>)
        requires
            committable(*powers, polynomial@),
            degree_error(degree_of(polynomial@), powers.powers_of_g@.len()) is None && rng is Some
                ==> hideable(*powers, hiding_bound),
        ensures
            hiding_bound is None && rng is Some ==> *final(rng->0) == *old(rng->0),
            degree_error(degree_of(polynomial@), powers.powers_of_g@.len()) is Some && rng is Some
                ==> *final(rng->0) == *old(rng->0),
            res matches Ok((_, randomness)) ==> (hiding_bound matches Some(bound) ==> {
                &&& rng is Some
                &&& exists|r: &mut StdRng|
                    *r == *old(rng->0) && *final(r) == *final(rng->0)
                        && #[trigger] polynomial_drawn(
                        (bound + 1) as usize,
                        r,
                        randomness.blinding_polynomial,
                    )
            }),
            exists|terminated_early: bool, draw: Option<Seq<int>>, terminated_late: bool|
                {
                    &&& degree_error(degree_of(polynomial@), powers.powers_of_g@.len()) is None
                        ==> was_read(terminator, terminated_early)
                    &&& degree_error(degree_of(polynomial@), powers.powers_of_g@.len()) is None
                        && hiding_bound is Some && rng is Some && !terminated_early ==> exists|
                        r: &mut StdRng,
                        q: Polynomial,
                    |
                        *r == *old(rng->0) && *final(r) == *final(rng->0)
                            && #[trigger] polynomial_drawn(
                            (hiding_bound->0 + 1) as usize,
                            r,
                            q,
                        ) && draw == Some(q@)
                    &&& res is Ok ==> was_read(terminator, terminated_late)
                    &&& terminated_late ==> was_read(terminator, true)
                    &&& draw is None <==> rng is None
                    &&& hiding_bound is Some && draw is Some ==> draw->0.len()
                        <= hiding_bound->0 + 2
                    &&& terminated_early && rng is Some ==> *final(rng->0) == *old(rng->0)
                    &&& committed(res) == #[trigger] commit_outcome(
                        *powers,
                        polynomial@,
                        hiding_bound,
                        terminated_early,
                        draw,
                        terminated_late,
                    )
                },
    {
        let plain = match Self::commit_to_polynomial(powers, polynomial) {
            Err(e) => {
                proof {
                    let draw = if rng is None {
                        None
                    } else {
                        Some(Seq::<int>::empty())
                    };
                    assert(committed(Err(e)) == commit_outcome(
                        *powers,
                        polynomial@,
                        hiding_bound,
                        false,
                        draw,
                        false,
                    ));
                }
                return Err(e);
            },
            Ok(plain) => plain,
        };
        let terminated_early = is_set(terminator);
        let ghost mut draw: Option<Seq<int>> = if rng is Some {
            Some(Seq::<int>::empty())
        } else {
            None
        };
        let sample: Option<Randomness> = match (hiding_bound, rng) {
            (Some(bound), Some(rng)) => if terminated_early {
                None
            } else {
                let randomness = Randomness::rand(bound, rng);
                proof {
                    draw = Some(randomness.blinding_polynomial@);
                }
                Some(randomness)
            },
            _ => None,
        };
        let (commitment, randomness) = match Self::commit_blinded(
            powers,
            &plain,
            hiding_bound,
            terminated_early,
            sample,
        ) {
            Err(e) => {
                assert(committed(Err(e)) == commit_outcome(
                    *powers,
                    polynomial@,
                    hiding_bound,
                    terminated_early,
                    draw,
                    false,
                ));
                return Err(e);
            },
            Ok(pair) => pair,
        };
        proof {
            lemma_blinded_value(*powers, polynomial@, randomness.blinding_polynomial@);
        }
        let terminated_late = is_set(terminator);
        let res = Self::finish_commit(commitment, randomness, terminated_late);
        assert(committed(res) == commit_outcome(
            *powers,
            polynomial@,
            hiding_bound,
            terminated_early,
            draw,
            terminated_late,
        ));
        res
    }

    /// Outputs a commitment to a polynomial, given what the terminator held at
    /// each of the two times of asking, and what was drawn.
    pub fn commit_with(
        powers: &Powers,
        polynomial: &Polynomial,
        hiding_bound: Option<usize>,
        terminated_early: bool,
        draw: Option<Randomness>,
        terminated_late: bool,
    ) -> (res: Result<(Commitment, Randomness), Error>)
        requires
            committable(*powers, polynomial@),
            degree_error(degree_of(polynomial@), powers.powers_of_g@.len()) is None ==> (
            blinding_outcome(*powers, hiding_bound, terminated_early, drawn(draw)) matches Ok(r)
                ==> variable_base_size(r.len())),
        ensures
            committed(res) == commit_outcome(
                *powers,
                polynomial@,
                hiding_bound,
                terminated_early,
                drawn(draw),
                terminated_late,
            ),
    {
        match Self::commit_to_polynomial(powers, polynomial) {
            Err(e) => Err(e),
            Ok(plain) => match Self::commit_blinded(
                powers,
                &plain,
                hiding_bound,
                terminated_early,
                draw,
            ) {
                Err(e) => Err(e),
                Ok((commitment, randomness)) => {
                    proof {
                        lemma_blinded_value(
                            *powers,
                            polynomial@,
                            randomness.blinding_polynomial@,
                        );
                    }
                    Self::finish_commit(commitment, randomness, terminated_late)
                },
            },
        }
    }

    /// Blinds what a polynomial was committed to by, given whether the work has
    /// been called off and what was drawn.
    pub fn commit_blinded(
        powers: &Powers,
        plain: &G1,
        hiding_bound: Option<usize>,
        terminated: bool,
        draw: Option<Randomness>,
    ) -> (res: Result<(Commitment, Randomness), Error>)
        requires
            blinding_outcome(*powers, hiding_bound, terminated, drawn(draw)) matches Ok(r)
                ==> variable_base_size(r.len()),
        ensures
            committed(res) == match blinding_outcome(
                *powers,
                hiding_bound,
                terminated,
                drawn(draw),
            ) {
                Err(e) => Err(e),
                Ok(r) => Ok(
                    ((plain@ + combination(powers.powers_of_gamma_g@, r)) % modulus(), r),
                ),
            },
            hiding_bound is Some ==> (res matches Ok((_, randomness)) ==> draw == Some(
                randomness,
            )),
    {
        match Self::blinding_for(powers, hiding_bound, terminated, draw) {
            Err(e) => Err(e),
            Ok(randomness) => {
                let commitment = Self::blinded(powers, plain, &randomness);
                Ok((commitment, randomness))
            },
        }
    }

    /// Hands out a commitment, unless the work has been called off.
    pub fn finish_commit(
        commitment: Commitment,
        randomness: Randomness,
        terminated: bool,
    ) -> (res: Result<(Commitment, Randomness), Error>)
        ensures
            res == if terminated {
                Err(Error::Terminated)
            } else {
                Ok((commitment, randomness))
            },
    {
        if terminated {
            Err(Error::Terminated)
        } else {
            Ok((commitment, randomness))
        }
    }

    /// Combines the powers of a key with the coefficients of a polynomial.
    pub fn commit_to_polynomial(powers: &Powers, polynomial: &Polynomial) -> (res: Result<
        G1,
        Error,
    >)
        requires
            committable(*powers, polynomial@),
        ensures
            match res {
                Err(e) => degree_error(degree_of(polynomial@), powers.powers_of_g@.len()) == Some(
                    e,
                ),
                Ok(c) => {
                    &&& degree_error(degree_of(polynomial@), powers.powers_of_g@.len()) is None
                    &&& c@ == combination(powers.powers_of_g@, polynomial@) % modulus()
                },
            },
    {
        match Self::check_degree_is_too_large(polynomial.degree(), powers.size()) {
            Err(e) => {
                return Err(e);
            },
            Ok(()) => {},
        }
        let (num_leading_zeros, plain_coeffs) = skip_leading_zeros_and_convert_to_bigints(
            polynomial,
        );
        let bases = slice_subrange(
            powers.powers_of_g.as_slice(),
            num_leading_zeros,
            powers.powers_of_g.len(),
        );
        let sum = variable_base_msm(bases, plain_coeffs.as_slice());
        proof {
            let (all, n) = (g1_values(powers.powers_of_g@), num_leading_zeros as int);
            assert(g1_values(bases@) =~= all.skip(n));
            lemma_leading_zeros(polynomial@);
            lemma_inner_product_skip(all, polynomial@, n);
        }
        Ok(sum)
    }

    /// Decides how a commitment is blinded, given whether the work has been
    /// called off and what was drawn.
    pub fn blinding_for(
        powers: &Powers,
        hiding_bound: Option<usize>,
        terminated: bool,
        draw: Option<Randomness>,
    ) -> (res: Result<Randomness, Error>)
        ensures
            match res {
                Ok(randomness) => Ok::<Seq<int>, Error>(randomness.blinding_polynomial@),
                Err(e) => Err(e),
            } == blinding_outcome(
                *powers,
                hiding_bound,
                terminated,
                drawn(draw),
            ),
            hiding_bound is Some ==> (res matches Ok(randomness) ==> draw == Some(randomness)),
    {
        if terminated {
            return Err(Error::Terminated);
        }
        if hiding_bound.is_none() {
            return Ok(Randomness::empty());
        }
        match draw {
            None => Err(Error::MissingRng),
            Some(randomness) => match Self::check_hiding_bound(
                randomness.blinding_polynomial.degree(),
                powers.powers_of_gamma_g.len(),
            ) {
                Err(e) => Err(e),
                Ok(()) => Ok(randomness),
            },
        }
    }

    /// Adds the commitment to a blinding polynomial.
    pub fn blinded(powers: &Powers, plain: &G1, randomness: &Randomness) -> (res: Commitment)
        requires
            variable_base_size(randomness.blinding_polynomial@.len()),
        ensures
            res.0@ == (plain@ + combination(
                powers.powers_of_gamma_g@,
                randomness.blinding_polynomial@,
            )) % modulus(),
    {
        let random_ints = convert_to_bigints(randomness.blinding_polynomial.coeffs().as_slice());
        let random_commitment = variable_base_msm(
            powers.powers_of_gamma_g.as_slice(),
            random_ints.as_slice(),
        );
        proof {
            let sum = combination(powers.powers_of_gamma_g@, randomness.blinding_polynomial@);
            lemma_reduced(sum);
            lemma_congruent_add(plain@, plain@, random_commitment@, sum);
        }
        Commitment(plain.plus(&random_commitment))
    }

    /// Refuses a polynomial with more coefficients than there are powers.
    pub fn check_degree_is_too_large(degree: usize, num_powers: usize) -> (res: Result<(), Error>)
        requires
            degree < usize::MAX,
        ensures
            match res {
                Ok(()) => degree_error(degree as nat, num_powers as nat) is None,
                Err(e) => degree_error(degree as nat, num_powers as nat) == Some(e),
            },
    {
        let num_coefficients: usize = degree + 1;
        if num_coefficients > num_powers {
            Err(Error::TooManyCoefficients { num_coefficients, num_powers })
        } else {
            Ok(())
        }
    }

    /// Refuses a blinding polynomial that hides nothing, or that has more
    /// coefficients than there are powers.
    pub fn check_hiding_bound(hiding_poly_degree: usize, num_powers: usize) -> (res: Result<
        (),
        Error,
    >)
        ensures
            match res {
                Ok(()) => hiding_error(hiding_poly_degree as nat, num_powers as nat) is None,
                Err(e) => hiding_error(hiding_poly_degree as nat, num_powers as nat) == Some(e),
            },
    {
        if hiding_poly_degree == 0 {
            Err(Error::HidingBoundIsZero)
        } else if hiding_poly_degree >= num_powers {
            // A polynomial of degree `d` takes `d + 1` powers.
            Err(Error::HidingBoundToolarge { hiding_poly_degree, num_powers })
        } else {
            Ok(())
        }
    }
}

/// A terminator reads as a value exactly where a relaxed load of it may give
/// that value.
pub proof fn law_terminators_are_loaded(terminator: &AtomicBool, value: bool)
    ensures
        was_read(terminator, value) <==> call_ensures(
            AtomicBool::load,
            (terminator, std::sync::atomic::Ordering::Relaxed),
            value,
        ),
{
}

/// Whether the work has been called off. Another thread may do so at any time.
fn is_set(terminator: &AtomicBool) -> (res: bool)
    ensures
        was_read(terminator, res),
{
    let load = AtomicBool::load;
    load(terminator, std::sync::atomic::Ordering::Relaxed)
}

/// The number of zeros before the first other coefficient, and the
/// representatives of the coefficients from there on.
pub fn skip_leading_zeros_and_convert_to_bigints(p: &Polynomial) -> (res: (usize, Vec<[u64; 4]>))
    ensures
        res.0 == leading_zeros(p@),
        res.0 <= p@.len(),
        p@.len() > 0 ==> res.0 < p@.len(),
        bigint_values(res.1@) == p@.skip(res.0 as int),
        res.1@.len() == p@.len() - res.0,
        forall|i: int| 0 <= i < res.1@.len() ==> limbs_value((#[trigger] res.1@[i])@) < modulus(),
{
    let coeffs = p.coeffs();
    let len: usize = coeffs.len();
    let mut num_leading_zeros: usize = 0;
    proof {
        assert(p@.skip(0) =~= p@);
    }
    while num_leading_zeros < len && coeffs[num_leading_zeros].is_zero()
        invariant
            scalar_values(coeffs@) == p@,
            coeffs@.len() == p@.len(),
            len == p@.len(),
            len > 0 ==> p@.last() != 0 && num_leading_zeros < len,
            num_leading_zeros <= len,
            leading_zeros(p@) == num_leading_zeros + leading_zeros(
                p@.skip(num_leading_zeros as int),
            ),
        decreases len - num_leading_zeros,
    {
        proof {
            let rest = p@.skip(num_leading_zeros as int);
            assert(rest[0] == coeffs@[num_leading_zeros as int]@);
            assert(p@.last() == coeffs@.last()@);
            assert(rest.drop_first() =~= p@.skip(num_leading_zeros + 1));
        }
        num_leading_zeros = num_leading_zeros + 1;
    }
    let rest = slice_subrange(coeffs.as_slice(), num_leading_zeros, len);
    let bigints = convert_to_bigints(rest);
    proof {
        if len > 0 {
            assert(p@.skip(num_leading_zeros as int)[0] == coeffs@[num_leading_zeros as int]@);
        }
        assert(scalar_values(rest@) =~= p@.skip(num_leading_zeros as int));
    }
    (num_leading_zeros, bigints)
}

/// The representatives of scalars.
pub fn convert_to_bigints(p: &[Scalar]) -> (res: Vec<[u64; 4]>)
    ensures
        bigint_values(res@) == scalar_values(p@),
        res@.len() == p@.len(),
        forall|i: int| 0 <= i < res@.len() ==> limbs_value((#[trigger] res@[i])@) < modulus(),
{
    let mut res: Vec<[u64; 4]> = Vec::new();
    let mut i: usize = 0;
    while i < p.len()
        invariant
            i <= p@.len(),
            res@.len() == i,
            forall|j: int| 0 <= j < i ==> limbs_value((#[trigger] res@[j])@) == p@[j]@,
            forall|j: int| 0 <= j < i ==> limbs_value((#[trigger] res@[j])@) < modulus(),
        decreases p@.len() - i,
    {
        let limbs = p[i].to_repr();
        res.push(limbs);
        assert(limbs_value(res@[i as int]@) == p@[i as int]@);
        i = i + 1;
    }
    assert(bigint_values(res@) =~= scalar_values(p@));
    res
}

/// Blinding the reduced combination gives the commitment.
proof fn lemma_blinded_value(powers: Powers, p: Seq<int>, r: Seq<int>)
    ensures
        (combination(powers.powers_of_g@, p) % modulus() + combination(
            powers.powers_of_gamma_g@,
            r,
        )) % modulus() == commitment_value(powers, p, r),
{
    let (a, b) = (combination(powers.powers_of_g@, p), combination(powers.powers_of_gamma_g@, r));
    lemma_reduced(a);
    lemma_congruent_add(a % modulus(), a, b, b);
}

/// The leading zeros are zeros.
proof fn lemma_leading_zeros(p: Seq<int>)
    ensures
        leading_zeros(p) <= p.len(),
        forall|i: int| 0 <= i < leading_zeros(p) ==> #[trigger] p[i] == 0,
    decreases p.len(),
{
    if p.len() > 0 && p[0] == 0 {
        let rest = p.drop_first();
        lemma_leading_zeros(rest);
        assert forall|i: int| 0 <= i < leading_zeros(p) implies #[trigger] p[i] == 0 by {
            if i > 0 {
                assert(rest[i - 1] == 0);
            }
        }
    }
}

} // verus!
