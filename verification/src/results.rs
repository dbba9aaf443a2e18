//! What every result of the operations satisfies.
//!
//! Each law takes the arguments and the result of a call, and says of them what
//! the operation is for, in terms of the arguments alone.

use crate::check::batch_accepts;
use crate::commit::{
    commit_outcome, committed, convert_to_bigints, leading_zeros,
    skip_leading_zeros_and_convert_to_bigints, was_read,
};
use crate::data_structures::{
    Commitment, LabeledPolynomial, Powers, Proof, Randomness, Trapdoor, UniversalParams,
    VerifierKey,
};
use crate::error::Error;
use crate::field::{
    bigint_values, limbs_value, scalar_drawn, scalar_values, u128_drawn, Scalar,
};
use crate::group::{g1_drawn, g1_values, g2_drawn, inner_product, G1};
use crate::kzg10::{KZG10DegreeBoundsConfig, KZG10};
use crate::laws::{
    law_batch_of_valid_proofs_is_accepted, law_check_tells_the_value, law_encoding_round_trip,
    law_one_bad_proof_spoils_a_batch,
};
use crate::modular::{
    congruent, lemma_congruent_mul, lemma_modulus_bounds, lemma_reduced, lemma_small, modulus,
    power,
};
use crate::polynomial::{
    coefficient, eval, lemma_witness_identity, normalized, polynomial_drawn, witness, Polynomial,
};
use rand::rngs::StdRng;
use std::sync::atomic::AtomicBool;
use vstd::arithmetic::power2::{lemma_pow2_strictly_increases, pow2};
use vstd::prelude::*;

verus! {

/// With all degree bounds asked for, those listed are the degrees below the
/// maximum, each once and in ascending order.
pub proof fn law_all_bounds_are_listed(
    config: KZG10DegreeBoundsConfig,
    max_degree: usize,
    list: Vec<usize>,
)
    requires
        call_ensures(KZG10DegreeBoundsConfig::get_list, (&config, max_degree), list),
        config is ALL,
    ensures
        forall|b: usize| #[trigger] list@.contains(b) <==> b < max_degree,
        forall|i: int, j: int| 0 <= i < j < list@.len() ==> list@[i] < list@[j],
{
    assert forall|b: usize| #[trigger] list@.contains(b) <==> b < max_degree by {
        if b < max_degree {
            assert(list@[b as int] == b);
        }
    }
}

/// The bounds of evaluation domains that are listed are those up to the maximum
/// degree which fall short of a power of two by two, each once and in ascending
/// order.
pub proof fn law_domain_bounds_are_listed(
    config: KZG10DegreeBoundsConfig,
    max_degree: usize,
    list: Vec<usize>,
)
    requires
        call_ensures(KZG10DegreeBoundsConfig::get_list, (&config, max_degree), list),
        config is MARLIN,
    ensures
        forall|b: usize| #[trigger]
            list@.contains(b) <==> b <= max_degree && exists|k: nat|
                k >= 1 && b + 2 == #[trigger] pow2(k),
        forall|i: int, j: int| 0 <= i < j < list@.len() ==> list@[i] < list@[j],
{
    lemma_domain_bounds(max_degree as nat, list@);
}

proof fn lemma_domain_bounds(max_degree: nat, list: Seq<usize>)
    requires
        KZG10DegreeBoundsConfig::MARLIN.lists(max_degree, list),
    ensures
        forall|b: usize| #[trigger]
            list.contains(b) <==> b <= max_degree && exists|k: nat|
                k >= 1 && b + 2 == #[trigger] pow2(k),
        forall|i: int, j: int| 0 <= i < j < list.len() ==> list[i] < list[j],
{
    assert forall|b: usize| #[trigger]
        list.contains(b) <==> b <= max_degree && exists|k: nat|
            k >= 1 && b + 2 == #[trigger] pow2(k) by {
        if list.contains(b) {
            let i = choose|i: int| 0 <= i < list.len() && list[i] == b;
            assert(list[i] == pow2((i + 1) as nat) - 2);
        }
        if b <= max_degree && exists|k: nat| k >= 1 && b + 2 == #[trigger] pow2(k) {
            let k = choose|k: nat| k >= 1 && b + 2 == #[trigger] pow2(k);
            if k > list.len() + 1 {
                lemma_pow2_strictly_increases(list.len() + 1, k);
            }
            assert(list[k - 1] == pow2(k) - 2);
        }
    }
    assert forall|i: int, j: int| 0 <= i < j < list.len() implies list[i] < list[j] by {
        assert(list[i] == pow2((i + 1) as nat) - 2);
        assert(list[j] == pow2((j + 1) as nat) - 2);
        lemma_pow2_strictly_increases((i + 1) as nat, (j + 1) as nat);
    }
}

/// Bounds that are given are listed as they are, and without bounds none are.
pub proof fn law_given_bounds_are_listed(
    config: KZG10DegreeBoundsConfig,
    max_degree: usize,
    list: Vec<usize>,
)
    requires
        call_ensures(KZG10DegreeBoundsConfig::get_list, (&config, max_degree), list),
    ensures
        config matches KZG10DegreeBoundsConfig::LIST(v) ==> list@ == v@,
        config is NONE ==> list@ == Seq::<usize>::empty(),
{
}

/// Parameters are refused for the degree zero, and where a negative power of
/// zero would be needed; in no other case.
pub proof fn law_parameters_are_refused(
    max_degree: usize,
    config: KZG10DegreeBoundsConfig,
    produce_g2_powers: bool,
    trapdoor: Trapdoor,
    res: Result<UniversalParams, Error>,
)
    requires
        call_ensures(
            KZG10::setup_with_trapdoor,
            (max_degree, &config, produce_g2_powers, &trapdoor),
            res,
        ),
    ensures
        res == Err::<UniversalParams, Error>(Error::DegreeIsZero) <==> max_degree == 0,
        res == Err::<UniversalParams, Error>(Error::TrapdoorIsZero) <==> {
            &&& max_degree > 0
            &&& trapdoor.beta@ == 0
            &&& produce_g2_powers
            &&& match config {
                KZG10DegreeBoundsConfig::LIST(v) => exists|i: int|
                    0 <= i < v@.len() && #[trigger] v@[i] != max_degree,
                KZG10DegreeBoundsConfig::NONE => false,
                _ => true,
            }
        },
        res matches Err(e) ==> e is DegreeIsZero || e is TrapdoorIsZero,
{
}

/// The powers start with the bases, and each is the one before times the secret
/// point, up to the maximum degree for polynomials, and one further for
/// blinding.
pub proof fn law_parameters_are_powers(
    max_degree: usize,
    config: KZG10DegreeBoundsConfig,
    produce_g2_powers: bool,
    trapdoor: Trapdoor,
    pp: UniversalParams,
)
    requires
        call_ensures(
            KZG10::setup_with_trapdoor,
            (max_degree, &config, produce_g2_powers, &trapdoor),
            Ok(pp),
        ),
        trapdoor.is_valid(),
        max_degree + 2 <= usize::MAX,
    ensures
        pp.powers_of_g@.len() == max_degree + 1,
        pp.powers_of_g@[0]@ == trapdoor.g@,
        forall|i: int|
            0 < i <= max_degree ==> congruent(
                (#[trigger] pp.powers_of_g@[i])@,
                pp.powers_of_g@[i - 1]@ * trapdoor.beta@,
            ),
        forall|i: usize| #[trigger] pp.powers_of_gamma_g@.contains_key(i) <==> i <= max_degree + 1,
        pp.powers_of_gamma_g@[0]@ == trapdoor.gamma_g@,
        forall|i: usize|
            0 < i <= max_degree + 1 ==> congruent(
                (#[trigger] pp.powers_of_gamma_g@[i])@,
                pp.powers_of_gamma_g@[(i - 1) as usize]@ * trapdoor.beta@,
            ),
        pp.h == trapdoor.h,
        congruent(pp.beta_h@, trapdoor.h@ * trapdoor.beta@),
        pp.prepared_h@ == pp.h@,
        pp.prepared_beta_h@ == pp.beta_h@,
{
    let (g, gamma, beta) = (trapdoor.g@, trapdoor.gamma_g@, trapdoor.beta@);
    lemma_small(g);
    lemma_small(gamma);
    assert(power(beta, 0) == 1);
    assert(g * 1 == g);
    assert(gamma * 1 == gamma);
    assert(pp.powers_of_g@[0]@ == (g * power(beta, 0)) % modulus());
    assert(pp.powers_of_gamma_g@[0usize]@ == (gamma * power(beta, 0)) % modulus());
    assert forall|i: int| 0 < i <= max_degree implies congruent(
        (#[trigger] pp.powers_of_g@[i])@,
        pp.powers_of_g@[i - 1]@ * beta,
    ) by {
        lemma_next_power(g, beta, i as nat);
        assert(pp.powers_of_g@[i - 1]@ == (g * power(beta, (i - 1) as nat)) % modulus());
    }
    assert forall|i: usize| 0 < i <= max_degree + 1 implies congruent(
        (#[trigger] pp.powers_of_gamma_g@[i])@,
        pp.powers_of_gamma_g@[(i - 1) as usize]@ * beta,
    ) by {
        lemma_next_power(gamma, beta, i as nat);
        let k = (i - 1) as usize;
        assert(pp.powers_of_gamma_g@[k]@ == (gamma * power(beta, k as nat)) % modulus());
    }
    lemma_reduced(trapdoor.h@ * beta);
}

proof fn lemma_next_power(base: int, beta: int, i: nat)
    requires
        i > 0,
    ensures
        congruent(
            (base * power(beta, i)) % modulus(),
            ((base * power(beta, (i - 1) as nat)) % modulus()) * beta,
        ),
{
    let p = power(beta, (i - 1) as nat);
    lemma_reduced(base * power(beta, i));
    lemma_reduced(base * p);
    lemma_congruent_mul((base * p) % modulus(), base * p, beta, beta);
    assert((base * p) * beta == base * (beta * p)) by (nonlinear_arith);
}

/// Neighbouring powers pair with the verifier's elements to the same value: the
/// pairing of a power with the multiple by the secret point is that of the next
/// power with the base.
pub proof fn law_neighbouring_powers_pair(
    max_degree: usize,
    config: KZG10DegreeBoundsConfig,
    produce_g2_powers: bool,
    trapdoor: Trapdoor,
    pp: UniversalParams,
    i: int,
)
    requires
        call_ensures(
            KZG10::setup_with_trapdoor,
            (max_degree, &config, produce_g2_powers, &trapdoor),
            Ok(pp),
        ),
        trapdoor.is_valid(),
        max_degree + 2 <= usize::MAX,
        0 < i <= max_degree,
    ensures
        congruent(pp.powers_of_g@[i]@ * pp.h@, pp.powers_of_g@[i - 1]@ * pp.beta_h@),
{
    law_parameters_are_powers(max_degree, config, produce_g2_powers, trapdoor, pp);
    let (a, b) = (pp.powers_of_g@[i - 1]@, pp.powers_of_g@[i]@);
    let (h, beta) = (trapdoor.h@, trapdoor.beta@);
    assert(congruent(b, a * beta));
    lemma_congruent_mul(b, a * beta, h, h);
    lemma_congruent_mul(a, a, pp.beta_h@, h * beta);
    assert((a * beta) * h == a * (h * beta)) by (nonlinear_arith);
}

/// The degree bounds that parameters support are those of their configuration,
/// and each comes with the power that shifts a polynomial of that degree up to
/// the maximum degree. Where asked for, it also comes with the power that
/// undoes the shift, and else with none.
pub proof fn law_parameters_support_bounds(
    max_degree: usize,
    config: KZG10DegreeBoundsConfig,
    produce_g2_powers: bool,
    trapdoor: Trapdoor,
    pp: UniversalParams,
    b: usize,
)
    requires
        call_ensures(
            KZG10::setup_with_trapdoor,
            (max_degree, &config, produce_g2_powers, &trapdoor),
            Ok(pp),
        ),
        config matches KZG10DegreeBoundsConfig::LIST(v) ==> forall|i: int|
            0 <= i < v@.len() ==> #[trigger] v@[i] <= max_degree,
    ensures
        pp.supported_degree_bounds@.contains(b) <==> match config {
            KZG10DegreeBoundsConfig::ALL => b < max_degree,
            KZG10DegreeBoundsConfig::MARLIN => b <= max_degree && exists|k: nat|
                k >= 1 && b + 2 == #[trigger] pow2(k),
            KZG10DegreeBoundsConfig::LIST(v) => v@.contains(b),
            KZG10DegreeBoundsConfig::NONE => false,
        },
        config matches KZG10DegreeBoundsConfig::LIST(v) ==> pp.supported_degree_bounds@ == v@,
        !(config is LIST) ==> forall|i: int, j: int|
            0 <= i < j < pp.supported_degree_bounds@.len() ==> pp.supported_degree_bounds@[i]
                < pp.supported_degree_bounds@[j],
        pp.inverse_powers_of_g@.contains_key(b) <==> pp.supported_degree_bounds@.contains(b),
        pp.supported_degree_bounds@.contains(b) ==> b <= max_degree && congruent(
            pp.inverse_powers_of_g@[b]@,
            trapdoor.g@ * power(trapdoor.beta@, (max_degree - b) as nat),
        ),
        pp.inverse_neg_powers_of_h@.contains_key(b) <==> produce_g2_powers
            && pp.supported_degree_bounds@.contains(b),
        pp.inverse_neg_powers_of_h@.contains_key(b) ==> congruent(
            pp.inverse_neg_powers_of_h@[b]@ * power(trapdoor.beta@, (max_degree - b) as nat),
            trapdoor.h@,
        ),
{
    let list = pp.supported_degree_bounds@;
    if config is MARLIN {
        lemma_domain_bounds(max_degree as nat, list);
    }
    if config is ALL && b < max_degree {
        assert(list[b as int] == b);
    }
    if list.contains(b) {
        let i = choose|i: int| 0 <= i < list.len() && list[i] == b;
        assert(list[i] == b);
        assert(b <= max_degree);
        assert(pp.inverse_powers_of_g@[b] == pp.powers_of_g@[max_degree - b]);
        let shift = power(trapdoor.beta@, (max_degree - b) as nat);
        assert(pp.powers_of_g@[max_degree - b]@ == (trapdoor.g@ * shift) % modulus());
        lemma_reduced(trapdoor.g@ * shift);
    }
}

/// Set-up draws its trapdoor from the generator it is given: the secret point
/// first, then the base for polynomials, the base for blinding polynomials and
/// the verifier's base, which the parameters start with. It draws nothing else,
/// and nothing at all for the degree zero.
pub proof fn law_setup_draws_its_bases(
    max_degree: usize,
    config: KZG10DegreeBoundsConfig,
    produce_g2_powers: bool,
    rng: &mut StdRng,
    res: Result<UniversalParams, Error>,
)
    requires
        call_ensures(KZG10::setup, (max_degree, &config, produce_g2_powers, rng), res),
        max_degree + 2 <= usize::MAX,
    ensures
        max_degree == 0 ==> *final(rng) == *old(rng),
        max_degree > 0 ==> exists|
            trapdoor: Trapdoor,
            r1: &mut StdRng,
            r2: &mut StdRng,
            r3: &mut StdRng,
            r4: &mut StdRng,
        |
            {
                &&& *r1 == *old(rng)
                &&& #[trigger] scalar_drawn(r1, trapdoor.beta)
                &&& *r2 == *final(r1)
                &&& #[trigger] g1_drawn(r2, trapdoor.g)
                &&& *r3 == *final(r2)
                &&& #[trigger] g1_drawn(r3, trapdoor.gamma_g)
                &&& *r4 == *final(r3)
                &&& #[trigger] g2_drawn(r4, trapdoor.h)
                &&& *final(rng) == *final(r4)
                &&& res is Err ==> trapdoor.beta@ == 0
                &&& res matches Ok(pp) ==> {
                    &&& pp.powers_of_g@[0]@ == trapdoor.g@
                    &&& pp.powers_of_g@.len() == max_degree + 1
                    &&& congruent(pp.powers_of_g@[1]@, trapdoor.g@ * trapdoor.beta@)
                    &&& pp.powers_of_gamma_g@[0]@ == trapdoor.gamma_g@
                    &&& pp.h == trapdoor.h
                    &&& congruent(pp.beta_h@, trapdoor.h@ * trapdoor.beta@)
                }
            },
{
    assert forall|trapdoor: Trapdoor, pp: UniversalParams|
        trapdoor.is_valid() && max_degree > 0 && #[trigger] pp.derived_from(
            max_degree as nat,
            config,
            produce_g2_powers,
            trapdoor,
        ) implies pp.powers_of_g@[0]@ == trapdoor.g@ && congruent(
        pp.powers_of_g@[1]@,
        trapdoor.g@ * trapdoor.beta@,
    ) && pp.powers_of_gamma_g@[0]@ == trapdoor.gamma_g@ && congruent(
        pp.beta_h@,
        trapdoor.h@ * trapdoor.beta@,
    ) by {
        let (g, gamma, beta) = (trapdoor.g@, trapdoor.gamma_g@, trapdoor.beta@);
        lemma_small(g);
        lemma_small(gamma);
        assert(power(beta, 0) == 1);
        assert(power(beta, 1) == beta * 1);
        assert(g * 1 == g);
        assert(gamma * 1 == gamma);
        assert(pp.powers_of_g@[0]@ == (g * power(beta, 0)) % modulus());
        assert(pp.powers_of_g@[1]@ == (g * power(beta, 1)) % modulus());
        assert(pp.powers_of_gamma_g@[0usize]@ == (gamma * power(beta, 0)) % modulus());
        lemma_reduced(g * beta);
        lemma_reduced(trapdoor.h@ * beta);
    }
}

/// Keys that are cut down for a degree hold exactly the powers up to it, and
/// one more where the degree is one. They start where the parameters start.
pub proof fn law_trimmed_keys_hold_the_degree_asked_for(
    pp: UniversalParams,
    supported_degree: usize,
    powers: Powers,
    vk: VerifierKey,
)
    requires
        call_ensures(KZG10::trim, (&pp, supported_degree), (powers, vk)),
        supported_degree < pp.powers_of_g@.len(),
        supported_degree == 1 ==> 2 < pp.powers_of_g@.len(),
    ensures
        powers.powers_of_g@.len() >= supported_degree + 1,
        supported_degree != 1 ==> powers.powers_of_g@.len() == supported_degree + 1,
        supported_degree == 1 ==> powers.powers_of_g@.len() == 3,
        powers.powers_of_gamma_g@.len() == powers.powers_of_g@.len(),
        forall|i: int|
            0 <= i < powers.powers_of_g@.len() ==> #[trigger] powers.powers_of_g@[i]
                == pp.powers_of_g@[i],
        forall|i: int|
            0 <= i < powers.powers_of_gamma_g@.len() ==> #[trigger] powers.powers_of_gamma_g@[i]
                == pp.powers_of_gamma_g@[i as usize],
        vk.g == pp.powers_of_g@[0],
        vk.gamma_g == pp.powers_of_gamma_g@[0],
        vk.h == pp.h,
        vk.beta_h == pp.beta_h,
        vk.prepared_h@ == pp.prepared_h@,
        vk.prepared_beta_h@ == pp.prepared_beta_h@,
{
}

/// Keys that are cut down for a degree take every polynomial up to that degree:
/// neither committing to it nor opening it is refused for its degree.
pub proof fn law_trimmed_keys_take_the_degree_asked_for(
    pp: UniversalParams,
    supported_degree: usize,
    powers: Powers,
    vk: VerifierKey,
    p: Polynomial,
    hiding_bound: Option<usize>,
    terminator: AtomicBool,
    rng: Option<&mut StdRng>,
    made: Result<(Commitment, Randomness), Error>,
    point: Scalar,
    rand: Randomness,
    opened: Result<Proof, Error>,
)
    requires
        call_ensures(KZG10::trim, (&pp, supported_degree), (powers, vk)),
        supported_degree < pp.powers_of_g@.len(),
        supported_degree == 1 ==> 2 < pp.powers_of_g@.len(),
        p@.len() <= supported_degree + 1,
        call_ensures(KZG10::commit, (&powers, &p, hiding_bound, &terminator, rng), made),
        call_ensures(KZG10::open, (&powers, &p, point, &rand), opened),
    ensures
        made matches Err(e) ==> !(e is TooManyCoefficients),
        opened is Ok,
{
}

/// A polynomial is refused for its degree exactly where it has more
/// coefficients than the key has powers, and the refusal tells both numbers.
pub proof fn law_degrees_are_refused(degree: usize, num_powers: usize, res: Result<(), Error>)
    requires
        call_ensures(KZG10::check_degree_is_too_large, (degree, num_powers), res),
        degree < usize::MAX,
    ensures
        res is Ok <==> degree < num_powers,
        res matches Err(e) ==> e == (Error::TooManyCoefficients {
            num_coefficients: (degree + 1) as usize,
            num_powers,
        }),
{
}

/// A blinding polynomial is refused exactly where it is constant, and so hides
/// nothing, or where the key has no power for its leading coefficient.
pub proof fn law_hiding_degrees_are_refused(
    hiding_poly_degree: usize,
    num_powers: usize,
    res: Result<(), Error>,
)
    requires
        call_ensures(KZG10::check_hiding_bound, (hiding_poly_degree, num_powers), res),
    ensures
        res is Ok <==> 0 < hiding_poly_degree < num_powers,
        res matches Err(e) ==> e == if hiding_poly_degree == 0 {
            Error::HidingBoundIsZero
        } else {
            Error::HidingBoundToolarge { hiding_poly_degree, num_powers }
        },
{
}

/// A commitment is the sum of the powers of the key, weighted by the
/// coefficients of the polynomial, and of the blinding powers, weighted by those
/// of the blinding polynomial. The blinding polynomial is drawn from the
/// generator, has a degree above zero and fits the key; without a hiding bound
/// there is none, and nothing is drawn.
pub proof fn law_commitments_are_weighted_sums(
    powers: Powers,
    p: Polynomial,
    hiding_bound: Option<usize>,
    terminator: AtomicBool,
    rng: Option<&mut StdRng>,
    c: Commitment,
    r: Randomness,
)
    requires
        call_ensures(KZG10::commit, (&powers, &p, hiding_bound, &terminator, rng), Ok((c, r))),
    ensures
        p@.len() <= powers.powers_of_g@.len(),
        powers.powers_of_g@.len() > 0,
        c.0@ == (inner_product(g1_values(powers.powers_of_g@), p@) + inner_product(
            g1_values(powers.powers_of_gamma_g@),
            r.blinding_polynomial@,
        )) % modulus(),
        hiding_bound is None ==> r.blinding_polynomial@ == Seq::<int>::empty(),
        hiding_bound is None && rng is Some ==> *final(rng->0) == *old(rng->0),
        hiding_bound is Some ==> rng is Some && 2 <= r.blinding_polynomial@.len()
            <= powers.powers_of_gamma_g@.len(),
        hiding_bound is Some ==> exists|d: &mut StdRng|
            *d == *old(rng->0) && *final(d) == *final(rng->0) && #[trigger] polynomial_drawn(
                (hiding_bound->0 + 1) as usize,
                d,
                r.blinding_polynomial,
            ),
        was_read(&terminator, false),
{
}

/// When committing fails, and with what: too many coefficients come first, and
/// leave the generator alone. Else the work was called off, or a hiding
/// commitment was asked for without a generator, or what was drawn from the
/// generator does not hide or does not fit.
pub proof fn law_refused_commitments(
    powers: Powers,
    p: Polynomial,
    hiding_bound: Option<usize>,
    terminator: AtomicBool,
    rng: Option<&mut StdRng>,
    res: Result<(Commitment, Randomness), Error>,
)
    requires
        call_ensures(KZG10::commit, (&powers, &p, hiding_bound, &terminator, rng), res),
        p@.len() <= usize::MAX,
        powers.powers_of_g@.len() <= usize::MAX,
        powers.powers_of_gamma_g@.len() <= usize::MAX,
        hiding_bound matches Some(bound) ==> bound + 2 <= usize::MAX,
    ensures
        (res matches Err(e) && e is TooManyCoefficients) <==> p@.len() > powers.powers_of_g@.len()
            || powers.powers_of_g@.len() == 0,
        (res matches Err(e) && e is TooManyCoefficients) && rng is Some ==> *final(rng->0) == *old(
            rng->0,
        ),
        res matches Err(e) ==> match e {
            Error::TooManyCoefficients { num_coefficients, num_powers } => {
                &&& num_coefficients == if p@.len() == 0 {
                    1
                } else {
                    p@.len()
                }
                &&& num_powers == powers.powers_of_g@.len()
            },
            Error::Terminated => was_read(&terminator, true),
            Error::MissingRng => hiding_bound is Some && rng is None && was_read(
                &terminator,
                false,
            ),
            Error::HidingBoundIsZero => hiding_bound is Some && rng is Some && exists|
                d: &mut StdRng,
                q: Polynomial,
            |
                *d == *old(rng->0) && *final(d) == *final(rng->0) && #[trigger] polynomial_drawn(
                    (hiding_bound->0 + 1) as usize,
                    d,
                    q,
                ) && q@.len() <= 1,
            Error::HidingBoundToolarge { hiding_poly_degree, num_powers } => {
                &&& hiding_bound is Some
                &&& rng is Some
                &&& num_powers == powers.powers_of_gamma_g@.len()
                &&& exists|d: &mut StdRng, q: Polynomial|
                    *d == *old(rng->0) && *final(d) == *final(rng->0)
                        && #[trigger] polynomial_drawn(
                        (hiding_bound->0 + 1) as usize,
                        d,
                        q,
                    ) && q@.len() == hiding_poly_degree + 1 && q@.len() > num_powers
            },
            _ => false,
        },
{
}

/// A commitment for given readings of the terminator and a given draw: it
/// succeeds exactly where the polynomial fits the key, the work was not called
/// off, and the blinding polynomial, where one is asked for, is there, hides and
/// fits.
pub proof fn law_commitments_for_given_draws(
    powers: Powers,
    p: Polynomial,
    hiding_bound: Option<usize>,
    terminated_early: bool,
    draw: Option<Randomness>,
    terminated_late: bool,
    res: Result<(Commitment, Randomness), Error>,
)
    requires
        call_ensures(
            KZG10::commit_with,
            (&powers, &p, hiding_bound, terminated_early, draw, terminated_late),
            res,
        ),
    ensures
        res is Ok <==> {
            &&& p@.len() <= powers.powers_of_g@.len()
            &&& powers.powers_of_g@.len() > 0
            &&& !terminated_early
            &&& !terminated_late
            &&& hiding_bound is Some ==> draw is Some && 2 <= draw->0.blinding_polynomial@.len()
                <= powers.powers_of_gamma_g@.len()
        },
        res matches Ok((c, r)) ==> {
            &&& r.blinding_polynomial@ == if hiding_bound is Some {
                draw->0.blinding_polynomial@
            } else {
                Seq::<int>::empty()
            }
            &&& c.0@ == (inner_product(g1_values(powers.powers_of_g@), p@) + inner_product(
                g1_values(powers.powers_of_gamma_g@),
                r.blinding_polynomial@,
            )) % modulus()
        },
        res matches Err(e) ==> e == if p@.len() > powers.powers_of_g@.len()
            || powers.powers_of_g@.len() == 0 {
            Error::TooManyCoefficients {
                num_coefficients: if p@.len() == 0 {
                    1
                } else {
                    p@.len() as usize
                },
                num_powers: powers.powers_of_g@.len() as usize,
            }
        } else if terminated_early {
            Error::Terminated
        } else if hiding_bound is Some && draw is None {
            Error::MissingRng
        } else if hiding_bound is Some && draw->0.blinding_polynomial@.len() <= 1 {
            Error::HidingBoundIsZero
        } else if hiding_bound is Some && draw->0.blinding_polynomial@.len()
            > powers.powers_of_gamma_g@.len() {
            Error::HidingBoundToolarge {
                hiding_poly_degree: (draw->0.blinding_polynomial@.len() - 1) as usize,
                num_powers: powers.powers_of_gamma_g@.len() as usize,
            }
        } else {
            Error::Terminated
        },
{
}

/// Committing without blinding weighs the powers by the coefficients, and
/// succeeds exactly where there are enough powers.
pub proof fn law_plain_commitments_are_weighted_sums(
    powers: Powers,
    p: Polynomial,
    res: Result<G1, Error>,
)
    requires
        call_ensures(KZG10::commit_to_polynomial, (&powers, &p), res),
    ensures
        res is Ok <==> p@.len() <= powers.powers_of_g@.len() && powers.powers_of_g@.len() > 0,
        res matches Ok(c) ==> c@ == inner_product(g1_values(powers.powers_of_g@), p@) % modulus(),
{
}

/// Blinding adds the blinding powers, weighted by the coefficients of the
/// blinding polynomial.
pub proof fn law_blinding_adds_a_weighted_sum(
    powers: Powers,
    plain: G1,
    randomness: Randomness,
    res: Commitment,
)
    requires
        call_ensures(KZG10::blinded, (&powers, &plain, &randomness), res),
    ensures
        res.0@ == (plain@ + inner_product(
            g1_values(powers.powers_of_gamma_g@),
            randomness.blinding_polynomial@,
        )) % modulus(),
{
}

/// The blinding is the draw where a hiding bound asks for it, and none where
/// none does.
pub proof fn law_blinding_is_the_draw(
    powers: Powers,
    hiding_bound: Option<usize>,
    terminated: bool,
    draw: Option<Randomness>,
    res: Result<Randomness, Error>,
)
    requires
        call_ensures(KZG10::blinding_for, (&powers, hiding_bound, terminated, draw), res),
    ensures
        res is Ok <==> !terminated && (hiding_bound is Some ==> draw is Some && 2
            <= draw->0.blinding_polynomial@.len() <= powers.powers_of_gamma_g@.len()),
        res matches Ok(r) ==> if hiding_bound is Some {
            draw == Some(r)
        } else {
            r.blinding_polynomial@ == Seq::<int>::empty()
        },
        terminated ==> res == Err::<Randomness, Error>(Error::Terminated),
        !terminated && hiding_bound is Some && draw is None ==> res == Err::<Randomness, Error>(
            Error::MissingRng,
        ),
        !terminated && hiding_bound is Some && draw is Some && draw->0.blinding_polynomial@.len()
            <= 1 ==> res == Err::<Randomness, Error>(Error::HidingBoundIsZero),
{
}

/// Witness polynomials are the quotients that they are for: multiplied by the
/// distance from the point, and with the value there added, they give the
/// polynomial back, at every `x`. There is one for the blinding polynomial
/// exactly where there is blinding.
pub proof fn law_witnesses_give_the_polynomial_back(
    p: Polynomial,
    point: Scalar,
    randomness: Randomness,
    w: Polynomial,
    hiding_w: Option<Polynomial>,
    x: int,
)
    requires
        call_ensures(
            KZG10::compute_witness_polynomial,
            (&p, point, &randomness),
            Ok((w, hiding_w)),
        ),
    ensures
        congruent(eval(p@, x), eval(w@, x) * (x - point@) + eval(p@, point@)),
        p@.len() > 0 ==> w@.len() == p@.len() - 1,
        p@.len() == 0 ==> w@.len() == 0,
        hiding_w is Some <==> randomness.blinding_polynomial@.len() > 0,
        hiding_w matches Some(v) ==> congruent(
            eval(randomness.blinding_polynomial@, x),
            eval(v@, x) * (x - point@) + eval(randomness.blinding_polynomial@, point@),
        ) && v@.len() == randomness.blinding_polynomial@.len() - 1,
{
    lemma_witness_identity(p@, point@, x);
    lemma_witness_identity(randomness.blinding_polynomial@, point@, x);
}

/// Every polynomial that the key takes can be opened at every point, and the
/// proof holds the commitment to witnesses and, where there is blinding, the
/// value of the blinding polynomial at the point.
pub proof fn law_openings_commit_to_witnesses(
    powers: Powers,
    p: Polynomial,
    point: Scalar,
    rand: Randomness,
    res: Result<Proof, Error>,
)
    requires
        call_ensures(KZG10::open, (&powers, &p, point, &rand), res),
    ensures
        res is Ok <==> p@.len() <= powers.powers_of_g@.len() && powers.powers_of_g@.len() > 0,
        res matches Ok(proof) ==> {
            &&& proof.random_v is Some <==> rand.blinding_polynomial@.len() > 0
            &&& proof.random_v matches Some(v) ==> v@ == eval(rand.blinding_polynomial@, point@)
                % modulus()
            &&& congruent(
                proof.w@,
                inner_product(g1_values(powers.powers_of_g@), witness(p@, point@))
                    + inner_product(
                    g1_values(powers.powers_of_gamma_g@),
                    witness(rand.blinding_polynomial@, point@),
                ),
            )
        },
{
    let (gs, gammas) = (g1_values(powers.powers_of_g@), g1_values(powers.powers_of_gamma_g@));
    let (w, s) = (witness(p@, point@), witness(rand.blinding_polynomial@, point@));
    if rand.blinding_polynomial@.len() == 0 {
        assert(s =~= Seq::<int>::empty());
        assert(inner_product(gammas, s) == 0);
        lemma_reduced(inner_product(gs, w));
    } else {
        lemma_reduced(inner_product(gs, w) + inner_product(gammas, s));
    }
}

/// The proof for given witness polynomials holds the commitment to both of
/// them, and the value of the blinding polynomial where its witness is there.
pub proof fn law_proofs_commit_to_given_witnesses(
    powers: Powers,
    point: Scalar,
    randomness: Randomness,
    w: Polynomial,
    hiding_w: Option<&Polynomial>,
    res: Result<Proof, Error>,
)
    requires
        call_ensures(
            KZG10::open_with_witness_polynomial,
            (&powers, point, &randomness, &w, hiding_w),
            res,
        ),
    ensures
        res is Ok <==> w@.len() <= powers.powers_of_g@.len() && powers.powers_of_g@.len() > 0,
        res matches Ok(proof) ==> {
            &&& proof.random_v is Some <==> hiding_w is Some
            &&& proof.random_v matches Some(v) ==> v@ == eval(
                randomness.blinding_polynomial@,
                point@,
            ) % modulus()
            &&& hiding_w is None ==> proof.w@ == inner_product(
                g1_values(powers.powers_of_g@),
                w@,
            ) % modulus()
            &&& hiding_w matches Some(s) ==> proof.w@ == (inner_product(
                g1_values(powers.powers_of_g@),
                w@,
            ) + inner_product(g1_values(powers.powers_of_gamma_g@), s@)) % modulus()
        },
{
}

/// A check accepts exactly where the pairings of the two sides agree: the
/// commitment, less the value and the blinding value, with the base; and the
/// witness with the distance of the secret point from the point.
pub proof fn law_checks_compare_pairings(
    vk: VerifierKey,
    c: Commitment,
    point: Scalar,
    value: Scalar,
    proof: Proof,
    res: Result<bool, Error>,
)
    requires
        call_ensures(KZG10::check, (&vk, &c, point, value, &proof), res),
    ensures
        res is Ok,
        res == Ok::<bool, Error>(true) <==> congruent(
            (c.0@ - vk.g@ * value@ - (match proof.random_v {
                Some(v) => vk.gamma_g@ * v@,
                None => 0,
            })) * vk.h@,
            proof.w@ * (vk.beta_h@ - vk.h@ * point@),
        ),
{
    assert(vk.gamma_g@ * 0 == 0);
}

/// From set-up to check: what comes of drawing parameters, cutting them down,
/// committing to a polynomial and opening it is accepted for the value of the
/// polynomial at the point, and for no other, where the bases that were drawn
/// are not neutral.
pub proof fn law_the_scheme_tells_the_value(
    max_degree: usize,
    config: KZG10DegreeBoundsConfig,
    produce_g2_powers: bool,
    setup_rng: &mut StdRng,
    pp: UniversalParams,
    supported_degree: usize,
    powers: Powers,
    vk: VerifierKey,
    p: Polynomial,
    hiding_bound: Option<usize>,
    terminator: AtomicBool,
    commit_rng: Option<&mut StdRng>,
    c: Commitment,
    r: Randomness,
    point: Scalar,
    proof: Proof,
    value: Scalar,
    res: Result<bool, Error>,
)
    requires
        call_ensures(
            KZG10::setup,
            (max_degree, &config, produce_g2_powers, setup_rng),
            Ok(pp),
        ),
        max_degree + 2 <= usize::MAX,
        call_ensures(KZG10::trim, (&pp, supported_degree), (powers, vk)),
        supported_degree <= max_degree,
        supported_degree == 1 ==> 2 <= max_degree,
        call_ensures(
            KZG10::commit,
            (&powers, &p, hiding_bound, &terminator, commit_rng),
            Ok((c, r)),
        ),
        call_ensures(KZG10::open, (&powers, &p, point, &r), Ok(proof)),
        call_ensures(KZG10::check, (&vk, &c, point, value, &proof), res),
        pp.powers_of_g@[0].in_group(),
        pp.h.in_group(),
        value.is_reduced(),
        pp.powers_of_g@[0]@ != 0,
        pp.h@ != 0,
    ensures
        res == Ok::<bool, Error>(value@ == eval(p@, point@) % modulus()),
{
    let degree: nat = if supported_degree == 1 {
        2
    } else {
        supported_degree as nat
    };
    let trapdoor = choose|trapdoor: Trapdoor|
        trapdoor.is_valid() && #[trigger] pp.derived_from(
            max_degree as nat,
            config,
            produce_g2_powers,
            trapdoor,
        );
    assert(pp.powers_of_g@[0]@ == (trapdoor.g@ * power(trapdoor.beta@, 0)) % modulus());
    assert(power(trapdoor.beta@, 0) == 1);
    assert(trapdoor.g@ * 1 == trapdoor.g@);
    lemma_small(trapdoor.g@);
    let (early, draw, late) = choose|early: bool, draw: Option<Seq<int>>, late: bool|
        committed(Ok((c, r))) == #[trigger] commit_outcome(
            powers,
            p@,
            hiding_bound,
            early,
            draw,
            late,
        );
    law_check_tells_the_value(
        max_degree as nat,
        config,
        produce_g2_powers,
        trapdoor,
        pp,
        degree,
        powers,
        vk,
        p@,
        hiding_bound,
        early,
        draw,
        late,
        r.blinding_polynomial@,
        c,
        point@,
        value@,
        proof,
    );
    lemma_small(value@);
}

/// A batch of proofs each of which a check accepts is accepted, whatever the
/// factors are. A proof counts where every list reaches it.
pub proof fn law_batches_of_valid_proofs(
    vk: VerifierKey,
    commitments: &[Commitment],
    points: &[Scalar],
    values: &[Scalar],
    proofs: &[Proof],
    randomizers: &[Scalar],
    res: Result<bool, Error>,
)
    requires
        call_ensures(
            KZG10::batch_check_with,
            (&vk, commitments, points, values, proofs, randomizers),
            res,
        ),
        vk.prepared_h@ == vk.h@,
        vk.prepared_beta_h@ == vk.beta_h@,
        forall|i: int|
            0 <= i < proofs@.len() && i < commitments@.len() && i < points@.len() && i
                < values@.len() ==> call_ensures(
                KZG10::check,
                (&vk, &commitments@[i], points@[i], values@[i], &#[trigger] proofs@[i]),
                Ok(true),
            ),
    ensures
        res == Ok::<bool, Error>(true),
{
    law_batch_of_valid_proofs_is_accepted(
        vk,
        commitments@,
        points@,
        values@,
        proofs@,
        scalar_values(randomizers@),
    );
}

/// A batch with exactly one proof that a check rejects is rejected, wherever it
/// stands, unless its factor is zero.
pub proof fn law_batches_with_one_bad_proof(
    vk: VerifierKey,
    commitments: &[Commitment],
    points: &[Scalar],
    values: &[Scalar],
    proofs: &[Proof],
    randomizers: &[Scalar],
    bad: int,
    res: Result<bool, Error>,
)
    requires
        call_ensures(
            KZG10::batch_check_with,
            (&vk, commitments, points, values, proofs, randomizers),
            res,
        ),
        vk.prepared_h@ == vk.h@,
        vk.prepared_beta_h@ == vk.beta_h@,
        0 <= bad < proofs@.len(),
        bad < commitments@.len(),
        bad < points@.len(),
        bad < values@.len(),
        bad < randomizers@.len(),
        randomizers@[bad].is_reduced(),
        randomizers@[bad]@ != 0,
        call_ensures(
            KZG10::check,
            (&vk, &commitments@[bad], points@[bad], values@[bad], &proofs@[bad]),
            Ok(false),
        ),
        forall|i: int|
            0 <= i < proofs@.len() && i < commitments@.len() && i < points@.len() && i
                < values@.len() && i != bad ==> call_ensures(
                KZG10::check,
                (&vk, &commitments@[i], points@[i], values@[i], &#[trigger] proofs@[i]),
                Ok(true),
            ),
    ensures
        res == Ok::<bool, Error>(false),
{
    let factors = scalar_values(randomizers@);
    assert(factors[bad] == randomizers@[bad]@);
    lemma_small(randomizers@[bad]@);
    law_one_bad_proof_spoils_a_batch(
        vk,
        commitments@,
        points@,
        values@,
        proofs@,
        factors,
        bad,
    );
}

/// A batch check weighs the first proof by one, and every further one by the
/// next 128-bit integer that it draws from the generator. It rejects a batch
/// with exactly one proof that a check rejects, where that is the first or
/// where the integer drawn for it is not zero.
pub proof fn law_batch_checks_draw_their_factors(
    vk: VerifierKey,
    commitments: &[Commitment],
    points: &[Scalar],
    values: &[Scalar],
    proofs: &[Proof],
    rng: &mut StdRng,
    bad: int,
    res: Result<bool, Error>,
)
    requires
        call_ensures(
            KZG10::batch_check,
            (&vk, commitments, points, values, proofs, rng),
            res,
        ),
        vk.prepared_h@ == vk.h@,
        vk.prepared_beta_h@ == vk.beta_h@,
        0 <= bad < proofs@.len(),
        proofs@.len() == commitments@.len(),
        proofs@.len() == points@.len(),
        proofs@.len() == values@.len(),
        call_ensures(
            KZG10::check,
            (&vk, &commitments@[bad], points@[bad], values@[bad], &proofs@[bad]),
            Ok(false),
        ),
        forall|i: int|
            0 <= i < proofs@.len() && i != bad ==> call_ensures(
                KZG10::check,
                (&vk, &commitments@[i], points@[i], values@[i], &#[trigger] proofs@[i]),
                Ok(true),
            ),
    ensures
        exists|factors: Seq<int>, states: Seq<StdRng>|
            {
                &&& factors.len() == proofs@.len() + 1
                &&& states.len() == proofs@.len() + 1
                &&& states[0] == *old(rng)
                &&& #[trigger] states.last() == *final(rng)
                &&& #[trigger] factors[0] == 1
                &&& forall|i: int|
                    0 < i <= proofs@.len() ==> 0 <= #[trigger] factors[i] && exists|
                        r: &mut StdRng,
                        draw: u128,
                    |
                        *r == states[i - 1] && *final(r) == states[i] && #[trigger] u128_drawn(
                            r,
                            draw,
                        ) && factors[i] == draw
                &&& factors[bad] != 0 ==> res == Ok::<bool, Error>(false)
            },
{
    lemma_modulus_bounds();
    assert forall|factors: Seq<int>|
        factors.len() > bad && 0 < factors[bad]
            < 0x1_0000_0000_0000_0000_0000_0000_0000_0000 implies !#[trigger] batch_accepts(
        vk,
        commitments@,
        points@,
        values@,
        proofs@,
        factors,
    ) by {
        lemma_small(factors[bad]);
        law_one_bad_proof_spoils_a_batch(
            vk,
            commitments@,
            points@,
            values@,
            proofs@,
            factors,
            bad,
        );
    }
}

/// A batch check of proofs each of which a check accepts accepts, whatever is
/// drawn.
pub proof fn law_batch_checks_accept_valid_proofs(
    vk: VerifierKey,
    commitments: &[Commitment],
    points: &[Scalar],
    values: &[Scalar],
    proofs: &[Proof],
    rng: &mut StdRng,
    res: Result<bool, Error>,
)
    requires
        call_ensures(
            KZG10::batch_check,
            (&vk, commitments, points, values, proofs, rng),
            res,
        ),
        vk.prepared_h@ == vk.h@,
        vk.prepared_beta_h@ == vk.beta_h@,
        forall|i: int|
            0 <= i < proofs@.len() && i < commitments@.len() && i < points@.len() && i
                < values@.len() ==> call_ensures(
                KZG10::check,
                (&vk, &commitments@[i], points@[i], values@[i], &#[trigger] proofs@[i]),
                Ok(true),
            ),
    ensures
        res == Ok::<bool, Error>(true),
{
    assert forall|factors: Seq<int>| #[trigger]
        batch_accepts(
            vk,
            commitments@,
            points@,
            values@,
            proofs@,
            factors,
        ) by {
        law_batch_of_valid_proofs_is_accepted(
            vk,
            commitments@,
            points@,
            values@,
            proofs@,
            factors,
        );
    }
}

/// A degree bound that is among the enforced ones, which ascend, is met exactly
/// where the polynomial has no coefficient above it and it does not exceed the
/// maximum degree. One that is not among them is not supported, and a
/// polynomial without a bound is accepted.
pub proof fn law_degree_bounds_are_met(
    supported_degree: usize,
    max_degree: usize,
    enforced: Option<&[usize]>,
    p: LabeledPolynomial,
    res: Result<(), Error>,
)
    requires
        call_ensures(
            KZG10::check_degrees_and_bounds,
            (supported_degree, max_degree, enforced, &p),
            res,
        ),
        p.spec_polynomial().is_normalized(),
        enforced matches Some(list) ==> forall|i: int, j: int|
            0 <= i <= j < list@.len() ==> list@[i] <= list@[j],
    ensures
        p.spec_degree_bound() is None ==> res is Ok,
        p.spec_degree_bound() matches Some(bound) ==> {
            let supported = enforced is Some && enforced->0@.contains(bound);
            &&& !supported ==> res == Err::<(), Error>(Error::UnsupportedDegreeBound(bound))
            &&& supported ==> (res is Ok <==> p.spec_polynomial()@.len() <= bound + 1 && bound
                <= max_degree)
            &&& supported && bound <= max_degree ==> (res is Ok <==> forall|i: int|
                i > bound ==> #[trigger] coefficient(p.spec_polynomial()@, i) == 0)
            &&& supported && res is Err ==> (res matches Err(
                Error::IncorrectDegreeBound {
                    poly_degree,
                    degree_bound,
                    supported_degree: told,
                    label,
                },
            ) && degree_bound == bound && told == supported_degree && label@ == p.spec_label()
                && poly_degree == if p.spec_polynomial()@.len() == 0 {
                0
            } else {
                p.spec_polynomial()@.len() - 1
            })
        },
{
    let q = p.spec_polynomial()@;
    if p.spec_degree_bound() is Some && q.len() > p.spec_degree_bound()->0 + 1 {
        assert(coefficient(q, q.len() - 1) == q.last());
    }
}

/// Making a polynomial of coefficients keeps every coefficient, and its last
/// one is not zero.
pub proof fn law_polynomials_keep_their_coefficients(
    coeffs: Vec<Scalar>,
    p: Polynomial,
    i: int,
)
    requires
        call_ensures(Polynomial::from_coefficients_vec, (coeffs,), p),
    ensures
        coefficient(p@, i) == if 0 <= i < coeffs@.len() {
            coeffs@[i]@
        } else {
            0
        },
        p@.len() > 0 ==> p@.last() != 0,
{
    let all = scalar_values(coeffs@);
    lemma_normalized(all, i);
    if 0 <= i < coeffs@.len() {
        assert(all[i] == coeffs@[i]@);
    }
}

proof fn lemma_normalized(all: Seq<int>, i: int)
    ensures
        coefficient(normalized(all), i) == coefficient(all, i),
        normalized(all).len() > 0 ==> normalized(all).last() != 0,
    decreases all.len(),
{
    if all.len() > 0 && all.last() == 0 {
        lemma_normalized(all.drop_last(), i);
        assert(coefficient(all.drop_last(), i) == coefficient(all, i));
    }
}

/// The degree is the highest power with a coefficient other than zero.
pub proof fn law_degrees_are_of_leading_coefficients(p: Polynomial, degree: usize)
    requires
        call_ensures(Polynomial::degree, (&p,), degree),
        p.is_normalized(),
    ensures
        forall|i: int| i > degree ==> #[trigger] coefficient(p@, i) == 0,
        p@.len() > 0 ==> coefficient(p@, degree as int) != 0,
        p@.len() == 0 ==> degree == 0,
{
}

/// Skipping leading zeros stops at the first coefficient that is not zero, and
/// leaves the coefficients from there on.
pub proof fn law_leading_zeros_are_skipped(p: Polynomial, n: usize, ints: Vec<[u64; 4]>)
    requires
        call_ensures(skip_leading_zeros_and_convert_to_bigints, (&p,), (n, ints)),
    ensures
        forall|i: int| 0 <= i < n ==> #[trigger] p@[i] == 0,
        n < p@.len() ==> p@[n as int] != 0,
        p@.len() > 0 ==> n < p@.len(),
        ints@.len() + n == p@.len(),
        forall|i: int|
            0 <= i < ints@.len() ==> limbs_value((#[trigger] ints@[i])@) == p@[i + n],
{
    lemma_first_other(p@);
    let values = bigint_values(ints@);
    assert forall|i: int| 0 <= i < ints@.len() implies limbs_value((#[trigger] ints@[i])@) == p@[i
        + n] by {
        assert(values[i] == p@.skip(n as int)[i]);
    }
}

proof fn lemma_first_other(p: Seq<int>)
    ensures
        leading_zeros(p) <= p.len(),
        forall|i: int| 0 <= i < leading_zeros(p) ==> #[trigger] p[i] == 0,
        leading_zeros(p) < p.len() ==> p[leading_zeros(p) as int]
            != 0,
    decreases p.len(),
{
    if p.len() > 0 && p[0] == 0 {
        let rest = p.drop_first();
        lemma_first_other(rest);
        assert forall|i: int| 0 <= i < leading_zeros(p) implies #[trigger] p[i]
            == 0 by {
            if i > 0 {
                assert(rest[i - 1] == 0);
            }
        }
    }
}

/// Conversion gives each scalar's representative, in order.
pub proof fn law_representatives_are_converted(p: &[Scalar], res: Vec<[u64; 4]>)
    requires
        call_ensures(convert_to_bigints, (p,), res),
    ensures
        res@.len() == p@.len(),
        forall|i: int| 0 <= i < res@.len() ==> limbs_value((#[trigger] res@[i])@) == p@[i]@,
{
    let values = bigint_values(res@);
    assert forall|i: int| 0 <= i < res@.len() implies limbs_value((#[trigger] res@[i])@)
        == p@[i]@ by {
        assert(values[i] == scalar_values(p@)[i]);
    }
}

/// Reading what was written gives the parameters back, with their elements
/// prepared anew; and what is written of them then is what was read.
pub proof fn law_written_parameters_are_read(
    pp: UniversalParams,
    bytes: Vec<u8>,
    slice: &[u8],
    res: Option<UniversalParams>,
    bytes_again: Vec<u8>,
)
    requires
        call_ensures(UniversalParams::to_bytes_le, (&pp,), bytes),
        slice@ == bytes@,
        call_ensures(UniversalParams::read_le, (slice,), res),
        res is Some ==> call_ensures(UniversalParams::to_bytes_le, (&res->0,), bytes_again),
    ensures
        res matches Some(read) && read.powers_of_g@ == pp.powers_of_g@ && read.powers_of_gamma_g@
            == pp.powers_of_gamma_g@ && read.h == pp.h && read.beta_h == pp.beta_h
            && read.supported_degree_bounds@ == pp.supported_degree_bounds@
            && read.inverse_powers_of_g@ == pp.inverse_powers_of_g@
            && read.inverse_neg_powers_of_h@ == pp.inverse_neg_powers_of_h@
            && read.prepared_h@ == pp.h@ && read.prepared_beta_h@ == pp.beta_h@,
        bytes_again@ == bytes@,
{
    assert(pp.encoded_as(slice@));
    let read = res->0;
    law_encoding_round_trip(pp, bytes@, read, bytes_again@);
}

/// Parameters are read from one encoding only: writing what was read gives the
/// bytes that it was read from.
pub proof fn law_read_parameters_are_written(
    slice: &[u8],
    pp: UniversalParams,
    bytes: Vec<u8>,
)
    requires
        call_ensures(UniversalParams::read_le, (slice,), Some(pp)),
        call_ensures(UniversalParams::to_bytes_le, (&pp,), bytes),
    ensures
        bytes@ == slice@,
{
    law_encoding_round_trip(pp, slice@, pp, bytes@);
}

} // verus!
