//! Setting up parameters, and cutting them down to keys.

#[allow(unused_imports)]
use crate::certificate::lemma_power_not_zero;
use crate::data_structures::{Powers, Trapdoor, UniversalParams, VerifierKey};
use crate::error::Error;
use crate::field::{scalar_drawn, scalar_size_in_bits, Scalar};
use crate::group::{fixed_base_size, g1_drawn, g2_drawn, get_mul_window_size, G1, G2};
use crate::kzg10::{KZG10DegreeBoundsConfig, KZG10};
use crate::modular::{congruent, modulus, power};
#[allow(unused_imports)]
use crate::modular::{
    lemma_congruent_mul, lemma_modulus_bounds, lemma_power_of_zero, lemma_reduced,
    lemma_reduced_factor, lemma_small,
};
use crate::pairing::prepare;
use crate::tables::{look_up, put};
use rand::rngs::StdRng;
use std::collections::BTreeMap;
#[allow(unused_imports)]
use vstd::arithmetic::power2::{lemma2_to64, lemma_pow2_strictly_increases, pow2};
use vstd::prelude::*;

verus! {

/// What parameters can be set up: the bounds lie within the maximum degree,
/// and the numbers of powers fit the machine.
pub open spec fn setup_supported(
    max_degree: nat,
    config: KZG10DegreeBoundsConfig,
    produce_g2_powers: bool,
) -> bool {
    &&& max_degree + 2 <= usize::MAX
    &&& fixed_base_size(max_degree + 1)
    &&& match config {
        KZG10DegreeBoundsConfig::ALL => produce_g2_powers ==> fixed_base_size(max_degree),
        KZG10DegreeBoundsConfig::MARLIN => max_degree + 2 <= usize::MAX / 2,
        KZG10DegreeBoundsConfig::LIST(v) => {
            &&& forall|i: int| 0 <= i < v@.len() ==> #[trigger] v@[i] <= max_degree
            &&& produce_g2_powers ==> fixed_base_size(v@.len())
        },
        KZG10DegreeBoundsConfig::NONE => true,
    }
}

impl UniversalParams {
    /// Whether these are the parameters that follow from a trapdoor.
    pub open spec fn derived_from(
        self,
        max_degree: nat,
        config: KZG10DegreeBoundsConfig,
        produce_g2_powers: bool,
        trapdoor: Trapdoor,
    ) -> bool {
        let beta = trapdoor.beta@;
        &&& self.powers_of_g@.len() == max_degree + 1
        &&& forall|i: int|
            0 <= i <= max_degree ==> (#[trigger] self.powers_of_g@[i])@ == (trapdoor.g@ * power(
                beta,
                i as nat,
            )) % modulus()
        &&& forall|i: usize|
            #[trigger] self.powers_of_gamma_g@.contains_key(i) <==> i <= max_degree + 1
        &&& forall|i: usize|
            i <= max_degree + 1 ==> (#[trigger] self.powers_of_gamma_g@[i])@ == (trapdoor.gamma_g@
                * power(beta, i as nat)) % modulus()
        &&& self.h == trapdoor.h
        &&& self.beta_h@ == (trapdoor.h@ * beta) % modulus()
        &&& self.prepared_h@ == self.h@
        &&& self.prepared_beta_h@ == self.beta_h@
        &&& config.lists(max_degree, self.supported_degree_bounds@)
        &&& forall|i: usize|
            #[trigger] self.inverse_powers_of_g@.contains_key(i)
                <==> self.supported_degree_bounds@.contains(i)
        &&& forall|i: usize|
            self.supported_degree_bounds@.contains(i) ==> #[trigger] self.inverse_powers_of_g@[i]
                == self.powers_of_g@[max_degree - i]
        &&& forall|i: usize|
            #[trigger] self.inverse_neg_powers_of_h@.contains_key(i) <==> produce_g2_powers
                && self.supported_degree_bounds@.contains(i)
        &&& forall|i: usize|
            produce_g2_powers && self.supported_degree_bounds@.contains(i) ==> congruent(
                (#[trigger] self.inverse_neg_powers_of_h@[i])@ * power(
                    beta,
                    (max_degree - i) as nat,
                ),
                trapdoor.h@,
            )
    }
}

/// The degree that a key is cut down to: a key for linear polynomials holds
/// one power more, so that it can blind them.
pub open spec fn trimmed_degree(supported_degree: nat) -> nat {
    if supported_degree == 1 {
        2
    } else {
        supported_degree
    }
}

/// Whether keys are those for a degree in given parameters.
pub open spec fn trims(
    pp: UniversalParams,
    degree: nat,
    powers: Powers,
    vk: VerifierKey,
) -> bool {
    &&& powers.powers_of_g@ == pp.powers_of_g@.take(degree + 1int)
    &&& powers.powers_of_gamma_g@.len() == degree + 1
    &&& forall|i: int|
        0 <= i <= degree ==> #[trigger] powers.powers_of_gamma_g@[i]
            == pp.powers_of_gamma_g@[i as usize]
    &&& vk.g == pp.powers_of_g@[0]
    &&& vk.gamma_g == pp.powers_of_gamma_g@[0]
    &&& vk.h == pp.h
    &&& vk.beta_h == pp.beta_h
    &&& vk.prepared_h@ == pp.prepared_h@
    &&& vk.prepared_beta_h@ == pp.prepared_beta_h@
}

impl KZG10 {
    /// Draws public parameters for polynomials up to a maximum degree.
    pub fn setup(
        max_degree: usize,
        supported_degree_bounds_config: &KZG10DegreeBoundsConfig,
        produce_g2_powers: bool,
        rng: &mut StdRng,
    ) -> (res: Result<UniversalParams, Error>)
        requires
            max_degree >= 1 ==> setup_supported(
                max_degree as nat,
                *supported_degree_bounds_config,
                produce_g2_powers,
            ),
        ensures
            max_degree < 1 <==> res == Err::<UniversalParams, Error>(Error::DegreeIsZero),
            max_degree < 1 ==> *final(rng) == *old(rng),
            res matches Err(e) ==> e is DegreeIsZero || e is TrapdoorIsZero,
            res is Err && max_degree >= 1 ==> produce_g2_powers
                && supported_degree_bounds_config.has_shift(max_degree as nat),
            max_degree >= 1 ==> exists|
                trapdoor: Trapdoor,
                r1: &mut StdRng,
                r2: &mut StdRng,
                r3: &mut StdRng,
                r4: &mut StdRng,
            |
                {
                    &&& trapdoor.is_valid()
                    &&& *r1 == *old(rng)
                    &&& #[trigger] scalar_drawn(r1, trapdoor.beta)
                    &&& *r2 == *final(r1)
                    &&& #[trigger] g1_drawn(r2, trapdoor.g)
                    &&& *r3 == *final(r2)
                    &&& #[trigger] g1_drawn(r3, trapdoor.gamma_g)
                    &&& *r4 == *final(r3)
                    &&& #[trigger] g2_drawn(r4, trapdoor.h)
                    &&& *final(rng) == *final(r4)
                    &&& match res {
                        Ok(pp) => pp.derived_from(
                            max_degree as nat,
                            *supported_degree_bounds_config,
                            produce_g2_powers,
                            trapdoor,
                        ),
                        Err(_) => trapdoor.beta@ == 0,
                    }
                },
            res matches Ok(pp) ==> exists|trapdoor: Trapdoor|
                trapdoor.is_valid() && #[trigger] pp.derived_from(
                    max_degree as nat,
                    *supported_degree_bounds_config,
                    produce_g2_powers,
                    trapdoor,
                ),
    {
        if max_degree < 1 {
            return Err(Error::DegreeIsZero);
        }
        let trapdoor = Trapdoor::rand(rng);
        Self::setup_with_trapdoor(
            max_degree,
            supported_degree_bounds_config,
            produce_g2_powers,
            &trapdoor,
        )
    }

    /// Computes the public parameters that follow from a trapdoor.
    pub fn setup_with_trapdoor(
        max_degree: usize,
        supported_degree_bounds_config: &KZG10DegreeBoundsConfig,
        produce_g2_powers: bool,
        trapdoor: &Trapdoor,
    ) -> (res: Result<UniversalParams, Error>)
        requires
            max_degree >= 1 ==> setup_supported(
                max_degree as nat,
                *supported_degree_bounds_config,
                produce_g2_powers,
            ),
        ensures
            match res {
                Err(Error::DegreeIsZero) => max_degree < 1,
                Err(Error::TrapdoorIsZero) => {
                    &&& max_degree >= 1
                    &&& trapdoor.beta@ == 0
                    &&& produce_g2_powers
                    &&& supported_degree_bounds_config.has_shift(max_degree as nat)
                },
                Err(_) => false,
                Ok(pp) => {
                    &&& max_degree >= 1
                    &&& !(trapdoor.beta@ == 0 && produce_g2_powers
                        && supported_degree_bounds_config.has_shift(max_degree as nat))
                    &&& pp.derived_from(
                        max_degree as nat,
                        *supported_degree_bounds_config,
                        produce_g2_powers,
                        *trapdoor,
                    )
                },
            },
    {
        if max_degree < 1 {
            return Err(Error::DegreeIsZero);
        }
        let ghost d = max_degree as nat;
        let scalar_bits: usize = scalar_size_in_bits();
        let beta = trapdoor.beta;
        let ghost b = beta@;

        // Compute `beta^i G`.
        let powers_of_beta = powers_up_to(beta, max_degree);
        let window_size: usize = get_mul_window_size(max_degree + 1);
        let powers_of_g = multiples_by_powers(
            &trapdoor.g,
            scalar_bits,
            window_size,
            &powers_of_beta,
            Ghost(b),
        );

        // Compute `gamma beta^i G`, with one more power, so that as many
        // openings as the maximum degree can be hidden.
        let mut powers_of_gamma_g = multiples_by_powers(
            &trapdoor.gamma_g,
            scalar_bits,
            window_size,
            &powers_of_beta,
            Ghost(b),
        );
        let next = powers_of_gamma_g[max_degree].times(&beta);
        proof {
            let p = power(b, d);
            assert(power(b, d + 1) == b * p);
            lemma_reduced(trapdoor.gamma_g@ * p);
            lemma_congruent_mul(powers_of_gamma_g@[d as int]@, trapdoor.gamma_g@ * p, b, b);
            assert(trapdoor.gamma_g@ * p * b == trapdoor.gamma_g@ * (b * p)) by (nonlinear_arith);
        }
        powers_of_gamma_g.push(next);
        let powers_of_gamma_g = enumerated(powers_of_gamma_g);

        // Compute the powers that enforce degree bounds.
        let list = supported_degree_bounds_config.get_list(max_degree);
        proof {
            lemma_bounds_supported(
                *supported_degree_bounds_config,
                d,
                produce_g2_powers,
                list@,
            );
        }
        let inverse_powers_of_g = shifting_powers(&list, &powers_of_g, max_degree);
        let inverse_neg_powers_of_h = if produce_g2_powers && list.len() > 0 {
            let neg_powers_of_beta = match inverse_powers(beta, &list, max_degree) {
                None => {
                    return Err(Error::TrapdoorIsZero);
                },
                Some(neg_powers_of_beta) => neg_powers_of_beta,
            };
            let window_size: usize = get_mul_window_size(neg_powers_of_beta.len());
            let neg_powers_of_h = trapdoor.h.fixed_base_multiples(
                scalar_bits,
                window_size,
                &neg_powers_of_beta,
            );
            proof {
                assert forall|i: int| 0 <= i < list@.len() implies congruent(
                    (#[trigger] neg_powers_of_h@[i])@ * power(b, (max_degree - list@[i]) as nat),
                    trapdoor.h@,
                ) by {
                    let p = power(b, (max_degree - list@[i]) as nat);
                    let inverse = neg_powers_of_beta@[i]@;
                    lemma_inverse_cancels(trapdoor.h@, inverse, p, neg_powers_of_h@[i]@);
                }
            }
            by_bound(&list, &neg_powers_of_h, Ghost(max_degree as int), Ghost(b), Ghost(
                trapdoor.h@,
            ))
        } else {
            BTreeMap::new()
        };

        let h = trapdoor.h;
        let beta_h = h.times(&beta);
        let prepared_h = prepare(&h);
        let prepared_beta_h = prepare(&beta_h);
        Ok(
            UniversalParams {
                powers_of_g,
                powers_of_gamma_g,
                h,
                beta_h,
                supported_degree_bounds: list,
                inverse_powers_of_g,
                inverse_neg_powers_of_h,
                prepared_h,
                prepared_beta_h,
            },
        )
    }

    /// Cuts public parameters down to keys for polynomials up to a degree,
    /// which should not exceed that of the parameters.
    pub fn trim(pp: &UniversalParams, supported_degree: usize) -> (res: (Powers, VerifierKey))
        requires
            trimmed_degree(supported_degree as nat) < pp.powers_of_g@.len(),
            forall|i: usize|
                i <= trimmed_degree(supported_degree as nat)
                    ==> #[trigger] pp.powers_of_gamma_g@.contains_key(i),
        ensures
            trims(*pp, trimmed_degree(supported_degree as nat), res.0, res.1),
    {
        let degree: usize = if supported_degree == 1 {
            2
        } else {
            supported_degree
        };
        let mut powers_of_g: Vec<G1> = Vec::new();
        let mut powers_of_gamma_g: Vec<G1> = Vec::new();
        let len: usize = pp.powers_of_g.len();
        let mut i: usize = 0;
        while i <= degree
            invariant
                i <= degree + 1,
                degree < len,
                len == pp.powers_of_g@.len(),
                forall|j: usize|
                    j <= degree ==> #[trigger] pp.powers_of_gamma_g@.contains_key(j),
                powers_of_g@ == pp.powers_of_g@.take(i as int),
                powers_of_gamma_g@.len() == i,
                forall|j: int|
                    0 <= j < i ==> #[trigger] powers_of_gamma_g@[j]
                        == pp.powers_of_gamma_g@[j as usize],
            decreases degree + 1 - i,
        {
            powers_of_g.push(pp.powers_of_g[i]);
            assert(powers_of_g@ =~= pp.powers_of_g@.take(i + 1));
            match look_up(&pp.powers_of_gamma_g, i) {
                Some(power) => powers_of_gamma_g.push(*power),
                None => {},
            }
            i = i + 1;
        }
        let vk = VerifierKey {
            g: powers_of_g[0],
            gamma_g: powers_of_gamma_g[0],
            h: pp.h,
            beta_h: pp.beta_h,
            prepared_h: pp.prepared_h.duplicate(),
            prepared_beta_h: pp.prepared_beta_h.duplicate(),
        };
        (Powers { powers_of_g, powers_of_gamma_g }, vk)
    }
}

/// The powers of a scalar up to an exponent.
fn powers_up_to(beta: Scalar, max_degree: usize) -> (res: Vec<Scalar>)
    requires
        max_degree < usize::MAX,
    ensures
        res@.len() == max_degree + 1,
        forall|i: int|
            0 <= i <= max_degree ==> (#[trigger] res@[i])@ == power(beta@, i as nat) % modulus(),
{
    let mut powers: Vec<Scalar> = Vec::new();
    powers.push(Scalar::one());
    let mut cur = beta;
    proof {
        use_type_invariant(&beta);
        lemma_modulus_bounds();
        lemma_small(1);
        lemma_small(beta@);
        assert(power(beta@, 0) == 1);
        assert(power(beta@, 1) == beta@);
    }
    let mut i: usize = 0;
    while i < max_degree
        invariant
            i <= max_degree,
            powers@.len() == i + 1,
            cur@ == power(beta@, (i + 1) as nat) % modulus(),
            forall|j: int|
                0 <= j <= i ==> (#[trigger] powers@[j])@ == power(beta@, j as nat) % modulus(),
        decreases max_degree - i,
    {
        powers.push(cur);
        proof {
            let p = power(beta@, (i + 1) as nat);
            lemma_reduced_factor(beta@, p);
            assert(cur@ * beta@ == beta@ * cur@) by (nonlinear_arith);
            assert(power(beta@, (i + 2) as nat) == beta@ * p);
        }
        cur = cur.times(&beta);
        i = i + 1;
    }
    powers
}

/// The multiples of an element by the powers of a scalar up to an exponent.
fn multiples_by_powers(
    base: &G1,
    scalar_bits: usize,
    window_size: usize,
    powers: &Vec<Scalar>,
    Ghost(beta): Ghost<int>,
) -> (res: Vec<G1>)
    requires
        scalar_bits == 253,
        1 <= window_size <= 23,
        forall|i: int|
            0 <= i < powers@.len() ==> (#[trigger] powers@[i])@ == power(beta, i as nat)
                % modulus(),
    ensures
        res@.len() == powers@.len(),
        forall|i: int|
            0 <= i < powers@.len() ==> (#[trigger] res@[i])@ == (base@ * power(beta, i as nat))
                % modulus(),
{
    let res = base.fixed_base_multiples(scalar_bits, window_size, powers);
    proof {
        assert forall|i: int| 0 <= i < powers@.len() implies (#[trigger] res@[i])@ == (base@
            * power(beta, i as nat)) % modulus() by {
            assert(powers@[i]@ == power(beta, i as nat) % modulus());
            lemma_reduced_factor(base@, power(beta, i as nat));
        }
    }
    res
}

/// The elements of a list under their positions.
fn enumerated(elements: Vec<G1>) -> (res: BTreeMap<usize, G1>)
    ensures
        forall|i: usize| #[trigger] res@.contains_key(i) <==> i < elements@.len(),
        forall|i: usize| i < elements@.len() ==> #[trigger] res@[i] == elements@[i as int],
{
    let mut res: BTreeMap<usize, G1> = BTreeMap::new();
    let mut i: usize = 0;
    while i < elements.len()
        invariant
            i <= elements@.len(),
            forall|j: usize| #[trigger] res@.contains_key(j) <==> j < i,
            forall|j: usize| j < i ==> #[trigger] res@[j] == elements@[j as int],
        decreases elements@.len() - i,
    {
        put(&mut res, i, elements[i]);
        i = i + 1;
    }
    res
}

/// For each degree bound, the power that shifts a polynomial of that degree up
/// to the maximum degree.
fn shifting_powers(list: &Vec<usize>, powers_of_g: &Vec<G1>, max_degree: usize) -> (res: BTreeMap<
    usize,
    G1,
>)
    requires
        powers_of_g@.len() == max_degree + 1,
        forall|i: int| 0 <= i < list@.len() ==> #[trigger] list@[i] <= max_degree,
    ensures
        forall|i: usize| #[trigger] res@.contains_key(i) <==> list@.contains(i),
        forall|i: usize|
            list@.contains(i) ==> #[trigger] res@[i] == powers_of_g@[max_degree - i],
{
    let mut res: BTreeMap<usize, G1> = BTreeMap::new();
    let mut i: usize = 0;
    assert(list@.take(0) =~= Seq::<usize>::empty());
    while i < list.len()
        invariant
            i <= list@.len(),
            powers_of_g@.len() == max_degree + 1,
            forall|j: int| 0 <= j < list@.len() ==> #[trigger] list@[j] <= max_degree,
            forall|j: usize|
                #[trigger] res@.contains_key(j) <==> list@.take(i as int).contains(j),
            forall|j: usize|
                list@.take(i as int).contains(j) ==> #[trigger] res@[j] == powers_of_g@[max_degree
                    - j],
        decreases list@.len() - i,
    {
        let bound: usize = list[i];
        put(&mut res, bound, powers_of_g[max_degree - bound]);
        proof {
            lemma_take_contains(list@, i as int);
        }
        i = i + 1;
    }
    assert(list@.take(list@.len() as int) =~= list@);
    res
}

/// For each degree bound, the inverse of the power of a scalar that is missing
/// to the maximum degree, or nothing where such a power is zero.
fn inverse_powers(beta: Scalar, list: &Vec<usize>, max_degree: usize) -> (res: Option<Vec<Scalar>>)
    requires
        forall|i: int| 0 <= i < list@.len() ==> #[trigger] list@[i] <= max_degree,
    ensures
        res is None <==> beta@ == 0 && exists|i: int|
            0 <= i < list@.len() && #[trigger] list@[i] != max_degree,
        res matches Some(v) ==> v@.len() == list@.len() && forall|i: int|
            0 <= i < list@.len() ==> congruent(
                (#[trigger] v@[i])@ * power(beta@, (max_degree - list@[i]) as nat),
                1,
            ),
{
    let mut res: Vec<Scalar> = Vec::new();
    let mut i: usize = 0;
    while i < list.len()
        invariant
            i <= list@.len(),
            forall|j: int| 0 <= j < list@.len() ==> #[trigger] list@[j] <= max_degree,
            res@.len() == i,
            beta@ == 0 ==> forall|j: int| 0 <= j < i ==> #[trigger] list@[j] == max_degree,
            forall|j: int|
                0 <= j < i ==> congruent(
                    (#[trigger] res@[j])@ * power(beta@, (max_degree - list@[j]) as nat),
                    1,
                ),
        decreases list@.len() - i,
    {
        let exponent: u64 = (max_degree - list[i]) as u64;
        let raised = beta.pow(exponent);
        proof {
            lemma_modulus_bounds();
            lemma_small(1);
            lemma_small(0);
            lemma_power_of_zero(exponent as nat);
            use_type_invariant(&beta);
            lemma_small(beta@);
            if beta@ != 0 {
                lemma_power_not_zero(beta@, exponent as nat);
            }
        }
        match raised.inverse() {
            None => {
                return None;
            },
            Some(inverse) => {
                proof {
                    let p = power(beta@, exponent as nat);
                    lemma_reduced_factor(inverse@, p);
                    assert(raised@ * inverse@ == inverse@ * raised@) by (nonlinear_arith);
                }
                res.push(inverse);
            },
        }
        i = i + 1;
    }
    Some(res)
}

/// For each degree bound, the multiple that belongs to it.
fn by_bound(
    list: &Vec<usize>,
    multiples: &Vec<G2>,
    Ghost(max_degree): Ghost<int>,
    Ghost(beta): Ghost<int>,
    Ghost(h): Ghost<int>,
) -> (res: BTreeMap<usize, G2>)
    requires
        multiples@.len() == list@.len(),
        forall|i: int|
            0 <= i < list@.len() ==> congruent(
                (#[trigger] multiples@[i])@ * power(beta, (max_degree - list@[i]) as nat),
                h,
            ),
    ensures
        forall|i: usize| #[trigger] res@.contains_key(i) <==> list@.contains(i),
        forall|i: usize|
            list@.contains(i) ==> congruent(
                (#[trigger] res@[i])@ * power(beta, (max_degree - i) as nat),
                h,
            ),
{
    let mut res: BTreeMap<usize, G2> = BTreeMap::new();
    let mut i: usize = 0;
    assert(list@.take(0) =~= Seq::<usize>::empty());
    while i < list.len()
        invariant
            i <= list@.len(),
            multiples@.len() == list@.len(),
            forall|j: int|
                0 <= j < list@.len() ==> congruent(
                    (#[trigger] multiples@[j])@ * power(beta, (max_degree - list@[j]) as nat),
                    h,
                ),
            forall|j: usize|
                #[trigger] res@.contains_key(j) <==> list@.take(i as int).contains(j),
            forall|j: usize|
                list@.take(i as int).contains(j) ==> congruent(
                    (#[trigger] res@[j])@ * power(beta, (max_degree - j) as nat),
                    h,
                ),
        decreases list@.len() - i,
    {
        put(&mut res, list[i], multiples[i]);
        proof {
            lemma_take_contains(list@, i as int);
        }
        i = i + 1;
    }
    assert(list@.take(list@.len() as int) =~= list@);
    res
}

/// What the first `i + 1` entries hold is what the first `i` hold, and the
/// entry `i`.
proof fn lemma_take_contains(list: Seq<usize>, i: int)
    requires
        0 <= i < list.len(),
    ensures
        forall|x: usize| #[trigger]
            list.take(i + 1).contains(x) <==> list.take(i).contains(x) || x == list[i],
{
    assert(list.take(i + 1) =~= list.take(i).push(list[i]));
    assert forall|x: usize| #[trigger]
        list.take(i + 1).contains(x) <==> list.take(i).contains(x) || x == list[i] by {
        if list.take(i).contains(x) {
            let j = choose|j: int| 0 <= j < i && list.take(i)[j] == x;
            assert(list.take(i + 1)[j] == x);
        }
        if x == list[i] {
            assert(list.take(i + 1)[i] == x);
        }
        if list.take(i + 1).contains(x) {
            let longer = list.take(i + 1);
            let j = choose|j: int| 0 <= j < longer.len() && longer[j] == x;
            if j < i {
                assert(list.take(i)[j] == x);
            }
        }
    }
}

/// The bounds lie within the maximum degree, their number fits the machine,
/// and one of them lies below the maximum degree where the configuration says
/// so.
proof fn lemma_bounds_supported(
    config: KZG10DegreeBoundsConfig,
    max_degree: nat,
    produce_g2_powers: bool,
    list: Seq<usize>,
)
    requires
        max_degree >= 1,
        setup_supported(max_degree, config, produce_g2_powers),
        config.lists(max_degree, list),
    ensures
        forall|i: int| 0 <= i < list.len() ==> #[trigger] list[i] <= max_degree,
        produce_g2_powers ==> fixed_base_size(list.len()),
        config.has_shift(max_degree) <==> exists|i: int|
            0 <= i < list.len() && #[trigger] list[i] != max_degree,
{
    if config is MARLIN {
        lemma2_to64();
        if list.len() == 0 {
            assert(pow2(1) - 2 > max_degree);
        } else {
            let last = list.len() - 1;
            assert(list[last] == pow2((last + 1) as nat) - 2);
            if list.len() > 64 {
                lemma_pow2_strictly_increases(64, list.len());
            }
            assert(list[0] == pow2(1) - 2);
        }
    } else if config is ALL {
        assert(list[0] == 0);
    }
}

/// A multiple by an inverse comes back when multiplied again.
proof fn lemma_inverse_cancels(h: int, inverse: int, p: int, multiple: int)
    requires
        congruent(inverse * p, 1),
        multiple == (h * inverse) % modulus(),
    ensures
        congruent(multiple * p, h),
{
    lemma_reduced(h * inverse);
    lemma_congruent_mul(multiple, h * inverse, p, p);
    lemma_congruent_mul(h, h, inverse * p, 1);
    assert(h * inverse * p == h * (inverse * p)) by (nonlinear_arith);
}

} // verus!
