//! Checking proofs of evaluations, one by one and in batches.

use crate::data_structures::{Commitment, Proof, VerifierKey};
use crate::error::Error;
use crate::field::{next_u128, scalar_values, u128_drawn, Scalar};
use crate::group::G1;
use crate::kzg10::KZG10;
use crate::modular::{congruent, modulus};
#[allow(unused_imports)]
use crate::modular::{
    lemma_congruent_add, lemma_congruent_mul, lemma_congruent_sub, lemma_modulus_bounds,
    lemma_reduced, lemma_small,
};
use crate::pairing::{pairing, product_of_pairings};
use rand::rngs::StdRng;
use vstd::prelude::*;

verus! {

/// What stands in a proof for the value of the blinding polynomial.
pub open spec fn blinding_value(proof: Proof) -> int {
    match proof.random_v {
        Some(value) => value@,
        None => 0,
    }
}

/// The equation that a proof of an evaluation satisfies: what is left of the
/// commitment when the claimed value is taken out is the witness, times the
/// distance of the secret point from the point of evaluation.
pub open spec fn check_equation(
    vk: VerifierKey,
    commitment: int,
    point: int,
    value: int,
    proof: Proof,
) -> bool {
    congruent(
        (commitment - vk.g@ * value - vk.gamma_g@ * blinding_value(proof)) * vk.h@,
        proof.w@ * (vk.beta_h@ - vk.h@ * point),
    )
}

/// By how much a proof misses its equation, over the prepared elements of the
/// key.
pub open spec fn defect(
    vk: VerifierKey,
    commitment: int,
    point: int,
    value: int,
    proof: Proof,
) -> int {
    (commitment + proof.w@ * point - vk.g@ * value - vk.gamma_g@ * blinding_value(proof))
        * vk.prepared_h@ - proof.w@ * vk.prepared_beta_h@
}

/// The sum of the defects of the first `n` proofs, each times its randomizer.
pub open spec fn batch_defect(
    vk: VerifierKey,
    commitments: Seq<Commitment>,
    points: Seq<Scalar>,
    values: Seq<Scalar>,
    proofs: Seq<Proof>,
    randomizers: Seq<int>,
    n: nat,
) -> int
    decreases n,
{
    if n == 0 {
        0
    } else {
        let i = n - 1;
        batch_defect(vk, commitments, points, values, proofs, randomizers, i as nat)
            + randomizers[i] * defect(
            vk,
            commitments[i].0@,
            points[i]@,
            values[i]@,
            proofs[i],
        )
    }
}

/// The number of evaluations in a batch, which ends with the shortest list.
pub open spec fn batch_size(commitments: nat, points: nat, values: nat, proofs: nat) -> nat {
    let a = if commitments <= points {
        commitments
    } else {
        points
    };
    let b = if values <= proofs {
        values
    } else {
        proofs
    };
    if a <= b {
        a
    } else {
        b
    }
}

/// Whether a batch of proofs, combined with given factors, is accepted: their
/// combined defect vanishes.
pub open spec fn batch_accepts(
    vk: VerifierKey,
    commitments: Seq<Commitment>,
    points: Seq<Scalar>,
    values: Seq<Scalar>,
    proofs: Seq<Proof>,
    randomizers: Seq<int>,
) -> bool {
    congruent(
        batch_defect(
            vk,
            commitments,
            points,
            values,
            proofs,
            randomizers,
            batch_size(commitments.len(), points.len(), values.len(), proofs.len()),
        ),
        0,
    )
}

impl KZG10 {
    /// Verifies that a value is the evaluation at a point of the polynomial
    /// inside a commitment.
    pub fn check(
        vk: &VerifierKey,
        commitment: &Commitment,
        point: Scalar,
        value: Scalar,
        proof: &Proof,
    ) -> (res: Result<bool, Error>)
        ensures
            res == Ok::<bool, Error>(
                check_equation(*vk, commitment.0@, point@, value@, *proof),
            ),
    {
        let g_value = vk.g.times(&value);
        let mut inner = commitment.0.minus(&g_value);
        proof {
            lemma_reduced(vk.g@ * value@);
            lemma_congruent_sub(commitment.0@, commitment.0@, g_value@, vk.g@ * value@);
            lemma_reduced(commitment.0@ - g_value@);
        }
        let ghost left = commitment.0@ - vk.g@ * value@ - vk.gamma_g@ * blinding_value(*proof);
        if let Some(random_v) = proof.random_v {
            let gamma_value = vk.gamma_g.times(&random_v);
            let ghost before = inner@;
            inner = inner.minus(&gamma_value);
            proof {
                lemma_reduced(vk.gamma_g@ * random_v@);
                lemma_congruent_sub(
                    before,
                    commitment.0@ - vk.g@ * value@,
                    gamma_value@,
                    vk.gamma_g@ * random_v@,
                );
                lemma_reduced(before - gamma_value@);
            }
        } else {
            assert(vk.gamma_g@ * 0 == 0);
        }
        assert(congruent(inner@, left));
        let lhs = pairing(&inner, &vk.h);

        let point_h = vk.h.times(&point);
        let distance = vk.beta_h.minus(&point_h);
        let rhs = pairing(&proof.w, &distance);
        proof {
            let right = vk.beta_h@ - vk.h@ * point@;
            lemma_congruent_mul(inner@, left, vk.h@, vk.h@);
            lemma_reduced(vk.h@ * point@);
            lemma_congruent_sub(vk.beta_h@, vk.beta_h@, point_h@, vk.h@ * point@);
            lemma_reduced(vk.beta_h@ - point_h@);
            lemma_congruent_mul(proof.w@, proof.w@, distance@, right);
        }
        Ok(lhs.equals(&rhs))
    }

    /// Checks that each proof is a valid proof of evaluation of its commitment
    /// at its point, all at once. The proofs are combined with random 128-bit
    /// factors, of which the first is one.
    pub fn batch_check(
        vk: &VerifierKey,
        commitments: &[Commitment],
        points: &[Scalar],
        values: &[Scalar],
        proofs: &[Proof],
        rng: &mut StdRng,
    ) -> (res: Result<bool, Error>)
        ensures
            batch_size(commitments@.len(), points@.len(), values@.len(), proofs@.len()) == 0
                ==> *final(rng) == *old(rng),
            exists|randomizers: Seq<int>, states: Seq<StdRng>|
                {
                    &&& randomizers.len() == 1 + batch_size(
                        commitments@.len(),
                        points@.len(),
                        values@.len(),
                        proofs@.len(),
                    )
                    &&& states.len() == randomizers.len()
                    &&& states[0] == *old(rng)
                    &&& #[trigger] states.last() == *final(rng)
                    &&& forall|i: int|
                        0 < i < randomizers.len() ==> 0 <= #[trigger] randomizers[i] && exists|
                            r: &mut StdRng,
                            draw: u128,
                        |
                            *r == states[i - 1] && *final(r) == states[i]
                                && #[trigger] u128_drawn(r, draw) && randomizers[i] == draw
                    &&& randomizers[0] == 1
                    &&& forall|i: int|
                        0 <= i < randomizers.len() ==> 0 <= #[trigger] randomizers[i]
                            < 0x1_0000_0000_0000_0000_0000_0000_0000_0000
                    &&& res == Ok::<bool, Error>(
                        #[trigger] batch_accepts(
                            *vk,
                            commitments@,
                            points@,
                            values@,
                            proofs@,
                            randomizers,
                        ),
                    )
                },
    {
        let n: usize = shortest(commitments.len(), points.len(), values.len(), proofs.len());
        let mut randomizers: Vec<Scalar> = Vec::new();
        randomizers.push(Scalar::one());
        let ghost mut states: Seq<StdRng> = seq![*rng];
        let mut i: usize = 0;
        while i < n
            invariant
                i <= n,
                n == 0 ==> *rng == *old(rng),
                randomizers@.len() == i + 1,
                randomizers@[0]@ == 1,
                states.len() == i + 1,
                states[0] == *old(rng),
                states[i as int] == *rng,
                forall|j: int|
                    0 < j < randomizers@.len() ==> 0 <= (#[trigger] randomizers@[j])@ && exists|
                        r: &mut StdRng,
                        draw: u128,
                    |
                        *r == states[j - 1] && *final(r) == states[j] && #[trigger] u128_drawn(
                            r,
                            draw,
                        ) && randomizers@[j]@ == draw,
                forall|j: int|
                    0 <= j < randomizers@.len() ==> 0 <= (#[trigger] randomizers@[j])@
                        < 0x1_0000_0000_0000_0000_0000_0000_0000_0000,
            decreases n - i,
        {
            let ghost (factors, visited) = (randomizers@, states);
            let drawn: u128 = next_u128(rng);
            let factor = Scalar::from_u128(drawn);
            randomizers.push(factor);
            proof {
                states = states.push(*rng);
                assert forall|j: int| 0 < j < randomizers@.len() implies 0 <= (
                #[trigger] randomizers@[j])@ && exists|r: &mut StdRng, draw: u128|
                    *r == states[j - 1] && *final(r) == states[j] && #[trigger] u128_drawn(r, draw)
                        && randomizers@[j]@ == draw by {
                    if j <= i {
                        assert(factors[j] == randomizers@[j]);
                        assert(states[j - 1] == visited[j - 1]);
                        assert(states[j] == visited[j]);
                    } else {
                        assert(states[j] == *rng);
                        assert(states[j - 1] == visited[j - 1]);
                        assert(randomizers@[j]@ == drawn);
                    }
                }
            }
            i = i + 1;
        }
        let res = Self::batch_check_with(
            vk,
            commitments,
            points,
            values,
            proofs,
            randomizers.as_slice(),
        );
        proof {
            let factors = scalar_values(randomizers@);
            assert forall|j: int| 0 <= j < factors.len() implies 0 <= #[trigger] factors[j]
                < 0x1_0000_0000_0000_0000_0000_0000_0000_0000 by {
                assert(factors[j] == randomizers@[j]@);
            }
            assert(res == Ok::<bool, Error>(
                batch_accepts(*vk, commitments@, points@, values@, proofs@, factors),
            ));
            assert(states.last() == *rng);
            assert forall|j: int| 0 < j < factors.len() implies 0 <= #[trigger] factors[j]
                && exists|r: &mut StdRng, draw: u128|
                *r == states[j - 1] && *final(r) == states[j] && #[trigger] u128_drawn(r, draw)
                    && factors[j] == draw by {
                assert(factors[j] == randomizers@[j]@);
            }
        }
        res
    }

    /// Checks a batch of proofs, combined with given factors.
    pub fn batch_check_with(
        vk: &VerifierKey,
        commitments: &[Commitment],
        points: &[Scalar],
        values: &[Scalar],
        proofs: &[Proof],
        randomizers: &[Scalar],
    ) -> (res: Result<bool, Error>)
        requires
            randomizers@.len() >= batch_size(
                commitments@.len(),
                points@.len(),
                values@.len(),
                proofs@.len(),
            ),
        ensures
            res == Ok::<bool, Error>(
                batch_accepts(
                    *vk,
                    commitments@,
                    points@,
                    values@,
                    proofs@,
                    scalar_values(randomizers@),
                ),
            ),
    {
        let n: usize = shortest(commitments.len(), points.len(), values.len(), proofs.len());
        let mut total_c = G1::zero();
        let mut total_w = G1::zero();
        // Instead of multiplying `g` and `gamma_g` in each turn, accumulate
        // their coefficients and multiply once at the end.
        let mut g_multiplier = Scalar::zero();
        let mut gamma_g_multiplier = Scalar::zero();
        let ghost factors = scalar_values(randomizers@);
        let ghost mut sum = BatchSum { c: 0, w: 0, g: 0, gamma_g: 0 };
        let mut i: usize = 0;
        assert(sum.defect(*vk) == 0) by (nonlinear_arith)
            requires
                sum == (BatchSum { c: 0, w: 0, g: 0, gamma_g: 0 }),
        ;
        while i < n
            invariant
                i <= n,
                n <= commitments@.len(),
                n <= points@.len(),
                n <= values@.len(),
                n <= proofs@.len(),
                n <= randomizers@.len(),
                factors == scalar_values(randomizers@),
                congruent(total_c@, sum.c),
                congruent(total_w@, sum.w),
                congruent(g_multiplier@, sum.g),
                congruent(gamma_g_multiplier@, sum.gamma_g),
                batch_defect(*vk, commitments@, points@, values@, proofs@, factors, i as nat)
                    == sum.defect(*vk),
            decreases n - i,
        {
            let (z, v, proof) = (points[i], values[i], proofs[i]);
            let randomizer = randomizers[i];
            let w = proof.w;
            let w_z = w.times(&z);
            let c = w_z.plus(&commitments[i].0);
            let g_part = randomizer.times(&v);
            let c_part = c.times(&randomizer);
            let w_part = w.times(&randomizer);
            let ghost rho = randomizer@;
            let ghost term = commitments@[i as int].0@ + w@ * z@;
            proof {
                assert(factors[i as int] == rho);
                lemma_reduced(w@ * z@);
                lemma_congruent_add(
                    w_z@,
                    w@ * z@,
                    commitments@[i as int].0@,
                    commitments@[i as int].0@,
                );
                lemma_reduced(w_z@ + commitments@[i as int].0@);
                lemma_reduced(c@ * rho);
                lemma_congruent_mul(c@, term, rho, rho);
                lemma_commutes(term, rho);
                lemma_reduced(w@ * rho);
                lemma_commutes(w@, rho);
                lemma_reduced(rho * v@);
                lemma_accumulate(total_c@, sum.c, c_part@, rho * term);
                lemma_accumulate(total_w@, sum.w, w_part@, rho * w@);
                lemma_accumulate(g_multiplier@, sum.g, g_part@, rho * v@);
            }
            g_multiplier = g_multiplier.plus(&g_part);
            if let Some(random_v) = proof.random_v {
                let gamma_g_part = randomizer.times(&random_v);
                proof {
                    lemma_reduced(rho * random_v@);
                    lemma_accumulate(
                        gamma_g_multiplier@,
                        sum.gamma_g,
                        gamma_g_part@,
                        rho * random_v@,
                    );
                }
                gamma_g_multiplier = gamma_g_multiplier.plus(&gamma_g_part);
            }
            total_c = total_c.plus(&c_part);
            total_w = total_w.plus(&w_part);
            proof {
                let blinding = blinding_value(proof);
                assert(proof.random_v is None ==> rho * blinding == 0) by (nonlinear_arith)
                    requires
                        proof.random_v is None ==> blinding == 0,
                ;
                lemma_batch_step(*vk, sum, rho, term, w@, v@, blinding);
                sum = sum.plus(rho, term, w@, v@, blinding);
            }
            i = i + 1;
        }
        let g_total = vk.g.times(&g_multiplier);
        let gamma_g_total = vk.gamma_g.times(&gamma_g_multiplier);
        let without_g = total_c.minus(&g_total);
        let left = without_g.minus(&gamma_g_total);
        let minus_w = total_w.negated();
        let product = product_of_pairings(&minus_w, &vk.prepared_beta_h, &left, &vk.prepared_h);
        proof {
            lemma_reduced(vk.g@ * g_multiplier@);
            lemma_congruent_mul(vk.g@, vk.g@, g_multiplier@, sum.g);
            lemma_congruent_sub(total_c@, sum.c, g_total@, vk.g@ * sum.g);
            lemma_reduced(total_c@ - g_total@);
            lemma_reduced(vk.gamma_g@ * gamma_g_multiplier@);
            lemma_congruent_mul(vk.gamma_g@, vk.gamma_g@, gamma_g_multiplier@, sum.gamma_g);
            lemma_congruent_sub(
                without_g@,
                sum.c - vk.g@ * sum.g,
                gamma_g_total@,
                vk.gamma_g@ * sum.gamma_g,
            );
            lemma_reduced(without_g@ - gamma_g_total@);
            let l = sum.c - vk.g@ * sum.g - vk.gamma_g@ * sum.gamma_g;
            assert(congruent(left@, l));
            lemma_congruent_sub(0, 0, total_w@, sum.w);
            lemma_reduced(-total_w@);
            lemma_congruent_mul(
                minus_w@,
                -sum.w,
                vk.prepared_beta_h@,
                vk.prepared_beta_h@,
            );
            lemma_congruent_mul(left@, l, vk.prepared_h@, vk.prepared_h@);
            lemma_congruent_add(
                minus_w@ * vk.prepared_beta_h@,
                (-sum.w) * vk.prepared_beta_h@,
                left@ * vk.prepared_h@,
                l * vk.prepared_h@,
            );
            assert((-sum.w) * vk.prepared_beta_h@ == -(sum.w * vk.prepared_beta_h@))
                by (nonlinear_arith);
            lemma_modulus_bounds();
            lemma_small(0);
        }
        Ok(product.is_one())
    }
}

/// The least of four numbers.
fn shortest(commitments: usize, points: usize, values: usize, proofs: usize) -> (res: usize)
    ensures
        res == batch_size(commitments as nat, points as nat, values as nat, proofs as nat),
{
    let a: usize = if commitments <= points {
        commitments
    } else {
        points
    };
    let b: usize = if values <= proofs {
        values
    } else {
        proofs
    };
    if a <= b {
        a
    } else {
        b
    }
}

/// The parts of a batch that are accumulated side by side.
ghost struct BatchSum {
    c: int,
    w: int,
    g: int,
    gamma_g: int,
}

impl BatchSum {
    /// The defect of what was accumulated.
    spec fn defect(self, vk: VerifierKey) -> int {
        (self.c - vk.g@ * self.g - vk.gamma_g@ * self.gamma_g) * vk.prepared_h@ - self.w
            * vk.prepared_beta_h@
    }

    /// One more proof, times its randomizer.
    spec fn plus(self, rho: int, c: int, w: int, value: int, blinding: int) -> BatchSum {
        BatchSum {
            c: self.c + rho * c,
            w: self.w + rho * w,
            g: self.g + rho * value,
            gamma_g: self.gamma_g + rho * blinding,
        }
    }
}

proof fn lemma_batch_step(
    vk: VerifierKey,
    sum: BatchSum,
    rho: int,
    c: int,
    w: int,
    value: int,
    blinding: int,
)
    ensures
        sum.plus(rho, c, w, value, blinding).defect(vk) == sum.defect(vk) + rho * ((c - vk.g@
            * value - vk.gamma_g@ * blinding) * vk.prepared_h@ - w * vk.prepared_beta_h@),
{
    let (g, gamma, h, bh) = (vk.g@, vk.gamma_g@, vk.prepared_h@, vk.prepared_beta_h@);
    let before = sum.c - g * sum.g - gamma * sum.gamma_g;
    let term = c - g * value - gamma * blinding;
    let next = sum.plus(rho, c, w, value, blinding);
    assert(g * (sum.g + rho * value) == g * sum.g + rho * (g * value)) by (nonlinear_arith);
    assert(gamma * (sum.gamma_g + rho * blinding) == gamma * sum.gamma_g + rho * (gamma * blinding))
        by (nonlinear_arith);
    assert(rho * term == rho * c - rho * (g * value) - rho * (gamma * blinding))
        by (nonlinear_arith)
        requires
            term == c - g * value - gamma * blinding,
    ;
    assert(next.c - g * next.g - gamma * next.gamma_g == before + rho * term);
    assert((before + rho * term) * h == before * h + rho * (term * h)) by (nonlinear_arith);
    assert((sum.w + rho * w) * bh == sum.w * bh + rho * (w * bh)) by (nonlinear_arith);
    assert(rho * (term * h - w * bh) == rho * (term * h) - rho * (w * bh)) by (nonlinear_arith);
}

proof fn lemma_commutes(a: int, b: int)
    ensures
        a * b == b * a,
{
    assert(a * b == b * a) by (nonlinear_arith);
}

proof fn lemma_accumulate(total: int, sum: int, part: int, term: int)
    requires
        congruent(total, sum),
        congruent(part, term),
    ensures
        congruent((total + part) % modulus(), sum + term),
{
    lemma_congruent_add(total, sum, part, term);
    lemma_reduced(total + part);
}

} // verus!
