//! What holds of the scheme as a whole.

use crate::bounds::ascending;
use crate::certificate::lemma_divide;
use crate::check::{
    batch_accepts, batch_defect, batch_size, blinding_value, check_equation, defect,
};
use crate::commit::{commit_outcome, commitment_value, degree_error};
use crate::data_structures::{
    Commitment, Powers, Proof, Trapdoor, UniversalParams, VerifierKey,
};
use crate::encoding::{lemma_layout_unique, FixedWidth, Layout};
use crate::error::Error;
use crate::field::Scalar;
use crate::group::{g1_values, inner_product, G1, G2};
use crate::kzg10::KZG10DegreeBoundsConfig;
use crate::modular::{
    congruent, lemma_congruent_add, lemma_congruent_mul, lemma_congruent_sub, lemma_reduced,
    lemma_small, modulus, power,
};
use crate::open::{hiding_witness, proves};
use crate::polynomial::{coefficient, degree_of, eval, lemma_witness_identity, witness};
use crate::setup::trims;
use crate::tables::{lemma_entries_unique, lists_table};
use vstd::arithmetic::power2::{lemma_pow2_strictly_increases, pow2};
use vstd::prelude::*;

verus! {

/// Elements of the first group are equal where their factors are.
pub proof fn law_factor_determines_g1(a: G1, b: G1)
    requires
        a.in_group(),
        b.in_group(),
    ensures
        a@ == b@ <==> a == b,
{
}

/// Elements of the second group are equal where their factors are.
pub proof fn law_factor_determines_g2(a: G2, b: G2)
    requires
        a.in_group(),
        b.in_group(),
    ensures
        a@ == b@ <==> a == b,
{
}

/// Whether elements are the multiples of one by the powers of a point.
pub open spec fn are_powers(elements: Seq<int>, base: int, beta: int) -> bool {
    forall|i: int|
        0 <= i < elements.len() ==> congruent(
            #[trigger] elements[i],
            base * power(beta, i as nat),
        )
}

/// Combining the powers of a point with coefficients evaluates the polynomial
/// there.
pub proof fn law_combination_is_evaluation(
    elements: Seq<int>,
    base: int,
    beta: int,
    coeffs: Seq<int>,
)
    requires
        are_powers(elements, base, beta),
        coeffs.len() <= elements.len(),
    ensures
        congruent(inner_product(elements, coeffs), base * eval(coeffs, beta)),
    decreases coeffs.len(),
{
    if coeffs.len() == 0 {
        assert(base * 0 == 0);
    } else {
        let (e1, c1) = (elements.drop_first(), coeffs.drop_first());
        let (e, c, rest) = (elements[0], coeffs[0], eval(c1, beta));
        assert forall|i: int| 0 <= i < e1.len() implies congruent(
            #[trigger] e1[i],
            (base * beta) * power(beta, i as nat),
        ) by {
            let p = power(beta, i as nat);
            assert(e1[i] == elements[i + 1]);
            assert(power(beta, (i + 1) as nat) == beta * p);
            assert(base * (beta * p) == (base * beta) * p) by (nonlinear_arith);
        }
        law_combination_is_evaluation(e1, base * beta, beta, c1);
        assert(power(beta, 0) == 1);
        assert(congruent(e, base)) by {
            assert(congruent(elements[0], base * power(beta, 0)));
            assert(base * 1 == base);
        }
        lemma_congruent_mul(e, base, c, c);
        lemma_congruent_add(
            e * c,
            base * c,
            inner_product(e1, c1),
            (base * beta) * rest,
        );
        assert(base * c + (base * beta) * rest == base * (c + beta * rest)) by (nonlinear_arith);
    }
}

/// What parameters, keys, a commitment and a proof stand for, in terms of the
/// trapdoor.
proof fn lemma_key_is_powers(
    pp: UniversalParams,
    max_degree: nat,
    config: KZG10DegreeBoundsConfig,
    produce_g2_powers: bool,
    trapdoor: Trapdoor,
    degree: nat,
    powers: Powers,
    vk: VerifierKey,
)
    requires
        max_degree + 2 <= usize::MAX,
        pp.derived_from(max_degree, config, produce_g2_powers, trapdoor),
        degree <= max_degree,
        trims(pp, degree, powers, vk),
    ensures
        powers.powers_of_g@.len() == degree + 1,
        powers.powers_of_gamma_g@.len() == degree + 1,
        are_powers(g1_values(powers.powers_of_g@), trapdoor.g@, trapdoor.beta@),
        are_powers(g1_values(powers.powers_of_gamma_g@), trapdoor.gamma_g@, trapdoor.beta@),
        congruent(vk.g@, trapdoor.g@),
        congruent(vk.gamma_g@, trapdoor.gamma_g@),
        vk.h == trapdoor.h,
        congruent(vk.beta_h@, trapdoor.h@ * trapdoor.beta@),
        vk.prepared_h@ == vk.h@,
        vk.prepared_beta_h@ == vk.beta_h@,
{
    let beta = trapdoor.beta@;
    let (g, gamma) = (trapdoor.g@, trapdoor.gamma_g@);
    let (gs, gammas) = (g1_values(powers.powers_of_g@), g1_values(powers.powers_of_gamma_g@));
    assert forall|i: int| 0 <= i < gs.len() implies congruent(
        #[trigger] gs[i],
        g * power(beta, i as nat),
    ) by {
        assert(gs[i] == pp.powers_of_g@[i]@);
        lemma_reduced(g * power(beta, i as nat));
    }
    assert forall|i: int| 0 <= i < gammas.len() implies congruent(
        #[trigger] gammas[i],
        gamma * power(beta, i as nat),
    ) by {
        assert(gammas[i] == powers.powers_of_gamma_g@[i]@);
        assert(pp.powers_of_gamma_g@[i as usize]@ == (gamma * power(beta, i as nat)) % modulus());
        lemma_reduced(gamma * power(beta, i as nat));
    }
    assert(power(beta, 0) == 1);
    assert(congruent(vk.g@, g)) by {
        assert(pp.powers_of_g@[0]@ == (g * power(beta, 0)) % modulus());
        assert(g * 1 == g);
        lemma_reduced(g);
    }
    assert(congruent(vk.gamma_g@, gamma)) by {
        assert(pp.powers_of_gamma_g@[0usize]@ == (gamma * power(beta, 0)) % modulus());
        assert(gamma * 1 == gamma);
        lemma_reduced(gamma);
    }
    lemma_reduced(trapdoor.h@ * beta);
}

/// The proof that opening a commitment gives is accepted for the value of the
/// polynomial at that point.
pub proof fn law_opening_is_accepted(
    max_degree: nat,
    config: KZG10DegreeBoundsConfig,
    produce_g2_powers: bool,
    trapdoor: Trapdoor,
    pp: UniversalParams,
    degree: nat,
    powers: Powers,
    vk: VerifierKey,
    p: Seq<int>,
    hiding_bound: Option<usize>,
    terminated_early: bool,
    draw: Option<Seq<int>>,
    terminated_late: bool,
    r: Seq<int>,
    commitment: Commitment,
    point: int,
    value: int,
    proof: Proof,
)
    requires
        max_degree + 2 <= usize::MAX,
        pp.derived_from(max_degree, config, produce_g2_powers, trapdoor),
        degree <= max_degree,
        trims(pp, degree, powers, vk),
        commit_outcome(powers, p, hiding_bound, terminated_early, draw, terminated_late) == Ok::<
            (int, Seq<int>),
            Error,
        >((commitment.0@, r)),
        proves(proof, powers, point, r, witness(p, point), hiding_witness(r, point)),
        congruent(value, eval(p, point)),
    ensures
        check_equation(vk, commitment.0@, point, value, proof),
{
    lemma_key_is_powers(
        pp,
        max_degree,
        config,
        produce_g2_powers,
        trapdoor,
        degree,
        powers,
        vk,
    );
    let (g, gamma, h, beta) = (trapdoor.g@, trapdoor.gamma_g@, trapdoor.h@, trapdoor.beta@);
    let (gs, gammas) = (g1_values(powers.powers_of_g@), g1_values(powers.powers_of_gamma_g@));
    let w = witness(p, point);
    let s = witness(r, point);

    // What the commitment and the proof are multiples of.
    law_combination_is_evaluation(gs, g, beta, p);
    law_combination_is_evaluation(gs, g, beta, w);
    law_combination_is_evaluation(gammas, gamma, beta, r);
    law_combination_is_evaluation(gammas, gamma, beta, s);
    let (p_beta, w_beta, r_beta, s_beta) = (eval(p, beta), eval(w, beta), eval(r, beta), eval(s, beta));
    let (p_z, r_z) = (eval(p, point), eval(r, point));
    lemma_congruent_add(inner_product(gs, p), g * p_beta, inner_product(gammas, r), gamma * r_beta);
    lemma_reduced(inner_product(gs, p) + inner_product(gammas, r));
    assert(congruent(commitment.0@, g * p_beta + gamma * r_beta));
    lemma_congruent_add(inner_product(gs, w), g * w_beta, inner_product(gammas, s), gamma * s_beta);
    assert(congruent(proof.w@, g * w_beta + gamma * s_beta)) by {
        if r.len() == 0 {
            assert(s =~= Seq::<int>::empty());
            assert(gamma * 0 == 0);
            lemma_reduced(inner_product(gs, w));
        } else {
            lemma_reduced(inner_product(gs, w) + inner_product(gammas, s));
        }
    }
    assert(congruent(blinding_value(proof), r_z)) by {
        if r.len() > 0 {
            lemma_reduced(r_z);
        }
    }

    // The left-hand side.
    lemma_congruent_mul(vk.g@, g, value, p_z);
    lemma_congruent_mul(vk.gamma_g@, gamma, blinding_value(proof), r_z);
    lemma_congruent_sub(commitment.0@, g * p_beta + gamma * r_beta, vk.g@ * value, g * p_z);
    lemma_congruent_sub(
        commitment.0@ - vk.g@ * value,
        g * p_beta + gamma * r_beta - g * p_z,
        vk.gamma_g@ * blinding_value(proof),
        gamma * r_z,
    );
    let left = g * p_beta + gamma * r_beta - g * p_z - gamma * r_z;
    lemma_congruent_mul(
        commitment.0@ - vk.g@ * value - vk.gamma_g@ * blinding_value(proof),
        left,
        vk.h@,
        h,
    );

    // The witnesses.
    lemma_witness_identity(p, point, beta);
    lemma_witness_identity(r, point, beta);
    let distance = beta - point;
    lemma_congruent_mul(g, g, p_beta, w_beta * distance + p_z);
    lemma_congruent_mul(gamma, gamma, r_beta, s_beta * distance + r_z);
    lemma_congruent_add(
        g * p_beta,
        g * (w_beta * distance + p_z),
        gamma * r_beta,
        gamma * (s_beta * distance + r_z),
    );
    lemma_congruent_sub(
        g * p_beta + gamma * r_beta,
        g * (w_beta * distance + p_z) + gamma * (s_beta * distance + r_z),
        g * p_z + gamma * r_z,
        g * p_z + gamma * r_z,
    );
    let middle = (g * w_beta + gamma * s_beta) * distance;
    assert(g * (w_beta * distance + p_z) + gamma * (s_beta * distance + r_z) - (g * p_z + gamma
        * r_z) == middle) by (nonlinear_arith)
        requires
            middle == (g * w_beta + gamma * s_beta) * distance,
    ;
    assert(congruent(left, middle));
    lemma_congruent_mul(left, middle, h, h);

    // The right-hand side.
    lemma_congruent_sub(vk.beta_h@, h * beta, vk.h@ * point, h * point);
    lemma_congruent_mul(
        proof.w@,
        g * w_beta + gamma * s_beta,
        vk.beta_h@ - vk.h@ * point,
        h * beta - h * point,
    );
    let sum = g * w_beta + gamma * s_beta;
    assert(sum * distance * h == sum * (h * beta - h * point)) by (nonlinear_arith)
        requires
            distance == beta - point,
    ;
}

/// One proof is not accepted for two values, where the bases of the key are not
/// neutral: values for which the same proof is accepted are the same.
pub proof fn law_value_is_unique(
    vk: VerifierKey,
    commitment: int,
    point: int,
    value1: int,
    value2: int,
    proof: Proof,
)
    requires
        vk.g.in_group(),
        vk.h.in_group(),
        vk.g@ != 0,
        vk.h@ != 0,
        check_equation(vk, commitment, point, value1, proof),
        check_equation(vk, commitment, point, value2, proof),
    ensures
        congruent(value1, value2),
{
    let (g, h, b) = (vk.g@, vk.h@, vk.gamma_g@ * blinding_value(proof));
    let left1 = (commitment - g * value1 - b) * h;
    let left2 = (commitment - g * value2 - b) * h;
    lemma_congruent_sub(left2, left1, left1, left1);
    assert(left2 - left1 == g * (h * (value1 - value2))) by (nonlinear_arith)
        requires
            left1 == (commitment - g * value1 - b) * h,
            left2 == (commitment - g * value2 - b) * h,
    ;
    lemma_small(g);
    lemma_small(h);
    lemma_divide(g, h * (value1 - value2));
    lemma_divide(h, value1 - value2);
    lemma_congruent_add(value1 - value2, 0, value2, value2);
}

/// The proof that opening a commitment gives is accepted for the value of the
/// polynomial at that point and for no other, where the bases of the parameters
/// are not neutral.
pub proof fn law_check_tells_the_value(
    max_degree: nat,
    config: KZG10DegreeBoundsConfig,
    produce_g2_powers: bool,
    trapdoor: Trapdoor,
    pp: UniversalParams,
    degree: nat,
    powers: Powers,
    vk: VerifierKey,
    p: Seq<int>,
    hiding_bound: Option<usize>,
    terminated_early: bool,
    draw: Option<Seq<int>>,
    terminated_late: bool,
    r: Seq<int>,
    commitment: Commitment,
    point: int,
    value: int,
    proof: Proof,
)
    requires
        max_degree + 2 <= usize::MAX,
        trapdoor.g.in_group(),
        trapdoor.h.in_group(),
        trapdoor.g@ != 0,
        trapdoor.h@ != 0,
        vk.g.in_group(),
        pp.derived_from(max_degree, config, produce_g2_powers, trapdoor),
        degree <= max_degree,
        trims(pp, degree, powers, vk),
        commit_outcome(powers, p, hiding_bound, terminated_early, draw, terminated_late) == Ok::<
            (int, Seq<int>),
            Error,
        >((commitment.0@, r)),
        proves(proof, powers, point, r, witness(p, point), hiding_witness(r, point)),
    ensures
        check_equation(vk, commitment.0@, point, value, proof) <==> congruent(
            value,
            eval(p, point),
        ),
{
    law_opening_is_accepted(
        max_degree,
        config,
        produce_g2_powers,
        trapdoor,
        pp,
        degree,
        powers,
        vk,
        p,
        hiding_bound,
        terminated_early,
        draw,
        terminated_late,
        r,
        commitment,
        point,
        eval(p, point),
        proof,
    );
    lemma_key_is_powers(
        pp,
        max_degree,
        config,
        produce_g2_powers,
        trapdoor,
        degree,
        powers,
        vk,
    );
    lemma_small(trapdoor.g@);
    lemma_small(0);
    if check_equation(vk, commitment.0@, point, value, proof) {
        law_value_is_unique(vk, commitment.0@, point, value, eval(p, point), proof);
    }
    if congruent(value, eval(p, point)) {
        law_opening_is_accepted(
            max_degree,
            config,
            produce_g2_powers,
            trapdoor,
            pp,
            degree,
            powers,
            vk,
            p,
            hiding_bound,
            terminated_early,
            draw,
            terminated_late,
            r,
            commitment,
            point,
            value,
            proof,
        );
    }
}

/// Whether one polynomial is the combination of two others by given factors.
pub open spec fn is_combination_of(
    s: Seq<int>,
    a: int,
    p: Seq<int>,
    b: int,
    q: Seq<int>,
) -> bool {
    forall|i: int|
        congruent(#[trigger] coefficient(s, i), a * coefficient(p, i) + b * coefficient(q, i))
}

/// Commitments can be combined as their polynomials can: the commitment to a
/// combination of two polynomials, blinded by the same combination of their
/// blinding polynomials, is that combination of their commitments.
pub proof fn law_commitment_is_linear(
    powers: Powers,
    a: int,
    p: Seq<int>,
    p_blinding: Seq<int>,
    b: int,
    q: Seq<int>,
    q_blinding: Seq<int>,
    s: Seq<int>,
    s_blinding: Seq<int>,
)
    requires
        is_combination_of(s, a, p, b, q),
        is_combination_of(s_blinding, a, p_blinding, b, q_blinding),
    ensures
        congruent(
            commitment_value(powers, s, s_blinding),
            a * commitment_value(powers, p, p_blinding) + b * commitment_value(
                powers,
                q,
                q_blinding,
            ),
        ),
{
    let (gs, gammas) = (g1_values(powers.powers_of_g@), g1_values(powers.powers_of_gamma_g@));
    lemma_inner_product_linear(gs, s, a, p, b, q);
    lemma_inner_product_linear(gammas, s_blinding, a, p_blinding, b, q_blinding);
    let (s1, s2) = (inner_product(gs, s), inner_product(gammas, s_blinding));
    let (p1, p2) = (inner_product(gs, p), inner_product(gammas, p_blinding));
    let (q1, q2) = (inner_product(gs, q), inner_product(gammas, q_blinding));
    lemma_congruent_add(s1, a * p1 + b * q1, s2, a * p2 + b * q2);
    lemma_reduced(s1 + s2);
    lemma_reduced(p1 + p2);
    lemma_reduced(q1 + q2);
    lemma_congruent_mul(a, a, (p1 + p2) % modulus(), p1 + p2);
    lemma_congruent_mul(b, b, (q1 + q2) % modulus(), q1 + q2);
    lemma_congruent_add(
        a * ((p1 + p2) % modulus()),
        a * (p1 + p2),
        b * ((q1 + q2) % modulus()),
        b * (q1 + q2),
    );
    assert(a * p1 + b * q1 + (a * p2 + b * q2) == a * (p1 + p2) + b * (q1 + q2))
        by (nonlinear_arith);
}

/// The coefficients after the constant one.
spec fn tail(p: Seq<int>) -> Seq<int> {
    if p.len() == 0 {
        p
    } else {
        p.drop_first()
    }
}

proof fn lemma_inner_product_linear(
    elements: Seq<int>,
    s: Seq<int>,
    a: int,
    p: Seq<int>,
    b: int,
    q: Seq<int>,
)
    requires
        is_combination_of(s, a, p, b, q),
    ensures
        congruent(
            inner_product(elements, s),
            a * inner_product(elements, p) + b * inner_product(elements, q),
        ),
    decreases elements.len(),
{
    if elements.len() == 0 {
        assert(a * 0 + b * 0 == 0) by (nonlinear_arith);
    } else {
        let rest = elements.drop_first();
        let (s1, p1, q1) = (tail(s), tail(p), tail(q));
        assert forall|i: int| congruent(
            #[trigger] coefficient(s1, i),
            a * coefficient(p1, i) + b * coefficient(q1, i),
        ) by {
            if i >= 0 {
                assert(coefficient(s1, i) == coefficient(s, i + 1));
                assert(coefficient(p1, i) == coefficient(p, i + 1));
                assert(coefficient(q1, i) == coefficient(q, i + 1));
            } else {
                assert(a * 0 + b * 0 == 0) by (nonlinear_arith);
            }
        }
        lemma_inner_product_linear(rest, s1, a, p1, b, q1);
        lemma_inner_product_split(elements, s);
        lemma_inner_product_split(elements, p);
        lemma_inner_product_split(elements, q);
        let e = elements[0];
        let (s0, p0, q0) = (coefficient(s, 0), coefficient(p, 0), coefficient(q, 0));
        let (sr, pr, qr) = (
            inner_product(rest, s1),
            inner_product(rest, p1),
            inner_product(rest, q1),
        );
        lemma_congruent_mul(e, e, s0, a * p0 + b * q0);
        lemma_congruent_add(e * s0, e * (a * p0 + b * q0), sr, a * pr + b * qr);
        assert(e * (a * p0 + b * q0) == a * (e * p0) + b * (e * q0)) by (nonlinear_arith);
        assert(a * (e * p0 + pr) == a * (e * p0) + a * pr) by (nonlinear_arith);
        assert(b * (e * q0 + qr) == b * (e * q0) + b * qr) by (nonlinear_arith);
    }
}

proof fn lemma_inner_product_split(elements: Seq<int>, p: Seq<int>)
    requires
        elements.len() > 0,
    ensures
        inner_product(elements, p) == elements[0] * coefficient(p, 0) + inner_product(
            elements.drop_first(),
            tail(p),
        ),
{
    if p.len() == 0 {
        assert(elements[0] * 0 == 0);
    }
}

/// Whether a key holds its own elements in prepared form.
pub open spec fn is_prepared(vk: VerifierKey) -> bool {
    vk.prepared_h@ == vk.h@ && vk.prepared_beta_h@ == vk.beta_h@
}

/// A proof is accepted where its defect vanishes.
proof fn lemma_defect(vk: VerifierKey, commitment: int, point: int, value: int, proof: Proof)
    requires
        is_prepared(vk),
    ensures
        check_equation(vk, commitment, point, value, proof) <==> congruent(
            defect(vk, commitment, point, value, proof),
            0,
        ),
{
    let (w, h, bh) = (proof.w@, vk.h@, vk.beta_h@);
    let inner = commitment - vk.g@ * value - vk.gamma_g@ * blinding_value(proof);
    let (left, right) = (inner * h, w * (bh - h * point));
    assert(left - right == (inner + w * point) * h - w * bh) by (nonlinear_arith)
        requires
            left == inner * h,
            right == w * (bh - h * point),
    ;
    assert(left - right == defect(vk, commitment, point, value, proof));
    if congruent(left, right) {
        lemma_congruent_sub(left, right, right, right);
    }
    if congruent(left - right, 0) {
        lemma_congruent_add(left - right, 0, right, right);
    }
}

/// A batch of proofs each of which is accepted is accepted, whatever the
/// random factors are.
pub proof fn law_batch_of_valid_proofs_is_accepted(
    vk: VerifierKey,
    commitments: Seq<Commitment>,
    points: Seq<Scalar>,
    values: Seq<Scalar>,
    proofs: Seq<Proof>,
    randomizers: Seq<int>,
)
    requires
        is_prepared(vk),
        forall|i: int|
            0 <= i < batch_size(commitments.len(), points.len(), values.len(), proofs.len())
                ==> check_equation(
                vk,
                commitments[i].0@,
                points[i]@,
                values[i]@,
                #[trigger] proofs[i],
            ),
    ensures
        batch_accepts(vk, commitments, points, values, proofs, randomizers),
{
    lemma_valid_batch(
        vk,
        commitments,
        points,
        values,
        proofs,
        randomizers,
        batch_size(commitments.len(), points.len(), values.len(), proofs.len()),
    );
}

proof fn lemma_valid_batch(
    vk: VerifierKey,
    commitments: Seq<Commitment>,
    points: Seq<Scalar>,
    values: Seq<Scalar>,
    proofs: Seq<Proof>,
    randomizers: Seq<int>,
    n: nat,
)
    requires
        is_prepared(vk),
        forall|i: int|
            0 <= i < n ==> check_equation(
                vk,
                commitments[i].0@,
                points[i]@,
                values[i]@,
                #[trigger] proofs[i],
            ),
    ensures
        congruent(batch_defect(vk, commitments, points, values, proofs, randomizers, n), 0),
    decreases n,
{
    if n > 0 {
        let i = n - 1;
        lemma_valid_batch(vk, commitments, points, values, proofs, randomizers, i as nat);
        let d = defect(vk, commitments[i].0@, points[i]@, values[i]@, proofs[i]);
        assert(check_equation(vk, commitments[i].0@, points[i]@, values[i]@, proofs[i]));
        lemma_defect(vk, commitments[i].0@, points[i]@, values[i]@, proofs[i]);
        lemma_congruent_mul(randomizers[i], randomizers[i], d, 0);
        assert(randomizers[i] * 0 == 0);
        lemma_congruent_add(
            batch_defect(vk, commitments, points, values, proofs, randomizers, i as nat),
            0,
            randomizers[i] * d,
            0,
        );
    }
}

/// A batch of one proof is accepted exactly where the proof is.
pub proof fn law_batch_of_one_is_a_check(
    vk: VerifierKey,
    commitment: Commitment,
    point: Scalar,
    value: Scalar,
    proof: Proof,
    randomizers: Seq<int>,
)
    requires
        is_prepared(vk),
        randomizers.len() > 0,
        randomizers[0] == 1,
    ensures
        batch_accepts(vk, seq![commitment], seq![point], seq![value], seq![proof], randomizers)
            <==> check_equation(vk, commitment.0@, point@, value@, proof),
{
    lemma_defect(vk, commitment.0@, point@, value@, proof);
    let d = defect(vk, commitment.0@, point@, value@, proof);
    let (cs, zs, vs, ps) = (seq![commitment], seq![point], seq![value], seq![proof]);
    assert(batch_defect(vk, cs, zs, vs, ps, randomizers, 0) == 0);
    assert(batch_defect(vk, cs, zs, vs, ps, randomizers, 1) == 0 + randomizers[0] * d);
}

/// A proof that is not accepted spoils its batch, whatever the others are: of
/// two batches that differ in its random factor alone, at most one is accepted.
pub proof fn law_batch_isolates_a_bad_proof(
    vk: VerifierKey,
    commitments: Seq<Commitment>,
    points: Seq<Scalar>,
    values: Seq<Scalar>,
    proofs: Seq<Proof>,
    randomizers1: Seq<int>,
    randomizers2: Seq<int>,
    i: int,
)
    requires
        is_prepared(vk),
        0 <= i < batch_size(commitments.len(), points.len(), values.len(), proofs.len()),
        forall|j: int|
            0 <= j < batch_size(commitments.len(), points.len(), values.len(), proofs.len()) && j
                != i ==> #[trigger] randomizers1[j] == randomizers2[j],
        (randomizers1[i] - randomizers2[i]) % modulus() != 0,
        !check_equation(vk, commitments[i].0@, points[i]@, values[i]@, proofs[i]),
    ensures
        !(batch_accepts(vk, commitments, points, values, proofs, randomizers1) && batch_accepts(
            vk,
            commitments,
            points,
            values,
            proofs,
            randomizers2,
        )),
{
    let n = batch_size(commitments.len(), points.len(), values.len(), proofs.len());
    let d = defect(vk, commitments[i].0@, points[i]@, values[i]@, proofs[i]);
    if batch_accepts(vk, commitments, points, values, proofs, randomizers1) && batch_accepts(
        vk,
        commitments,
        points,
        values,
        proofs,
        randomizers2,
    ) {
        lemma_batch_difference(
            vk,
            commitments,
            points,
            values,
            proofs,
            randomizers1,
            randomizers2,
            i,
            n,
        );
        lemma_congruent_sub(
            batch_defect(vk, commitments, points, values, proofs, randomizers1, n),
            0,
            batch_defect(vk, commitments, points, values, proofs, randomizers2, n),
            0,
        );
        lemma_divide(randomizers1[i] - randomizers2[i], d);
        lemma_defect(vk, commitments[i].0@, points[i]@, values[i]@, proofs[i]);
    }
}

proof fn lemma_batch_difference(
    vk: VerifierKey,
    commitments: Seq<Commitment>,
    points: Seq<Scalar>,
    values: Seq<Scalar>,
    proofs: Seq<Proof>,
    randomizers1: Seq<int>,
    randomizers2: Seq<int>,
    i: int,
    n: nat,
)
    requires
        0 <= i,
        forall|j: int| 0 <= j < n && j != i ==> #[trigger] randomizers1[j] == randomizers2[j],
    ensures
        batch_defect(vk, commitments, points, values, proofs, randomizers1, n) - batch_defect(
            vk,
            commitments,
            points,
            values,
            proofs,
            randomizers2,
            n,
        ) == if i < n {
            (randomizers1[i] - randomizers2[i]) * defect(
                vk,
                commitments[i].0@,
                points[i]@,
                values[i]@,
                proofs[i],
            )
        } else {
            0
        },
    decreases n,
{
    if n > 0 {
        let k = n - 1;
        lemma_batch_difference(
            vk,
            commitments,
            points,
            values,
            proofs,
            randomizers1,
            randomizers2,
            i,
            k as nat,
        );
        let d = defect(vk, commitments[k].0@, points[k]@, values[k]@, proofs[k]);
        let (a, b) = (randomizers1[k], randomizers2[k]);
        assert(a * d - b * d == (a - b) * d) by (nonlinear_arith);
    }
}

/// A batch with exactly one proof that is not accepted is rejected, unless the
/// random factor of that proof is zero.
pub proof fn law_one_bad_proof_spoils_a_batch(
    vk: VerifierKey,
    commitments: Seq<Commitment>,
    points: Seq<Scalar>,
    values: Seq<Scalar>,
    proofs: Seq<Proof>,
    randomizers: Seq<int>,
    i: int,
)
    requires
        is_prepared(vk),
        0 <= i < batch_size(commitments.len(), points.len(), values.len(), proofs.len()),
        forall|j: int|
            0 <= j < batch_size(commitments.len(), points.len(), values.len(), proofs.len()) && j
                != i ==> check_equation(
                vk,
                commitments[j].0@,
                points[j]@,
                values[j]@,
                #[trigger] proofs[j],
            ),
        !check_equation(vk, commitments[i].0@, points[i]@, values[i]@, proofs[i]),
        randomizers[i] % modulus() != 0,
    ensures
        !batch_accepts(vk, commitments, points, values, proofs, randomizers),
{
    let n = batch_size(commitments.len(), points.len(), values.len(), proofs.len());
    let d = defect(vk, commitments[i].0@, points[i]@, values[i]@, proofs[i]);
    lemma_batch_but_one(vk, commitments, points, values, proofs, randomizers, i, n);
    if batch_accepts(vk, commitments, points, values, proofs, randomizers) {
        lemma_divide(randomizers[i], d);
        lemma_defect(vk, commitments[i].0@, points[i]@, values[i]@, proofs[i]);
    }
}

proof fn lemma_batch_but_one(
    vk: VerifierKey,
    commitments: Seq<Commitment>,
    points: Seq<Scalar>,
    values: Seq<Scalar>,
    proofs: Seq<Proof>,
    randomizers: Seq<int>,
    i: int,
    n: nat,
)
    requires
        is_prepared(vk),
        0 <= i,
        forall|j: int|
            0 <= j < n && j != i ==> check_equation(
                vk,
                commitments[j].0@,
                points[j]@,
                values[j]@,
                #[trigger] proofs[j],
            ),
    ensures
        congruent(
            batch_defect(vk, commitments, points, values, proofs, randomizers, n),
            if i < n {
                randomizers[i] * defect(
                    vk,
                    commitments[i].0@,
                    points[i]@,
                    values[i]@,
                    proofs[i],
                )
            } else {
                0
            },
        ),
    decreases n,
{
    if n > 0 {
        let k = n - 1;
        lemma_batch_but_one(vk, commitments, points, values, proofs, randomizers, i, k as nat);
        let d = defect(vk, commitments[k].0@, points[k]@, values[k]@, proofs[k]);
        let before = batch_defect(vk, commitments, points, values, proofs, randomizers, k as nat);
        if k == i {
            lemma_congruent_add(before, 0, randomizers[k] * d, randomizers[k] * d);
        } else {
            assert(check_equation(vk, commitments[k].0@, points[k]@, values[k]@, proofs[k]));
            lemma_defect(vk, commitments[k].0@, points[k]@, values[k]@, proofs[k]);
            lemma_congruent_mul(randomizers[k], randomizers[k], d, 0);
            assert(randomizers[k] * 0 == 0);
            let so_far = if i < k {
                randomizers[i] * defect(
                    vk,
                    commitments[i].0@,
                    points[i]@,
                    values[i]@,
                    proofs[i],
                )
            } else {
                0
            };
            lemma_congruent_add(before, so_far, randomizers[k] * d, 0);
        }
    }
}

/// A batch ends with the shortest list: what the others hold beyond it is
/// ignored, and so are factors beyond it. A batch of nothing is accepted.
pub proof fn law_batch_ignores_surplus(
    vk: VerifierKey,
    commitments: Seq<Commitment>,
    points: Seq<Scalar>,
    values: Seq<Scalar>,
    proofs: Seq<Proof>,
    randomizers: Seq<int>,
    n: nat,
)
    requires
        n == batch_size(commitments.len(), points.len(), values.len(), proofs.len()),
        randomizers.len() >= n,
    ensures
        batch_accepts(vk, commitments, points, values, proofs, randomizers) <==> batch_accepts(
            vk,
            commitments.take(n as int),
            points.take(n as int),
            values.take(n as int),
            proofs.take(n as int),
            randomizers.take(n as int),
        ),
        n == 0 ==> batch_accepts(vk, commitments, points, values, proofs, randomizers),
{
    lemma_batch_prefix(vk, commitments, points, values, proofs, randomizers, n as int, n);
}

proof fn lemma_batch_prefix(
    vk: VerifierKey,
    commitments: Seq<Commitment>,
    points: Seq<Scalar>,
    values: Seq<Scalar>,
    proofs: Seq<Proof>,
    randomizers: Seq<int>,
    n: int,
    k: nat,
)
    requires
        k <= n <= commitments.len(),
        n <= points.len(),
        n <= values.len(),
        n <= proofs.len(),
        n <= randomizers.len(),
    ensures
        batch_defect(vk, commitments, points, values, proofs, randomizers, k) == batch_defect(
            vk,
            commitments.take(n),
            points.take(n),
            values.take(n),
            proofs.take(n),
            randomizers.take(n),
            k,
        ),
    decreases k,
{
    if k > 0 {
        lemma_batch_prefix(
            vk,
            commitments,
            points,
            values,
            proofs,
            randomizers,
            n,
            (k - 1) as nat,
        );
    }
}

/// Parameters of one trapdoor agree in everything but what the degree bounds
/// ask for, whatever configuration they were made with, and those for a smaller
/// degree hold the first powers of those for a larger one.
pub proof fn law_parameters_agree(
    max_degree1: nat,
    config1: KZG10DegreeBoundsConfig,
    produce_g2_powers1: bool,
    pp1: UniversalParams,
    max_degree2: nat,
    config2: KZG10DegreeBoundsConfig,
    produce_g2_powers2: bool,
    pp2: UniversalParams,
    trapdoor: Trapdoor,
)
    requires
        max_degree1 <= max_degree2,
        max_degree2 + 2 <= usize::MAX,
        pp1.is_valid(),
        pp2.is_valid(),
        pp1.prepared_h.in_group(),
        pp1.prepared_beta_h.in_group(),
        pp2.prepared_h.in_group(),
        pp2.prepared_beta_h.in_group(),
        pp1.derived_from(max_degree1, config1, produce_g2_powers1, trapdoor),
        pp2.derived_from(max_degree2, config2, produce_g2_powers2, trapdoor),
    ensures
        pp1.powers_of_g@ == pp2.powers_of_g@.take(max_degree1 + 1int),
        forall|i: usize|
            i <= max_degree1 + 1 ==> #[trigger] pp1.powers_of_gamma_g@[i]
                == pp2.powers_of_gamma_g@[i],
        max_degree1 == max_degree2 ==> pp1.powers_of_g@ == pp2.powers_of_g@
            && pp1.powers_of_gamma_g@ == pp2.powers_of_gamma_g@,
        pp1.h == pp2.h,
        pp1.beta_h == pp2.beta_h,
        pp1.prepared_h.serialized() == pp2.prepared_h.serialized(),
        pp1.prepared_beta_h.serialized() == pp2.prepared_beta_h.serialized(),
{
    let shorter = pp2.powers_of_g@.take(max_degree1 + 1int);
    assert forall|i: int| 0 <= i < pp1.powers_of_g@.len() implies pp1.powers_of_g@[i]
        == shorter[i] by {
        assert(pp1.powers_of_g@[i].is_valid());
        assert(pp2.powers_of_g@[i].is_valid());
        law_factor_determines_g1(pp1.powers_of_g@[i], pp2.powers_of_g@[i]);
    }
    assert(pp1.powers_of_g@ =~= shorter);
    assert forall|i: usize| i <= max_degree1 + 1 implies #[trigger] pp1.powers_of_gamma_g@[i]
        == pp2.powers_of_gamma_g@[i] by {
        assert(pp1.powers_of_gamma_g@.contains_key(i));
        assert(pp2.powers_of_gamma_g@.contains_key(i));
        law_factor_determines_g1(pp1.powers_of_gamma_g@[i], pp2.powers_of_gamma_g@[i]);
    }
    if max_degree1 == max_degree2 {
        assert(pp1.powers_of_g@ =~= pp2.powers_of_g@);
        assert forall|i: usize|
            pp1.powers_of_gamma_g@.contains_key(i) <==> pp2.powers_of_gamma_g@.contains_key(i) by {
            assert(pp1.powers_of_gamma_g@.contains_key(i) <==> i <= max_degree1 + 1);
            assert(pp2.powers_of_gamma_g@.contains_key(i) <==> i <= max_degree2 + 1);
        }
        assert(pp1.powers_of_gamma_g@ =~= pp2.powers_of_gamma_g@);
    }
    law_factor_determines_g2(pp1.beta_h, pp2.beta_h);
}

/// The keys that parameters are cut down to hold their elements in prepared
/// form, and take exactly the polynomials up to their degree.
pub proof fn law_trimmed_keys(
    max_degree: nat,
    config: KZG10DegreeBoundsConfig,
    produce_g2_powers: bool,
    trapdoor: Trapdoor,
    pp: UniversalParams,
    degree: nat,
    powers: Powers,
    vk: VerifierKey,
    p: Seq<int>,
)
    requires
        max_degree + 2 <= usize::MAX,
        pp.derived_from(max_degree, config, produce_g2_powers, trapdoor),
        degree <= max_degree,
        trims(pp, degree, powers, vk),
    ensures
        is_prepared(vk),
        degree_error(degree_of(p), powers.powers_of_g@.len()) is Some <==> degree_of(p) > degree,
{
    lemma_key_is_powers(
        pp,
        max_degree,
        config,
        produce_g2_powers,
        trapdoor,
        degree,
        powers,
        vk,
    );
}

/// The two powers that belong to a degree bound undo each other: their pairing
/// is that of the bases.
pub proof fn law_shifts_cancel(
    max_degree: nat,
    config: KZG10DegreeBoundsConfig,
    trapdoor: Trapdoor,
    pp: UniversalParams,
    bound: usize,
)
    requires
        pp.derived_from(max_degree, config, true, trapdoor),
        pp.supported_degree_bounds@.contains(bound),
        bound <= max_degree,
    ensures
        congruent(
            pp.inverse_powers_of_g@[bound]@ * pp.inverse_neg_powers_of_h@[bound]@,
            trapdoor.g@ * trapdoor.h@,
        ),
{
    let shift = power(trapdoor.beta@, (max_degree - bound) as nat);
    let (up, down) = (pp.inverse_powers_of_g@[bound], pp.inverse_neg_powers_of_h@[bound]);
    assert(up == pp.powers_of_g@[max_degree - bound]);
    assert(up@ == (trapdoor.g@ * shift) % modulus());
    lemma_reduced(trapdoor.g@ * shift);
    lemma_congruent_mul(up@, trapdoor.g@ * shift, down@, down@);
    lemma_congruent_mul(trapdoor.g@, trapdoor.g@, down@ * shift, trapdoor.h@);
    assert((trapdoor.g@ * shift) * down@ == trapdoor.g@ * (down@ * shift)) by (nonlinear_arith);
}

/// The bounds that a configuration works out itself are in ascending order and
/// lie within the maximum degree.
pub proof fn law_computed_bounds_are_ascending(
    config: KZG10DegreeBoundsConfig,
    max_degree: nat,
    list: Seq<usize>,
)
    requires
        config.lists(max_degree, list),
        !(config is LIST),
    ensures
        ascending(list),
        forall|i: int| 0 <= i < list.len() ==> #[trigger] list[i] <= max_degree,
{
    if config is MARLIN {
        assert forall|i: int, j: int| 0 <= i <= j < list.len() implies list[i] <= list[j] by {
            assert(list[i] == pow2((i + 1) as nat) - 2);
            assert(list[j] == pow2((j + 1) as nat) - 2);
            if i < j {
                lemma_pow2_strictly_increases((i + 1) as nat, (j + 1) as nat);
            }
        }
    }
}

/// Whether two sets of parameters agree in everything but the prepared forms.
pub open spec fn same_params(a: UniversalParams, b: UniversalParams) -> bool {
    &&& a.powers_of_g@ == b.powers_of_g@
    &&& a.powers_of_gamma_g@ == b.powers_of_gamma_g@
    &&& a.h == b.h
    &&& a.beta_h == b.beta_h
    &&& a.supported_degree_bounds@ == b.supported_degree_bounds@
    &&& a.inverse_powers_of_g@ == b.inverse_powers_of_g@
    &&& a.inverse_neg_powers_of_h@ == b.inverse_neg_powers_of_h@
}

/// What is read from the encoding of parameters are those parameters, and
/// their encoding is the one that was read.
pub proof fn law_encoding_round_trip(
    written: UniversalParams,
    bytes: Seq<u8>,
    read: UniversalParams,
    bytes_again: Seq<u8>,
)
    requires
        written.encoded_as(bytes),
        read.encoded_as(bytes),
        read.encoded_as(bytes_again),
    ensures
        same_params(written, read),
        bytes_again == bytes,
{
    let a = choose|l: Layout| written.laid_out_as(l) && #[trigger] l.bytes() == bytes;
    let b = choose|l: Layout| read.laid_out_as(l) && #[trigger] l.bytes() == bytes;
    let c = choose|l: Layout| read.laid_out_as(l) && #[trigger] l.bytes() == bytes_again;
    lemma_layout_unique(a, b);
    lemma_table_unique(
        a.powers_of_gamma_g,
        written.powers_of_gamma_g@,
        read.powers_of_gamma_g@,
    );
    lemma_table_unique(
        a.inverse_powers_of_g,
        written.inverse_powers_of_g@,
        read.inverse_powers_of_g@,
    );
    lemma_table_unique(
        a.inverse_neg_powers_of_h,
        written.inverse_neg_powers_of_h@,
        read.inverse_neg_powers_of_h@,
    );
    lemma_entries_unique(b.powers_of_gamma_g, c.powers_of_gamma_g, read.powers_of_gamma_g@);
    lemma_entries_unique(b.inverse_powers_of_g, c.inverse_powers_of_g, read.inverse_powers_of_g@);
    lemma_entries_unique(
        b.inverse_neg_powers_of_h,
        c.inverse_neg_powers_of_h,
        read.inverse_neg_powers_of_h@,
    );
    assert(b == c);
}

proof fn lemma_table_unique<V>(entries: Seq<(usize, V)>, a: Map<usize, V>, b: Map<usize, V>)
    requires
        lists_table(entries, a),
        lists_table(entries, b),
    ensures
        a == b,
{
    assert forall|k: usize| a.contains_key(k) <==> b.contains_key(k) by {
        if a.contains_key(k) {
            let i = choose|i: int| 0 <= i < entries.len() && (#[trigger] entries[i]).0 == k;
            assert(b.contains_key(entries[i].0));
        }
        if b.contains_key(k) {
            let i = choose|i: int| 0 <= i < entries.len() && (#[trigger] entries[i]).0 == k;
            assert(a.contains_key(entries[i].0));
        }
    }
    assert forall|k: usize| #[trigger] a.contains_key(k) implies a[k] == b[k] by {
        let i = choose|i: int| 0 <= i < entries.len() && (#[trigger] entries[i]).0 == k;
        assert(a[entries[i].0] == entries[i].1);
        assert(b[entries[i].0] == entries[i].1);
    }
    assert(a =~= b);
}

} // verus!
