//! Committing, opening and checking on chosen values.

use kzg10::commit::{convert_to_bigints, skip_leading_zeros_and_convert_to_bigints};
use kzg10::data_structures::{
    Commitment, LabeledPolynomial, Powers, Proof, Randomness, Trapdoor, VerifierKey,
};
use kzg10::error::Error;
use kzg10::field::Scalar;
use kzg10::group::G1;
use kzg10::kzg10::{KZG10DegreeBoundsConfig, KZG10};
use kzg10::polynomial::Polynomial;
use snarkvm_curves::bls12_377::{Fr, G1Projective};
use snarkvm_curves::traits::ProjectiveCurve;
use snarkvm_fields::{Field, PrimeField};
use snarkvm_utilities::rand::test_rng;
use snarkvm_utilities::{BigInteger256, ToBytes};
use std::sync::atomic::AtomicBool;

const MODULUS: [u64; 4] = [0x0a11_8000_0000_0001, 0x59aa_76fe_d000_0001, 0x60b4_4d1e_5c37_b001, 0x12ab_655e_9a2c_a556];

fn number(n: u64) -> Scalar {
    Scalar::from_repr([n, 0, 0, 0]).unwrap()
}

/// The scalar that a negative number stands for.
fn minus(n: u64) -> Scalar {
    Scalar::from_repr([MODULUS[0] - n, MODULUS[1], MODULUS[2], MODULUS[3]]).unwrap()
}

fn polynomial(coeffs: &[u64]) -> Polynomial {
    Polynomial::from_coefficients_vec(coeffs.iter().map(|c| number(*c)).collect())
}

fn g1(n: u64) -> G1 {
    let k = Fr::from_repr(BigInteger256([n, 0, 0, 0])).unwrap();
    let mut bytes = [0u8; 97];
    (G1Projective::prime_subgroup_generator() * k).into_affine().write_le(&mut bytes[..]).unwrap();
    G1::from_bytes_le(bytes).unwrap()
}

/// Keys for the secret point 2, over the bases 3, 5 and 7.
fn keys(max_degree: usize) -> (Powers, VerifierKey) {
    let trapdoor = Trapdoor::from_exponents(number(2), number(3), number(5), number(7));
    let pp = KZG10::setup_with_trapdoor(max_degree, &KZG10DegreeBoundsConfig::NONE, false, &trapdoor).unwrap();
    KZG10::trim(&pp, max_degree)
}

fn blinding(coeffs: &[u64]) -> Randomness {
    Randomness { blinding_polynomial: polynomial(coeffs) }
}

#[test]
fn commitments_evaluate_at_the_secret_point() {
    let (powers, _) = keys(4);
    let go = AtomicBool::new(false);
    // 3 * (1 + 2 * 2 + 3 * 4)
    let (c, r) = KZG10::commit(&powers, &polynomial(&[1, 2, 3]), None, &go, None).unwrap();
    assert_eq!(c, Commitment(g1(51)));
    assert_eq!(r, Randomness::empty());
    // 3 * (4 * 8 + 16)
    let (c, _) = KZG10::commit(&powers, &polynomial(&[0, 0, 0, 4, 1]), None, &go, None).unwrap();
    assert_eq!(c, Commitment(g1(144)));
    assert_eq!(KZG10::commit_to_polynomial(&powers, &polynomial(&[9])), Ok(g1(27)));
}

#[test]
fn blinding_adds_the_blinding_polynomial() {
    let (powers, _) = keys(4);
    // 51 + 5 * (1 + 3 * 2)
    assert_eq!(KZG10::blinded(&powers, &g1(51), &blinding(&[1, 3])), Commitment(g1(86)));
    assert_eq!(KZG10::blinded(&powers, &g1(51), &Randomness::empty()), Commitment(g1(51)));
}

#[test]
fn blinded_commitments_open_to_both_polynomials() {
    let (powers, _) = keys(4);
    let rng = &mut test_rng();
    let p = polynomial(&[1, 2, 3]);
    let (c, r) = KZG10::commit(&powers, &p, Some(2), &AtomicBool::new(false), Some(rng)).unwrap();
    assert!(r.is_hiding());
    assert_eq!(r.blinding_polynomial.degree(), 3);
    assert_eq!(KZG10::blinded(&powers, &g1(51), &r), c);
    assert_ne!(c, Commitment(g1(51)));
}

#[test]
fn polynomials_with_too_many_coefficients_are_refused() {
    let (powers, _) = keys(2);
    let p = polynomial(&[1, 2, 3, 4]);
    let error = Error::TooManyCoefficients { num_coefficients: 4, num_powers: 3 };
    let stop = AtomicBool::new(true);
    assert!(KZG10::commit(&powers, &p, Some(1), &stop, None) == Err(error));
    let error = Error::TooManyCoefficients { num_coefficients: 4, num_powers: 3 };
    assert_eq!(KZG10::open(&powers, &p, number(1), &Randomness::empty()), Err(error));
    let error = Error::TooManyCoefficients { num_coefficients: 4, num_powers: 3 };
    assert_eq!(
        KZG10::open_with_witness_polynomial(&powers, number(1), &Randomness::empty(), &p, None),
        Err(error)
    );
    assert_eq!(KZG10::check_degree_is_too_large(2, 3), Ok(()));
    assert_eq!(
        KZG10::check_degree_is_too_large(0, 0),
        Err(Error::TooManyCoefficients { num_coefficients: 1, num_powers: 0 })
    );
    let none = Powers { powers_of_g: vec![], powers_of_gamma_g: vec![] };
    let error = Error::TooManyCoefficients { num_coefficients: 1, num_powers: 0 };
    assert!(KZG10::commit(&none, &Polynomial::zero(), None, &stop, None) == Err(error));
}

#[test]
fn work_that_was_called_off_is_not_finished() {
    let (powers, _) = keys(2);
    let p = polynomial(&[1, 2, 3]);
    assert!(KZG10::commit(&powers, &p, Some(1), &AtomicBool::new(true), None) == Err(Error::Terminated));
    assert!(KZG10::commit(&powers, &p, None, &AtomicBool::new(true), None) == Err(Error::Terminated));
    assert_eq!(KZG10::blinding_for(&powers, Some(1), true, Some(blinding(&[1, 2]))), Err(Error::Terminated));
}

#[test]
fn hiding_takes_a_source_of_randomness() {
    let (powers, _) = keys(2);
    let p = polynomial(&[1, 2, 3]);
    assert!(KZG10::commit(&powers, &p, Some(1), &AtomicBool::new(false), None) == Err(Error::MissingRng));
    assert_eq!(KZG10::blinding_for(&powers, Some(1), false, None), Err(Error::MissingRng));
    assert_eq!(KZG10::blinding_for(&powers, None, false, None), Ok(Randomness::empty()));
    assert_eq!(KZG10::blinding_for(&powers, None, false, Some(blinding(&[1, 2]))), Ok(Randomness::empty()));
    assert_eq!(KZG10::blinding_for(&powers, Some(1), false, Some(blinding(&[1, 2]))), Ok(blinding(&[1, 2])));
}

#[test]
fn hiding_bounds_must_fit_the_key() {
    let (powers, _) = keys(2);
    let p = polynomial(&[1, 2, 3]);
    let rng = &mut test_rng();
    let error = Error::HidingBoundToolarge { hiding_poly_degree: 3, num_powers: 3 };
    assert!(KZG10::commit(&powers, &p, Some(2), &AtomicBool::new(false), Some(rng)) == Err(error));
    assert!(KZG10::commit(&powers, &p, Some(1), &AtomicBool::new(false), Some(rng)).is_ok());
    assert_eq!(KZG10::blinding_for(&powers, Some(1), false, Some(blinding(&[4]))), Err(Error::HidingBoundIsZero));
    assert_eq!(KZG10::check_hiding_bound(0, 0), Err(Error::HidingBoundIsZero));
    assert_eq!(KZG10::check_hiding_bound(2, 3), Ok(()));
    assert_eq!(
        KZG10::check_hiding_bound(3, 3),
        Err(Error::HidingBoundToolarge { hiding_poly_degree: 3, num_powers: 3 })
    );
}

#[test]
fn witness_polynomials_are_quotients() {
    // 1 + 2 x + 3 x^2 = (x - 2) (3 x + 8) + 17
    let p = polynomial(&[1, 2, 3]);
    let (w, hiding) = KZG10::compute_witness_polynomial(&p, number(2), &Randomness::empty()).unwrap();
    assert_eq!(w, polynomial(&[8, 3]));
    assert_eq!(hiding, None);
    // 5 + x^3 = (x + 1) (x^2 - x + 1) + 4
    let (w, hiding) = KZG10::compute_witness_polynomial(&p, minus(1), &blinding(&[5, 0, 0, 1])).unwrap();
    let expected = vec![minus(1), number(3)];
    assert_eq!(w, Polynomial::from_coefficients_vec(expected));
    let expected = vec![number(1), minus(1), number(1)];
    assert_eq!(hiding, Some(Polynomial::from_coefficients_vec(expected)));
    // A constant leaves nothing, and a factor leaves the rest.
    let (w, _) = KZG10::compute_witness_polynomial(&polynomial(&[7]), number(2), &Randomness::empty()).unwrap();
    assert!(w.is_zero());
    let (w, _) = KZG10::compute_witness_polynomial(&polynomial(&[0, 0, 6]), number(0), &Randomness::empty()).unwrap();
    assert_eq!(w, polynomial(&[0, 6]));
}

#[test]
fn proofs_are_commitments_to_witnesses() {
    let (powers, _) = keys(4);
    let p = polynomial(&[1, 2, 3]);
    // 3 * (8 + 3 * 2)
    let proof = KZG10::open(&powers, &p, number(2), &Randomness::empty()).unwrap();
    assert_eq!(proof, Proof { w: g1(42), random_v: None });
    // The blinding polynomial 4 + 2 x^2 has the value 22 at 3, and the witness
    // 6 + 2 x there; that of the polynomial is 11 + 3 x.
    let proof = KZG10::open(&powers, &p, number(3), &blinding(&[4, 0, 2])).unwrap();
    assert_eq!(proof, Proof { w: g1(3 * 17 + 5 * 10), random_v: Some(number(22)) });
}

#[test]
fn checks_accept_the_value_and_no_other() {
    let (powers, vk) = keys(4);
    let p = polynomial(&[1, 2, 3]);
    let r = blinding(&[4, 0, 2]);
    let c = KZG10::blinded(&powers, &g1(51), &r);
    for z in [0, 1, 2, 3, 1000] {
        let point = number(z);
        let value = p.evaluate(point);
        let proof = KZG10::open(&powers, &p, point, &r).unwrap();
        assert_eq!(value, number(1 + 2 * z + 3 * z * z));
        assert_eq!(KZG10::check(&vk, &c, point, value, &proof), Ok(true));
        assert_eq!(KZG10::check(&vk, &c, point, number(2 + 2 * z + 3 * z * z), &proof), Ok(false));
        let unblinded = Proof { w: proof.w, random_v: None };
        assert_eq!(KZG10::check(&vk, &c, point, value, &unblinded), Ok(false));
        assert_eq!(KZG10::check(&vk, &Commitment(g1(52)), point, value, &proof), Ok(false));
    }
}

#[test]
fn batches_accept_valid_proofs_only() {
    let (powers, vk) = keys(4);
    let rng = &mut test_rng();
    let go = AtomicBool::new(false);
    let (mut cs, mut zs, mut vs, mut ps) = (vec![], vec![], vec![], vec![]);
    for (i, coeffs) in [vec![1, 2, 3], vec![0, 9], vec![5, 0, 0, 0, 1]].iter().enumerate() {
        let p = polynomial(coeffs);
        let (c, r) = if i == 1 {
            KZG10::commit(&powers, &p, None, &go, None).unwrap()
        } else {
            KZG10::commit(&powers, &p, Some(1), &go, Some(rng)).unwrap()
        };
        let z = number(10 + i as u64);
        cs.push(c);
        zs.push(z);
        vs.push(p.evaluate(z));
        ps.push(KZG10::open(&powers, &p, z, &r).unwrap());
    }
    assert_eq!(KZG10::batch_check(&vk, &cs, &zs, &vs, &ps, rng), Ok(true));
    for factors in [[1, 1, 1], [1, 2, 3], [0, 0, 9]] {
        let factors: Vec<Scalar> = factors.iter().map(|f| number(*f)).collect();
        assert_eq!(KZG10::batch_check_with(&vk, &cs, &zs, &vs, &ps, &factors), Ok(true));
    }

    // One wrong value.
    vs[1] = number(1);
    assert_eq!(KZG10::batch_check(&vk, &cs, &zs, &vs, &ps, rng), Ok(false));
    assert_eq!(KZG10::batch_check_with(&vk, &cs, &zs, &vs, &ps, &[number(1); 3]), Ok(false));
    // Its factor is zero.
    let without = [number(1), number(0), number(1)];
    assert_eq!(KZG10::batch_check_with(&vk, &cs, &zs, &vs, &ps, &without), Ok(true));
    // The batch ends with the shortest list.
    assert_eq!(KZG10::batch_check(&vk, &cs, &zs, &vs[..1], &ps, rng), Ok(true));
    assert_eq!(KZG10::batch_check(&vk, &cs[..2], &zs, &vs, &ps, rng), Ok(false));
    assert_eq!(KZG10::batch_check(&vk, &[], &zs, &vs, &ps, rng), Ok(true));
    // A batch of one is a check.
    for i in 0..3 {
        assert_eq!(
            KZG10::batch_check(&vk, &cs[i..=i], &zs[i..=i], &vs[i..=i], &ps[i..=i], rng),
            KZG10::check(&vk, &cs[i], zs[i], vs[i], &ps[i])
        );
    }
}

#[test]
fn errors_of_two_proofs_can_cancel_for_fixed_factors_only() {
    let (powers, vk) = keys(4);
    let rng = &mut test_rng();
    let p = polynomial(&[1, 2, 3]);
    let proof = KZG10::open(&powers, &p, number(1), &Randomness::empty()).unwrap();
    let (cs, zs, ps) = ([Commitment(g1(51)); 2], [number(1); 2], [proof; 2]);
    // The value is 6, and the errors are plus and minus one.
    let vs = [number(7), number(5)];
    assert_eq!(KZG10::batch_check_with(&vk, &cs, &zs, &vs, &ps, &[number(1), number(1)]), Ok(true));
    assert_eq!(KZG10::batch_check_with(&vk, &cs, &zs, &vs, &ps, &[number(1), number(2)]), Ok(false));
    assert_eq!(KZG10::batch_check(&vk, &cs, &zs, &vs, &ps, rng), Ok(false));
}

#[test]
fn commitments_are_linear() {
    let (powers, _) = keys(4);
    // 2 * (1 + 2 x) + 3 * (4 x + 5 x^2) = 2 + 16 x + 15 x^2
    let commit = |coeffs: &[u64], r: &[u64]| {
        let plain = KZG10::commit_to_polynomial(&powers, &polynomial(coeffs)).unwrap();
        KZG10::blinded(&powers, &plain, &blinding(r))
    };
    let mut sum = Commitment::empty();
    sum.add_scaled(&number(2), &commit(&[1, 2], &[1]));
    sum.add_scaled(&number(3), &commit(&[0, 4, 5], &[0, 1]));
    assert_eq!(sum, commit(&[2, 16, 15], &[2, 3]));
    assert_eq!(sum, Commitment(g1(3 * (2 + 32 + 60) + 5 * (2 + 6))));
    assert_eq!(Commitment::empty(), Commitment(g1(0)));
    // What cancels leaves the commitment to zero.
    let mut none = commit(&[7], &[]);
    none.add_scaled(&minus(1), &commit(&[7], &[]));
    assert_eq!(none, Commitment::empty());
}

#[test]
fn degree_bounds_are_enforced() {
    let p = |bound| LabeledPolynomial::new("p".to_string(), polynomial(&[1, 2, 3]), bound);
    let enforced: &[usize] = &[1, 2, 4, 9];
    assert_eq!(KZG10::check_degrees_and_bounds(5, 8, Some(enforced), &p(None)), Ok(()));
    assert_eq!(KZG10::check_degrees_and_bounds(5, 8, None, &p(None)), Ok(()));
    assert_eq!(KZG10::check_degrees_and_bounds(5, 8, Some(enforced), &p(Some(2))), Ok(()));
    assert_eq!(KZG10::check_degrees_and_bounds(5, 8, Some(enforced), &p(Some(4))), Ok(()));
    assert_eq!(
        KZG10::check_degrees_and_bounds(5, 8, Some(enforced), &p(Some(3))),
        Err(Error::UnsupportedDegreeBound(3))
    );
    assert_eq!(
        KZG10::check_degrees_and_bounds(5, 8, None, &p(Some(2))),
        Err(Error::UnsupportedDegreeBound(2))
    );
    for bound in [1, 9] {
        assert_eq!(
            KZG10::check_degrees_and_bounds(5, 8, Some(enforced), &p(Some(bound))),
            Err(Error::IncorrectDegreeBound {
                poly_degree: 2,
                degree_bound: bound,
                supported_degree: 5,
                label: "p".to_string(),
            })
        );
    }
    assert_eq!(KZG10::check_degree_bound(5, 8, false, &p(Some(2))), Err(Error::UnsupportedDegreeBound(2)));
    assert_eq!(KZG10::check_degree_bound(5, 8, true, &p(Some(3))), Ok(()));
    assert_eq!(p(None).label(), "p");
    // The bounds that a configuration works out can be enforced.
    let list = KZG10DegreeBoundsConfig::MARLIN.get_list(30);
    for bound in 2..=30 {
        let res = KZG10::check_degrees_and_bounds(30, 30, Some(&list), &p(Some(bound)));
        assert_eq!(res.is_ok(), bound == 2 || bound == 6 || bound == 14 || bound == 30);
    }
}

#[test]
fn representatives_skip_leading_zeros() {
    let (zeros, ints) = skip_leading_zeros_and_convert_to_bigints(&polynomial(&[0, 0, 3, 0, 4]));
    assert_eq!(zeros, 2);
    assert_eq!(ints, vec![[3, 0, 0, 0], [0, 0, 0, 0], [4, 0, 0, 0]]);
    let (zeros, ints) = skip_leading_zeros_and_convert_to_bigints(&polynomial(&[8]));
    assert_eq!((zeros, ints), (0, vec![[8, 0, 0, 0]]));
    let negative = [MODULUS[0] - 1, MODULUS[1], MODULUS[2], MODULUS[3]];
    assert_eq!(convert_to_bigints(&[number(1), minus(1)]), vec![[1, 0, 0, 0], negative]);
    assert!(convert_to_bigints(&[]).is_empty());
}

#[test]
fn polynomials_are_kept_without_zeros_at_the_end() {
    assert_eq!(polynomial(&[1, 2, 0, 0]), polynomial(&[1, 2]));
    assert_eq!(polynomial(&[0, 0]), Polynomial::zero());
    assert_eq!(polynomial(&[1, 2, 0, 0]).degree(), 1);
    assert_eq!(polynomial(&[0, 0]).degree(), 0);
    assert_eq!(polynomial(&[4]).degree(), 0);
    assert_eq!(polynomial(&[1, 2, 3]).evaluate(number(10)), number(321));
    assert_eq!(polynomial(&[1, 2, 3]).evaluate(number(0)), number(1));
    assert_eq!(polynomial(&[1, 1]).evaluate(minus(1)), number(0));
    assert_eq!(Polynomial::zero().evaluate(number(5)), number(0));
    assert_eq!(polynomial(&[1, 2]).coeffs(), &vec![number(1), number(2)]);
}

#[test]
fn scalars_lie_below_the_modulus() {
    assert_eq!(Scalar::from_repr(MODULUS), None);
    assert_eq!(Scalar::from_repr([u64::MAX; 4]), None);
    assert_eq!(Scalar::from_repr([0, 0, 0, MODULUS[3] + 1]), None);
    assert_eq!(Scalar::from_repr([0, 0, MODULUS[2] + 1, MODULUS[3]]), None);
    assert_eq!(Scalar::from_repr([0, MODULUS[1] + 1, MODULUS[2], MODULUS[3]]), None);
    let largest = minus(1);
    let one = Fr::from_repr(BigInteger256(number(1).to_repr())).unwrap();
    assert_eq!((-one).to_repr().0, largest.to_repr());
    assert_eq!(Fr::characteristic(), MODULUS);
    assert!(Scalar::zero().is_zero());
    assert!(!Scalar::one().is_zero());
    assert_eq!(Scalar::one(), number(1));
}

#[test]
fn the_zero_polynomial_has_a_commitment() {
    let (powers, _) = keys(2);
    let go = AtomicBool::new(false);
    let zero = Polynomial::zero();
    assert_eq!(
        KZG10::commit(&powers, &zero, None, &go, None),
        Ok((Commitment::empty(), Randomness::empty()))
    );
    assert_eq!(KZG10::commit_to_polynomial(&powers, &zero), Ok(g1(0)));
    let (zeros, ints) = skip_leading_zeros_and_convert_to_bigints(&zero);
    assert_eq!((zeros, ints), (0, vec![]));
    let rng = &mut test_rng();
    let (c, r) = KZG10::commit(&powers, &zero, Some(1), &go, Some(rng)).unwrap();
    assert_eq!(c, KZG10::blinded(&powers, &g1(0), &r));
}

#[test]
fn constant_polynomials_can_be_opened() {
    let (powers, vk) = keys(2);
    let p = polynomial(&[7]);
    for (p, value) in [(p, number(7)), (Polynomial::zero(), number(0))] {
        let c = Commitment(KZG10::commit_to_polynomial(&powers, &p).unwrap());
        let proof = KZG10::open(&powers, &p, number(1), &Randomness::empty()).unwrap();
        assert_eq!(proof, Proof { w: g1(0), random_v: None });
        assert_eq!(KZG10::check(&vk, &c, number(1), value, &proof), Ok(true));
        assert_eq!(KZG10::check(&vk, &c, number(1), number(8), &proof), Ok(false));
        // Blinded by 4 + 2 x^2, whose witness at 3 is 6 + 2 x.
        let r = blinding(&[4, 0, 2]);
        let c = KZG10::blinded(&powers, &c.0, &r);
        let proof = KZG10::open(&powers, &p, number(3), &r).unwrap();
        assert_eq!(proof, Proof { w: g1(50), random_v: Some(number(22)) });
        assert_eq!(KZG10::check(&vk, &c, number(3), value, &proof), Ok(true));
    }
}

#[test]
fn commitments_follow_from_readings_and_draws() {
    let (powers, _) = keys(2);
    let p = polynomial(&[1, 2, 3]);
    let commit = |bound, early, draw, late| KZG10::commit_with(&powers, &p, bound, early, draw, late);
    let draw = || Some(blinding(&[1, 3]));
    assert_eq!(commit(Some(1), false, draw(), false), Ok((Commitment(g1(86)), blinding(&[1, 3]))));
    assert_eq!(commit(None, false, draw(), false), Ok((Commitment(g1(51)), Randomness::empty())));
    assert_eq!(commit(Some(1), true, draw(), false), Err(Error::Terminated));
    assert_eq!(commit(Some(1), true, None, false), Err(Error::Terminated));
    assert_eq!(commit(Some(1), false, draw(), true), Err(Error::Terminated));
    assert_eq!(commit(Some(1), false, None, true), Err(Error::MissingRng));
    assert_eq!(commit(Some(1), false, Some(blinding(&[9])), true), Err(Error::HidingBoundIsZero));
    assert_eq!(
        commit(Some(2), false, Some(blinding(&[1, 1, 1, 1])), true),
        Err(Error::HidingBoundToolarge { hiding_poly_degree: 3, num_powers: 3 })
    );
    assert_eq!(
        KZG10::commit_with(&powers, &polynomial(&[1, 1, 1, 1]), Some(1), true, None, true),
        Err(Error::TooManyCoefficients { num_coefficients: 4, num_powers: 3 })
    );
    assert_eq!(
        KZG10::commit_blinded(&powers, &g1(51), Some(1), false, draw()),
        Ok((Commitment(g1(86)), blinding(&[1, 3])))
    );
    assert_eq!(
        KZG10::finish_commit(Commitment(g1(1)), blinding(&[2]), false),
        Ok((Commitment(g1(1)), blinding(&[2])))
    );
    assert_eq!(KZG10::finish_commit(Commitment(g1(1)), blinding(&[2]), true), Err(Error::Terminated));
    assert_eq!(Randomness::hiding_polynomial_degree(1), 2);
}

#[test]
fn generators_are_left_alone_where_nothing_is_drawn() {
    let (powers, vk) = keys(2);
    let p = polynomial(&[1, 2, 3]);
    let (go, stop) = (AtomicBool::new(false), AtomicBool::new(true));
    let mut rng = test_rng();
    let before = rng.clone();
    assert!(KZG10::commit(&powers, &p, None, &go, Some(&mut rng)).is_ok());
    assert!(KZG10::commit(&powers, &p, Some(1), &stop, Some(&mut rng)).is_err());
    assert!(KZG10::commit(&powers, &polynomial(&[1, 1, 1, 1]), Some(1), &go, Some(&mut rng)).is_err());
    assert!(KZG10::setup(0, &KZG10DegreeBoundsConfig::ALL, true, &mut rng).is_err());
    assert_eq!(KZG10::batch_check(&vk, &[], &[], &[], &[], &mut rng), Ok(true));
    assert!(rng == before);
    assert!(KZG10::commit(&powers, &p, Some(1), &go, Some(&mut rng)).is_ok());
    assert!(rng != before);
}

#[test]
fn one_bad_proof_spoils_a_batch() {
    let (powers, vk) = keys(2);
    let p = polynomial(&[1, 2, 3]);
    let proof = KZG10::open(&powers, &p, number(1), &Randomness::empty()).unwrap();
    let (cs, zs, ps) = ([Commitment(g1(51)); 3], [number(1); 3], [proof; 3]);
    let vs = [number(6), number(9), number(6)];
    for factors in [[1, 1, 1], [0, 1, 0], [5, 2, 3]] {
        let factors: Vec<Scalar> = factors.iter().map(|f| number(*f)).collect();
        assert_eq!(KZG10::batch_check_with(&vk, &cs, &zs, &vs, &ps, &factors), Ok(false));
    }
}
