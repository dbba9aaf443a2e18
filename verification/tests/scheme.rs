//! The scheme from end to end.

use kzg10::data_structures::{Commitment, Randomness};
use kzg10::error::Error;
use kzg10::field::Scalar;
use kzg10::kzg10::{KZG10DegreeBoundsConfig, KZG10};
use kzg10::polynomial::Polynomial;
use rand::rngs::StdRng;
use snarkvm_algorithms::fft::DensePolynomial;
use snarkvm_curves::bls12_377::Fr;
use snarkvm_fields::PrimeField;
use snarkvm_utilities::rand::test_rng;
use snarkvm_utilities::UniformRand;
use std::sync::atomic::AtomicBool;

fn scalar(f: &Fr) -> Scalar {
    Scalar::from_repr(f.to_repr().0).unwrap()
}

fn random_scalar(rng: &mut StdRng) -> Scalar {
    scalar(&Fr::rand(rng))
}

fn polynomial(p: &DensePolynomial<Fr>) -> Polynomial {
    Polynomial::from_coefficients_vec(p.coeffs.iter().map(scalar).collect())
}

fn random_polynomial(degree: usize, rng: &mut StdRng) -> Polynomial {
    polynomial(&DensePolynomial::rand(degree, rng))
}

#[test]
fn add_commitments_test() {
    let rng = &mut test_rng();
    let p = DensePolynomial::from_coefficients_slice(&[
        Fr::rand(rng),
        Fr::rand(rng),
        Fr::rand(rng),
        Fr::rand(rng),
        Fr::rand(rng),
    ]);
    let f = Fr::rand(rng);
    let mut f_p = DensePolynomial::zero();
    f_p += (f, &p);
    let (p, f_p, f) = (polynomial(&p), polynomial(&f_p), scalar(&f));

    let degree = 4;
    let pp = KZG10::setup(degree, &KZG10DegreeBoundsConfig::NONE, false, rng).unwrap();
    let (powers, _) = KZG10::trim(&pp, degree);

    let hiding_bound = None;
    let (comm, _) = KZG10::commit(&powers, &p, hiding_bound, &AtomicBool::new(false), Some(rng)).unwrap();
    let (f_comm, _) = KZG10::commit(&powers, &f_p, hiding_bound, &AtomicBool::new(false), Some(rng)).unwrap();
    let mut f_comm_2 = Commitment::empty();
    f_comm_2.add_scaled(&f, &comm);

    assert_eq!(f_comm, f_comm_2);
}

fn end_to_end_test_template() -> Result<(), Error> {
    let rng = &mut test_rng();
    for _ in 0..100 {
        let mut degree = 0;
        while degree <= 1 {
            degree = usize::rand(rng) % 20;
        }
        let pp = KZG10::setup(degree, &KZG10DegreeBoundsConfig::NONE, false, rng)?;
        let (ck, vk) = KZG10::trim(&pp, degree);
        let p = random_polynomial(degree, rng);
        let hiding_bound = Some(1);
        let (comm, rand) = KZG10::commit(&ck, &p, hiding_bound, &AtomicBool::new(false), Some(rng))?;
        let point = random_scalar(rng);
        let value = p.evaluate(point);
        let proof = KZG10::open(&ck, &p, point, &rand)?;
        assert!(
            KZG10::check(&vk, &comm, point, value, &proof)?,
            "proof was incorrect for max_degree = {}, polynomial_degree = {}, hiding_bound = {:?}",
            degree,
            p.degree(),
            hiding_bound,
        );
    }
    Ok(())
}

fn linear_polynomial_test_template() -> Result<(), Error> {
    let rng = &mut test_rng();
    for _ in 0..100 {
        let degree = 50;
        let pp = KZG10::setup(degree, &KZG10DegreeBoundsConfig::NONE, false, rng)?;
        let (ck, vk) = KZG10::trim(&pp, 2);
        let p = random_polynomial(1, rng);
        let hiding_bound = Some(1);
        let (comm, rand) = KZG10::commit(&ck, &p, hiding_bound, &AtomicBool::new(false), Some(rng))?;
        let point = random_scalar(rng);
        let value = p.evaluate(point);
        let proof = KZG10::open(&ck, &p, point, &rand)?;
        assert!(
            KZG10::check(&vk, &comm, point, value, &proof)?,
            "proof was incorrect for max_degree = {}, polynomial_degree = {}, hiding_bound = {:?}",
            degree,
            p.degree(),
            hiding_bound,
        );
    }
    Ok(())
}

fn batch_check_test_template() -> Result<(), Error> {
    let rng = &mut test_rng();
    for _ in 0..10 {
        let mut degree = 0;
        while degree <= 1 {
            degree = usize::rand(rng) % 20;
        }
        let pp = KZG10::setup(degree, &KZG10DegreeBoundsConfig::NONE, false, rng)?;
        let (ck, vk) = KZG10::trim(&pp, degree);

        let mut comms = Vec::new();
        let mut values = Vec::new();
        let mut points = Vec::new();
        let mut proofs = Vec::new();

        for _ in 0..10 {
            let p = random_polynomial(degree, rng);
            let hiding_bound = Some(1);
            let (comm, rand) = KZG10::commit(&ck, &p, hiding_bound, &AtomicBool::new(false), Some(rng))?;
            let point = random_scalar(rng);
            let value = p.evaluate(point);
            let proof = KZG10::open(&ck, &p, point, &rand)?;

            assert!(KZG10::check(&vk, &comm, point, value, &proof)?);
            comms.push(comm);
            values.push(value);
            points.push(point);
            proofs.push(proof);
        }
        assert!(KZG10::batch_check(&vk, &comms, &points, &values, &proofs, rng)?);
    }
    Ok(())
}

#[test]
fn end_to_end_test() {
    end_to_end_test_template().expect("test failed for bls12-377");
}

#[test]
fn linear_polynomial_test() {
    linear_polynomial_test_template().expect("test failed for bls12-377");
}

#[test]
fn batch_check_test() {
    batch_check_test_template().expect("test failed for bls12-377");
}

#[test]
fn test_degree_is_too_large() {
    let rng = &mut test_rng();

    let max_degree = 123;
    let pp = KZG10::setup(max_degree, &KZG10DegreeBoundsConfig::NONE, false, rng).unwrap();
    let (powers, _) = KZG10::trim(&pp, max_degree);

    let p = random_polynomial(max_degree + 1, rng);
    assert!(p.degree() > max_degree);
    assert!(KZG10::check_degree_is_too_large(p.degree(), powers.size()).is_err());
}

#[test]
fn unblinded_commitments_open_without_a_blinding_value() {
    let rng = &mut test_rng();
    let pp = KZG10::setup(5, &KZG10DegreeBoundsConfig::NONE, false, rng).unwrap();
    let (ck, vk) = KZG10::trim(&pp, 5);
    let p = random_polynomial(5, rng);
    let (comm, rand) = KZG10::commit(&ck, &p, None, &AtomicBool::new(false), None).unwrap();
    assert_eq!(rand, Randomness::empty());
    assert!(!rand.is_hiding());
    let point = random_scalar(rng);
    let proof = KZG10::open(&ck, &p, point, &rand).unwrap();
    assert_eq!(proof.random_v, None);
    assert!(KZG10::check(&vk, &comm, point, p.evaluate(point), &proof).unwrap());
}
