//! Parameters, keys and their encoding.

use kzg10::data_structures::{Trapdoor, UniversalParams};
use kzg10::error::Error;
use kzg10::field::Scalar;
use kzg10::group::{G1, G2};
use kzg10::kzg10::{KZG10DegreeBoundsConfig, KZG10};
use snarkvm_curves::bls12_377::{Bls12_377, Fq, Fr, G1Affine, G1Projective, G2Affine, G2Projective};
use snarkvm_curves::traits::{AffineCurve, PairingEngine, ProjectiveCurve};
use snarkvm_fields::{Field, One, PrimeField, Zero};
use snarkvm_utilities::rand::test_rng;
use snarkvm_utilities::{BigInteger256, FromBytes, ToBytes, UniformRand};

fn number(n: u64) -> Scalar {
    Scalar::from_repr([n, 0, 0, 0]).unwrap()
}

fn trapdoor(beta: u64, g: u64, gamma_g: u64, h: u64) -> Trapdoor {
    Trapdoor::from_exponents(number(beta), number(g), number(gamma_g), number(h))
}

fn g1(k: Fr) -> G1 {
    let mut bytes = [0u8; 97];
    (G1Projective::prime_subgroup_generator() * k).into_affine().write_le(&mut bytes[..]).unwrap();
    G1::from_bytes_le(bytes).unwrap()
}

fn g2(k: Fr) -> G2 {
    let mut bytes = [0u8; 193];
    (G2Projective::prime_subgroup_generator() * k).into_affine().write_le(&mut bytes[..]).unwrap();
    G2::from_bytes_le(bytes).unwrap()
}

fn fr(n: u64) -> Fr {
    Fr::from_repr(BigInteger256([n, 0, 0, 0])).unwrap()
}

#[test]
fn kzg10_universal_params_serialization_test() {
    let rng = &mut test_rng();

    let degree = 4;
    let pp = KZG10::setup(degree, &KZG10DegreeBoundsConfig::NONE, false, rng).unwrap();

    let pp_bytes = pp.to_bytes_le();
    let pp_recovered: UniversalParams = UniversalParams::read_le(&pp_bytes[..]).unwrap();
    let pp_recovered_bytes = pp_recovered.to_bytes_le();

    assert_eq!(&pp_bytes, &pp_recovered_bytes);
}

#[test]
fn reading_gives_back_what_was_written() {
    let rng = &mut test_rng();
    let config = KZG10DegreeBoundsConfig::LIST(vec![5, 1, 5, 6]);
    let pp = KZG10::setup(6, &config, true, rng).unwrap();
    let bytes = pp.to_bytes_le();
    // Five lists, nine entries with keys, four bounds, and the elements.
    assert_eq!(bytes.len(), 5 * 8 + 7 * 97 + 8 * 105 + 2 * 193 + 4 * 8 + 3 * 105 + 3 * 201);
    assert_eq!(UniversalParams::read_le(&bytes), Some(pp));
}

#[test]
fn damaged_encodings_are_not_read() {
    let pp = KZG10::setup_with_trapdoor(2, &KZG10DegreeBoundsConfig::ALL, true, &trapdoor(2, 3, 5, 7)).unwrap();
    let bytes = pp.to_bytes_le();
    assert!(UniversalParams::read_le(&bytes).is_some());
    assert_eq!(UniversalParams::read_le(&[]), None);
    assert_eq!(UniversalParams::read_le(&bytes[..bytes.len() - 1]), None);
    let mut longer = bytes.clone();
    longer.push(0);
    assert_eq!(UniversalParams::read_le(&longer), None);
    // The first coordinate of the first power no longer lies on the curve.
    let mut damaged = bytes.clone();
    damaged[8] ^= 1;
    assert_eq!(UniversalParams::read_le(&damaged), None);
    // The entries of the second list out of order.
    let table = 8 + 3 * 97 + 8;
    let mut swapped = bytes.clone();
    swapped[table..table + 105].copy_from_slice(&bytes[table + 105..table + 210]);
    swapped[table + 105..table + 210].copy_from_slice(&bytes[table..table + 105]);
    assert_eq!(UniversalParams::read_le(&swapped), None);
    // A count that no list of this size can have.
    let mut count = bytes;
    count[7] = 0xff;
    assert_eq!(UniversalParams::read_le(&count), None);
}

#[test]
fn degree_bounds_of_each_configuration() {
    assert_eq!(KZG10DegreeBoundsConfig::ALL.get_list(4), vec![0, 1, 2, 3]);
    assert_eq!(KZG10DegreeBoundsConfig::ALL.get_list(0), Vec::<usize>::new());
    assert_eq!(KZG10DegreeBoundsConfig::MARLIN.get_list(0), vec![0]);
    assert_eq!(KZG10DegreeBoundsConfig::MARLIN.get_list(5), vec![0, 2]);
    assert_eq!(KZG10DegreeBoundsConfig::MARLIN.get_list(6), vec![0, 2, 6]);
    assert_eq!(KZG10DegreeBoundsConfig::MARLIN.get_list(100), vec![0, 2, 6, 14, 30, 62]);
    assert_eq!(KZG10DegreeBoundsConfig::LIST(vec![9, 2, 9]).get_list(3), vec![9, 2, 9]);
    assert_eq!(KZG10DegreeBoundsConfig::NONE.get_list(7), Vec::<usize>::new());
}

#[test]
fn parameters_are_the_powers_of_the_trapdoor() {
    let pp = KZG10::setup_with_trapdoor(3, &KZG10DegreeBoundsConfig::NONE, true, &trapdoor(2, 3, 5, 7)).unwrap();
    assert_eq!(pp.powers_of_g, vec![g1(fr(3)), g1(fr(6)), g1(fr(12)), g1(fr(24))]);
    let gammas: Vec<(usize, G1)> = pp.powers_of_gamma_g.iter().map(|(k, v)| (*k, *v)).collect();
    assert_eq!(
        gammas,
        vec![(0, g1(fr(5))), (1, g1(fr(10))), (2, g1(fr(20))), (3, g1(fr(40))), (4, g1(fr(80)))]
    );
    assert_eq!(pp.h, g2(fr(7)));
    assert_eq!(pp.beta_h, g2(fr(14)));
    assert!(pp.supported_degree_bounds.is_empty());
    assert!(pp.inverse_powers_of_g.is_empty());
    assert!(pp.inverse_neg_powers_of_h.is_empty());
}

#[test]
fn many_powers_take_a_wider_window() {
    let pp = KZG10::setup_with_trapdoor(70, &KZG10DegreeBoundsConfig::ALL, true, &trapdoor(11, 1, 2, 3)).unwrap();
    for (i, power) in pp.powers_of_g.iter().enumerate() {
        assert_eq!(*power, g1(fr(11).pow(&[i as u64])));
    }
    assert_eq!(pp.powers_of_g.len(), 71);
    assert_eq!(pp.powers_of_gamma_g[&71], g1(fr(2) * fr(11).pow(&[71u64])));
    assert_eq!(pp.inverse_neg_powers_of_h.len(), 70);
}

#[test]
fn shifts_by_degree_bounds_cancel() {
    let config = KZG10DegreeBoundsConfig::LIST(vec![4, 1, 6, 4]);
    let pp = KZG10::setup_with_trapdoor(6, &config, true, &trapdoor(13, 3, 5, 7)).unwrap();
    assert_eq!(pp.supported_degree_bounds, vec![4, 1, 6, 4]);
    let bounds: Vec<usize> = pp.inverse_powers_of_g.keys().copied().collect();
    assert_eq!(bounds, vec![1, 4, 6]);
    assert_eq!(pp.inverse_powers_of_g[&4], g1(fr(3) * fr(13).pow(&[2u64])));
    assert_eq!(pp.inverse_neg_powers_of_h[&6], pp.h);
    assert_eq!(
        pp.inverse_neg_powers_of_h[&1],
        g2(fr(7) * fr(13).pow(&[5u64]).inverse().unwrap())
    );
    let expected = Bls12_377::pairing(affine1(&pp.powers_of_g[0]), affine2(&pp.h));
    for bound in bounds {
        let up = affine1(&pp.inverse_powers_of_g[&bound]);
        let down = affine2(&pp.inverse_neg_powers_of_h[&bound]);
        assert_eq!(Bls12_377::pairing(up, down), expected);
    }
}

fn affine1(e: &G1) -> G1Affine {
    G1Affine::read_le(&e.to_bytes_le()[..]).unwrap()
}

fn affine2(e: &G2) -> G2Affine {
    G2Affine::read_le(&e.to_bytes_le()[..]).unwrap()
}

#[test]
fn powers_of_h_are_made_on_request_only() {
    let config = KZG10DegreeBoundsConfig::MARLIN;
    let pp = KZG10::setup_with_trapdoor(6, &config, false, &trapdoor(13, 3, 5, 7)).unwrap();
    assert_eq!(pp.supported_degree_bounds, vec![0, 2, 6]);
    assert_eq!(pp.inverse_powers_of_g[&6], pp.powers_of_g[0]);
    assert_eq!(pp.inverse_powers_of_g[&0], pp.powers_of_g[6]);
    assert!(pp.inverse_neg_powers_of_h.is_empty());
}

#[test]
fn setup_refuses_degree_zero() {
    let rng = &mut test_rng();
    let config = KZG10DegreeBoundsConfig::ALL;
    assert_eq!(KZG10::setup(0, &config, true, rng), Err(Error::DegreeIsZero));
    assert_eq!(
        KZG10::setup_with_trapdoor(0, &config, true, &trapdoor(1, 1, 1, 1)),
        Err(Error::DegreeIsZero)
    );
}

#[test]
fn zero_has_no_negative_powers() {
    let zero = trapdoor(0, 3, 5, 7);
    let below = KZG10DegreeBoundsConfig::LIST(vec![3, 2]);
    assert_eq!(KZG10::setup_with_trapdoor(3, &below, true, &zero), Err(Error::TrapdoorIsZero));
    assert!(KZG10::setup_with_trapdoor(3, &below, false, &zero).is_ok());
    assert!(KZG10::setup_with_trapdoor(3, &KZG10DegreeBoundsConfig::NONE, true, &zero).is_ok());
    let at = KZG10DegreeBoundsConfig::LIST(vec![3, 3]);
    let pp = KZG10::setup_with_trapdoor(3, &at, true, &zero).unwrap();
    assert_eq!(pp.inverse_neg_powers_of_h[&3], pp.h);
    let neutral = g1(Fr::zero());
    assert_eq!(pp.powers_of_g, vec![g1(fr(3)), neutral, neutral, neutral]);
}

#[test]
fn keys_for_linear_polynomials_hold_a_power_more() {
    let pp = KZG10::setup_with_trapdoor(4, &KZG10DegreeBoundsConfig::NONE, false, &trapdoor(2, 3, 5, 7)).unwrap();
    for (asked, size) in [(0, 1), (1, 3), (2, 3), (3, 4), (4, 5)] {
        let (powers, vk) = KZG10::trim(&pp, asked);
        assert_eq!(powers.size(), size);
        assert_eq!(powers.powers_of_g[..], pp.powers_of_g[..size]);
        assert_eq!(powers.powers_of_gamma_g.len(), size);
        assert_eq!(powers.powers_of_gamma_g[size - 1], pp.powers_of_gamma_g[&(size - 1)]);
        assert_eq!(vk.g, g1(fr(3)));
        assert_eq!(vk.gamma_g, g1(fr(5)));
        assert_eq!((vk.h, vk.beta_h), (pp.h, pp.beta_h));
        assert_eq!(vk.prepared_h, pp.prepared_h);
        assert_eq!(vk.prepared_beta_h, pp.prepared_beta_h);
    }
}

#[test]
fn only_elements_of_the_groups_are_read() {
    // The neutral element and the generators.
    let mut bytes = [0u8; 97];
    G1Affine::zero().write_le(&mut bytes[..]).unwrap();
    assert_eq!(G1::from_bytes_le(bytes).map(|e| e.to_bytes_le()), Some(bytes));
    let mut wide = [0u8; 193];
    G2Affine::zero().write_le(&mut wide[..]).unwrap();
    assert_eq!(G2::from_bytes_le(wide).map(|e| e.to_bytes_le()), Some(wide));
    G2Affine::prime_subgroup_generator().write_le(&mut wide[..]).unwrap();
    assert_eq!(G2::from_bytes_le(wide).map(|e| e.to_bytes_le()), Some(wide));

    // The neutral element's flag over other coordinates, and an unknown flag.
    G1Affine::prime_subgroup_generator().write_le(&mut bytes[..]).unwrap();
    assert!(G1::from_bytes_le(bytes).is_some());
    bytes[96] = 1;
    assert_eq!(G1::from_bytes_le(bytes), None);
    bytes[96] = 2;
    assert_eq!(G1::from_bytes_le(bytes), None);

    // A point off the curve.
    let mut off = [0u8; 97];
    G1Affine::new(Fq::one(), Fq::one() + Fq::one(), false).write_le(&mut off[..]).unwrap();
    assert_eq!(G1::from_bytes_le(off), None);

    // Points of the curves outside the groups.
    let rng = &mut test_rng();
    let mut outside = None;
    while outside.is_none() {
        let x = Fq::rand(rng);
        outside = G1Affine::from_x_coordinate(x, true).filter(|p| !p.is_in_correct_subgroup_assuming_on_curve());
    }
    outside.unwrap().write_le(&mut off[..]).unwrap();
    assert_eq!(G1::from_bytes_le(off), None);

    // Coordinates that are not reduced.
    assert_eq!(G1::from_bytes_le([0xff; 97]), None);
    assert_eq!(G2::from_bytes_le([0xff; 193]), None);
}

#[test]
fn parameters_of_one_trapdoor_agree() {
    let trapdoor = trapdoor(2, 3, 5, 7);
    let large = KZG10::setup_with_trapdoor(6, &KZG10DegreeBoundsConfig::ALL, true, &trapdoor).unwrap();
    for config in [KZG10DegreeBoundsConfig::MARLIN, KZG10DegreeBoundsConfig::NONE] {
        let pp = KZG10::setup_with_trapdoor(6, &config, false, &trapdoor).unwrap();
        assert_eq!(pp.powers_of_g, large.powers_of_g);
        assert_eq!(pp.powers_of_gamma_g, large.powers_of_gamma_g);
        assert_eq!((pp.h, pp.beta_h), (large.h, large.beta_h));
        assert_eq!(pp.prepared_h, large.prepared_h);
        assert_eq!(pp.prepared_beta_h, large.prepared_beta_h);
        let small = KZG10::setup_with_trapdoor(4, &config, false, &trapdoor).unwrap();
        assert_eq!(small.powers_of_g[..], large.powers_of_g[..5]);
        assert_eq!(small.powers_of_gamma_g[&5], large.powers_of_gamma_g[&5]);
    }
}
