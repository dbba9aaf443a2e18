//! The pairing of BLS12-377 and its target group.
//!
//! The pairing of a multiple by `a` of the first generator with a multiple by
//! `b` of the second is the power `a * b` of the pairing of the generators.
//! Contracts speak of an element of the target group through that exponent.

use crate::group::{G1, G2};
use crate::modular::modulus;
use snarkvm_curves::bls12_377::{Bls12_377, Fq12, G1Affine, G2Affine};
use snarkvm_curves::traits::{PairingCurve, PairingEngine};
use snarkvm_fields::One;
use snarkvm_utilities::{CanonicalDeserialize, CanonicalSerialize, FromBytes, ToBytes};
use vstd::prelude::*;

verus! {

/// The pairing of the multiple by `k` of the first generator with the second
/// generator, as `PairingEngine::pairing` of
/// `snarkvm_curves::bls12_377::Bls12_377` computes it.
pub uninterp spec fn pairing_power(k: int) -> Gt;

/// The serialized line coefficients that `PairingCurve::prepare` computes for
/// the multiple by `k` of the second generator.
pub uninterp spec fn g2_prepared(k: int) -> Seq<u8>;

/// An element of the target group, held as the little-endian encoding of its
/// coordinates.
#[derive(Clone, Copy, Debug)]
pub struct Gt {
    bytes: [u8; 576],
}

/// An element of the second group with the line coefficients that its pairings
/// need, held in serialized form.
#[derive(Debug, PartialEq, Eq)]
pub struct PreparedG2 {
    bytes: Vec<u8>,
}

impl View for Gt {
    type V = int;

    /// The exponent of the pairing of the generators.
    open spec fn view(&self) -> int {
        choose|k: int| 0 <= k < modulus() && #[trigger] pairing_power(k) == *self
    }
}

impl View for PreparedG2 {
    type V = int;

    /// The factor of the element that the coefficients belong to.
    open spec fn view(&self) -> int {
        choose|k: int| 0 <= k < modulus() && #[trigger] g2_prepared(k) == self.serialized()
    }
}

impl Gt {
    /// Every element is a power of the pairing of the generators.
    #[verifier::type_invariant]
    pub open spec fn in_group(self) -> bool {
        exists|k: int| 0 <= k < modulus() && #[trigger] pairing_power(k) == self
    }

    /// Whether two elements are the same.
    pub fn equals(&self, other: &Gt) -> (res: bool)
        ensures
            res == (self@ == other@),
    {
        let mut same = true;
        let mut i: usize = 0;
        while i < 576
            invariant
                0 <= i <= 576,
                same == (forall|j: int| 0 <= j < i ==> self.bytes@[j] == other.bytes@[j]),
            decreases 576 - i,
        {
            same = same && self.bytes[i] == other.bytes[i];
            i = i + 1;
        }
        proof {
            use_type_invariant(self);
            use_type_invariant(other);
            if same {
                assert(self.bytes =~= other.bytes);
            }
        }
        same
    }

    /// Calls `One::is_one` of `snarkvm_fields` on BLS12-377's `Fq12`: whether
    /// this is the neutral element.
    #[verifier::external_body]
    pub(crate) fn is_one(&self) -> (res: bool)
        ensures
            res == (self@ == 0),
    {
        Fq12::read_le(&self.bytes[..]).unwrap().is_one()
    }
}

impl PreparedG2 {
    /// The coefficients are those of some element.
    #[verifier::type_invariant]
    pub open spec fn in_group(self) -> bool {
        exists|k: int| 0 <= k < modulus() && #[trigger] g2_prepared(k) == self.serialized()
    }

    /// The serialized coefficients.
    pub closed spec fn serialized(self) -> Seq<u8> {
        self.bytes@
    }

    /// The same element again.
    pub fn duplicate(&self) -> (res: PreparedG2)
        ensures
            res@ == self@,
    {
        proof {
            use_type_invariant(self);
        }
        let bytes = self.bytes.clone();
        assert(bytes@ =~= self.bytes@);
        PreparedG2 { bytes }
    }
}

/// Calls `PairingCurve::prepare` on BLS12-377's `G2Affine`: the line
/// coefficients of an element of the second group. Elements that differ have
/// coefficients that differ.
#[verifier::external_body]
pub(crate) fn prepare(element: &G2) -> (res: PreparedG2)
    ensures
        res.serialized() == g2_prepared(element@),
        res@ == element@,
{
    let prepared = G2Affine::read_le(&element.to_bytes_le()[..]).unwrap().prepare();
    let mut bytes = Vec::new();
    prepared.serialize(&mut bytes).unwrap();
    PreparedG2 { bytes }
}

/// Calls `PairingEngine::pairing` of `Bls12_377`. The pairing is bilinear, and
/// the pairing of the generators has the order of the groups.
#[verifier::external_body]
pub(crate) fn pairing(p: &G1, q: &G2) -> (res: Gt)
    ensures
        res == pairing_power((p@ * q@) % modulus()),
        res@ == (p@ * q@) % modulus(),
{
    let p = G1Affine::read_le(&p.to_bytes_le()[..]).unwrap();
    let q = G2Affine::read_le(&q.to_bytes_le()[..]).unwrap();
    let mut bytes = [0u8; 576];
    Bls12_377::pairing(p, q).write_le(&mut bytes[..]).unwrap();
    Gt { bytes }
}

/// Calls `PairingEngine::product_of_pairings` of `Bls12_377` on two pairs: the
/// product of their pairings, whose exponent is the sum of theirs.
#[verifier::external_body]
pub(crate) fn product_of_pairings(
    p1: &G1,
    q1: &PreparedG2,
    p2: &G1,
    q2: &PreparedG2,
) -> (res: Gt)
    ensures
        res == pairing_power((p1@ * q1@ + p2@ * q2@) % modulus()),
        res@ == (p1@ * q1@ + p2@ * q2@) % modulus(),
{
    let a1 = G1Affine::read_le(&p1.to_bytes_le()[..]).unwrap().prepare();
    let a2 = G1Affine::read_le(&p2.to_bytes_le()[..]).unwrap().prepare();
    let b1 = CanonicalDeserialize::deserialize(&mut &q1.bytes[..]).unwrap();
    let b2 = CanonicalDeserialize::deserialize(&mut &q2.bytes[..]).unwrap();
    let mut bytes = [0u8; 576];
    let product = Bls12_377::product_of_pairings([(&a1, &b1), (&a2, &b2)].iter().copied());
    product.write_le(&mut bytes[..]).unwrap();
    Gt { bytes }
}

} // verus!
