//! The two source groups of BLS12-377's pairing.
//!
//! Both groups are cyclic of the same prime order, so every element is some
//! multiple of a fixed generator. Contracts speak of an element through that
//! factor, its view: to add two elements is to add their factors, and to
//! multiply an element by a scalar is to multiply the two.

use crate::field::{bigint_values, limbs_value, Scalar};
use crate::modular::modulus;
#[allow(unused_imports)]
use crate::modular::lemma_modulus_bounds;
use rand::rngs::StdRng;
use snarkvm_algorithms::msm::{FixedBaseMSM, VariableBaseMSM};
use snarkvm_curves::bls12_377::{Fr, G1Affine, G1Projective, G2Affine, G2Projective};
use snarkvm_curves::traits::{AffineCurve, ProjectiveCurve};
use snarkvm_fields::{PrimeField, Zero};
use snarkvm_utilities::{BigInteger256, FromBytes, ToBytes, UniformRand};
use vstd::prelude::*;

verus! {

/// The multiple by `k` of the fixed generator of the first group, as
/// `Mul<Fr>` of `snarkvm_curves::bls12_377::G1Projective` computes it.
pub uninterp spec fn g1_multiple(k: int) -> G1;

/// The multiple by `k` of the fixed generator of the second group, as
/// `Mul<Fr>` of `snarkvm_curves::bls12_377::G2Projective` computes it.
pub uninterp spec fn g2_multiple(k: int) -> G2;

/// What `Zero::is_zero` says of the affine point of the first curve that
/// bytes encode, or nothing where they encode none.
pub uninterp spec fn g1_read_is_zero(bytes: Seq<u8>) -> Option<bool>;

/// What `Zero::is_zero` says of the affine point of the second curve that
/// bytes encode, or nothing where they encode none.
pub uninterp spec fn g2_read_is_zero(bytes: Seq<u8>) -> Option<bool>;

/// Whether bytes encode a point that `AffineCurve::is_on_curve` accepts for
/// the curve of the first group.
pub uninterp spec fn g1_read_is_on_curve(bytes: Seq<u8>) -> bool;

/// Whether bytes encode a point that `AffineCurve::is_on_curve` accepts for
/// the curve of the second group.
pub uninterp spec fn g2_read_is_on_curve(bytes: Seq<u8>) -> bool;

/// An element of the first group, held as the little-endian encoding of its
/// affine coordinates and of its flag for the neutral element.
#[derive(Clone, Copy, Debug, PartialEq, Eq)]
pub struct G1 {
    bytes: [u8; 97],
}

/// An element of the second group, held as the little-endian encoding of its
/// affine coordinates and of its flag for the neutral element.
#[derive(Clone, Copy, Debug, PartialEq, Eq)]
pub struct G2 {
    bytes: [u8; 193],
}

impl View for G1 {
    type V = int;

    /// The factor by which the generator is multiplied.
    open spec fn view(&self) -> int {
        choose|k: int| 0 <= k < modulus() && #[trigger] g1_multiple(k) == *self
    }
}

impl View for G2 {
    type V = int;

    /// The factor by which the generator is multiplied.
    open spec fn view(&self) -> int {
        choose|k: int| 0 <= k < modulus() && #[trigger] g2_multiple(k) == *self
    }
}

/// The factors of a sequence of elements of the first group.
pub open spec fn g1_values(elements: Seq<G1>) -> Seq<int> {
    elements.map_values(|e: G1| e@)
}

/// Whether bytes are the encoding of the multiple of the first generator by a
/// factor.
pub open spec fn g1_encodes(bytes: Seq<u8>, k: int) -> bool {
    0 <= k < modulus() && g1_multiple(k).encoding() == bytes
}

/// Whether bytes are the encoding of the multiple of the second generator by a
/// factor.
pub open spec fn g2_encodes(bytes: Seq<u8>, k: int) -> bool {
    0 <= k < modulus() && g2_multiple(k).encoding() == bytes
}

/// The sum of the products of the entries of two sequences, pair by pair, up
/// to the end of the shorter one.
pub open spec fn inner_product(a: Seq<int>, b: Seq<int>) -> int
    decreases a.len(),
{
    if a.len() == 0 || b.len() == 0 {
        0
    } else {
        a[0] * b[0] + inner_product(a.drop_first(), b.drop_first())
    }
}

/// Pairs at the start that contribute nothing may be dropped.
pub proof fn lemma_inner_product_skip(a: Seq<int>, b: Seq<int>, n: int)
    requires
        0 <= n <= a.len(),
        n <= b.len(),
        forall|i: int| 0 <= i < n ==> #[trigger] b[i] == 0,
    ensures
        inner_product(a.skip(n), b.skip(n)) == inner_product(a, b),
    decreases n,
{
    if n == 0 {
        assert(a.skip(0) =~= a);
        assert(b.skip(0) =~= b);
    } else {
        lemma_inner_product_skip(a.drop_first(), b.drop_first(), n - 1);
        assert(a.drop_first().skip(n - 1) =~= a.skip(n));
        assert(b.drop_first().skip(n - 1) =~= b.skip(n));
        assert(a[0] * b[0] == 0) by (nonlinear_arith)
            requires
                b[0] == 0,
        ;
    }
}

/// The numbers of scalars for which a variable-base multiplication picks a
/// window: past 31 it goes by the number's last 32 bits, which must not all be
/// zero.
pub open spec fn variable_base_size(num_scalars: nat) -> bool {
    num_scalars < 32 || num_scalars % 0x1_0000_0000 != 0
}

/// The numbers of scalars for which a fixed-base multiplication picks a
/// window: past 31 it goes by the number's last 32 bits, which must exceed
/// one.
pub open spec fn fixed_base_size(num_scalars: nat) -> bool {
    num_scalars < 32 || num_scalars % 0x1_0000_0000 > 1
}

impl G1 {
    /// Every element is a multiple of the generator.
    #[verifier::type_invariant]
    pub open spec fn in_group(self) -> bool {
        exists|k: int| 0 <= k < modulus() && #[trigger] g1_multiple(k) == self
    }

    /// The encoding of the affine coordinates and of the flag.
    pub closed spec fn encoding(self) -> Seq<u8> {
        self.bytes@
    }

    /// Encodings all have the same width, and tell elements apart.
    pub proof fn lemma_encoding_is_faithful(a: G1, b: G1)
        ensures
            a.encoding().len() == 97,
            a.encoding() == b.encoding() ==> a == b,
    {
        if a.encoding() == b.encoding() {
            assert(a.bytes =~= b.bytes);
        }
    }

    /// The encoding of the affine coordinates and of the flag.
    pub fn to_bytes_le(&self) -> (bytes: [u8; 97])
        ensures
            bytes@ == self.encoding(),
    {
        self.bytes
    }

    /// The element with a given encoding, if there is one.
    pub fn from_bytes_le(bytes: [u8; 97]) -> (res: Option<G1>)
        ensures
            res is Some <==> exists|k: int| g1_encodes(bytes@, k),
            res matches Some(e) ==> e.encoding() == bytes@,
    {
        let found = match g1_is_zero(&bytes) {
            None => false,
            Some(true) => {
                let neutral = G1::zero();
                let mut same = true;
                let mut i: usize = 0;
                while i < 97
                    invariant
                        0 <= i <= 97,
                        same == (forall|j: int| 0 <= j < i ==> bytes@[j] == neutral.bytes@[j]),
                    decreases 97 - i,
                {
                    same = same && bytes[i] == neutral.bytes[i];
                    i = i + 1;
                }
                proof {
                    lemma_modulus_bounds();
                    if same {
                        assert(bytes@ =~= neutral.bytes@);
                        assert(g1_encodes(bytes@, 0));
                    }
                }
                same
            },
            Some(false) => g1_is_on_curve(&bytes) && g1_is_in_subgroup(&bytes),
        };
        if found {
            let ghost k = choose|k: int| g1_encodes(bytes@, k);
            proof {
                assert(g1_multiple(k).bytes =~= bytes);
                assert(g1_multiple(k) == G1 { bytes });
            }
            Some(G1 { bytes })
        } else {
            None
        }
    }

    /// Calls `Zero::zero` of BLS12-377's `G1Projective`: the neutral element.
    #[verifier::external_body]
    pub(crate) fn zero() -> (res: G1)
        ensures
            res == g1_multiple(0),
            res@ == 0,
    {
        let mut bytes = [0u8; 97];
        G1Projective::zero().into_affine().write_le(&mut bytes[..]).unwrap();
        G1 { bytes }
    }

    /// Calls `Mul<Fr>` of BLS12-377's `G1Projective` on
    /// `ProjectiveCurve::prime_subgroup_generator`: a multiple of the
    /// generator, whose order is the modulus.
    #[verifier::external_body]
    pub(crate) fn generator_times(scalar: &Scalar) -> (res: G1)
        ensures
            res == g1_multiple(scalar@),
            res@ == scalar@,
    {
        let k = Fr::from_repr(BigInteger256(scalar.to_repr())).unwrap();
        let mut bytes = [0u8; 97];
        (G1Projective::prime_subgroup_generator() * k).into_affine().write_le(&mut bytes[..]).unwrap();
        G1 { bytes }
    }

    /// Calls `Add` of BLS12-377's `G1Projective`: the sum of two elements.
    #[verifier::external_body]
    pub(crate) fn plus(&self, other: &G1) -> (res: G1)
        ensures
            res@ == (self@ + other@) % modulus(),
    {
        let a = G1Affine::read_le(&self.bytes[..]).unwrap().into_projective();
        let b = G1Affine::read_le(&other.bytes[..]).unwrap().into_projective();
        let mut bytes = [0u8; 97];
        (a + b).into_affine().write_le(&mut bytes[..]).unwrap();
        G1 { bytes }
    }

    /// Calls `Sub` of BLS12-377's `G1Projective`: the difference of two
    /// elements.
    #[verifier::external_body]
    pub(crate) fn minus(&self, other: &G1) -> (res: G1)
        ensures
            res@ == (self@ - other@) % modulus(),
    {
        let a = G1Affine::read_le(&self.bytes[..]).unwrap().into_projective();
        let b = G1Affine::read_le(&other.bytes[..]).unwrap().into_projective();
        let mut bytes = [0u8; 97];
        (a - b).into_affine().write_le(&mut bytes[..]).unwrap();
        G1 { bytes }
    }

    /// Calls `Neg` of BLS12-377's `G1Projective`: the inverse of an element.
    #[verifier::external_body]
    pub(crate) fn negated(&self) -> (res: G1)
        ensures
            res@ == (-self@) % modulus(),
    {
        let a = G1Affine::read_le(&self.bytes[..]).unwrap().into_projective();
        let mut bytes = [0u8; 97];
        (-a).into_affine().write_le(&mut bytes[..]).unwrap();
        G1 { bytes }
    }

    /// Calls `Mul<Fr>` of BLS12-377's `G1Projective`: the multiple of an
    /// element by a scalar.
    #[verifier::external_body]
    pub(crate) fn times(&self, scalar: &Scalar) -> (res: G1)
        ensures
            res@ == (self@ * scalar@) % modulus(),
    {
        let a = G1Affine::read_le(&self.bytes[..]).unwrap().into_projective();
        let k = Fr::from_repr(BigInteger256(scalar.to_repr())).unwrap();
        let mut bytes = [0u8; 97];
        (a * k).into_affine().write_le(&mut bytes[..]).unwrap();
        G1 { bytes }
    }

    /// Calls `UniformRand::rand` of `snarkvm_utilities` on BLS12-377's
    /// `G1Projective`, which clears the cofactor of a random curve point: some
    /// element of the group. Nothing more holds of every draw.
    #[verifier::external_body]
    pub(crate) fn rand(rng: &mut StdRng) -> (res: G1) {
        let mut bytes = [0u8; 97];
        G1Projective::rand(rng).into_affine().write_le(&mut bytes[..]).unwrap();
        G1 { bytes }
    }

    /// Calls `FixedBaseMSM::get_window_table` and
    /// `FixedBaseMSM::multi_scalar_mul` of `snarkvm_algorithms` on one element:
    /// its multiple by each scalar, in order. The size of the scalars is that
    /// of the field; the window has no effect on the result.
    #[verifier::external_body]
    pub(crate) fn fixed_base_multiples(
        &self,
        scalar_size: usize,
        window: usize,
        scalars: &Vec<Scalar>,
    ) -> (res: Vec<G1>)
        requires
            scalar_size == 253,
            1 <= window <= 23,
        ensures
            res@.len() == scalars@.len(),
            forall|i: int|
                0 <= i < res@.len() ==> (#[trigger] res@[i])@ == (self@ * scalars@[i]@) % modulus(),
    {
        let base = G1Affine::read_le(&self.bytes[..]).unwrap().into_projective();
        let v: Vec<Fr> = scalars.iter().map(|s| Fr::from_repr(BigInteger256(s.to_repr())).unwrap()).collect();
        let table = FixedBaseMSM::get_window_table(scalar_size, window, base);
        let products = FixedBaseMSM::multi_scalar_mul::<G1Projective>(scalar_size, window, &table, &v);
        let encode = |p: G1Affine| {
            let mut bytes = [0u8; 97];
            p.write_le(&mut bytes[..]).unwrap();
            G1 { bytes }
        };
        G1Projective::batch_normalization_into_affine(products).into_iter().map(encode).collect()
    }
}

impl G2 {
    /// Every element is a multiple of the generator.
    #[verifier::type_invariant]
    pub open spec fn in_group(self) -> bool {
        exists|k: int| 0 <= k < modulus() && #[trigger] g2_multiple(k) == self
    }

    /// The encoding of the affine coordinates and of the flag.
    pub closed spec fn encoding(self) -> Seq<u8> {
        self.bytes@
    }

    /// Encodings all have the same width, and tell elements apart.
    pub proof fn lemma_encoding_is_faithful(a: G2, b: G2)
        ensures
            a.encoding().len() == 193,
            a.encoding() == b.encoding() ==> a == b,
    {
        if a.encoding() == b.encoding() {
            assert(a.bytes =~= b.bytes);
        }
    }

    /// The encoding of the affine coordinates and of the flag.
    pub fn to_bytes_le(&self) -> (bytes: [u8; 193])
        ensures
            bytes@ == self.encoding(),
    {
        self.bytes
    }

    /// The element with a given encoding, if there is one.
    pub fn from_bytes_le(bytes: [u8; 193]) -> (res: Option<G2>)
        ensures
            res is Some <==> exists|k: int| g2_encodes(bytes@, k),
            res matches Some(e) ==> e.encoding() == bytes@,
    {
        let found = match g2_is_zero(&bytes) {
            None => false,
            Some(true) => {
                let neutral = G2::zero();
                let mut same = true;
                let mut i: usize = 0;
                while i < 193
                    invariant
                        0 <= i <= 193,
                        same == (forall|j: int| 0 <= j < i ==> bytes@[j] == neutral.bytes@[j]),
                    decreases 193 - i,
                {
                    same = same && bytes[i] == neutral.bytes[i];
                    i = i + 1;
                }
                proof {
                    lemma_modulus_bounds();
                    if same {
                        assert(bytes@ =~= neutral.bytes@);
                        assert(g2_encodes(bytes@, 0));
                    }
                }
                same
            },
            Some(false) => g2_is_on_curve(&bytes) && g2_is_in_subgroup(&bytes),
        };
        if found {
            let ghost k = choose|k: int| g2_encodes(bytes@, k);
            proof {
                assert(g2_multiple(k).bytes =~= bytes);
                assert(g2_multiple(k) == G2 { bytes });
            }
            Some(G2 { bytes })
        } else {
            None
        }
    }

    /// Calls `Zero::zero` of BLS12-377's `G2Projective`: the neutral element.
    #[verifier::external_body]
    pub(crate) fn zero() -> (res: G2)
        ensures
            res == g2_multiple(0),
            res@ == 0,
    {
        let mut bytes = [0u8; 193];
        G2Projective::zero().into_affine().write_le(&mut bytes[..]).unwrap();
        G2 { bytes }
    }

    /// Calls `Mul<Fr>` of BLS12-377's `G2Projective` on
    /// `ProjectiveCurve::prime_subgroup_generator`: a multiple of the
    /// generator, whose order is the modulus.
    #[verifier::external_body]
    pub(crate) fn generator_times(scalar: &Scalar) -> (res: G2)
        ensures
            res == g2_multiple(scalar@),
            res@ == scalar@,
    {
        let k = Fr::from_repr(BigInteger256(scalar.to_repr())).unwrap();
        let mut bytes = [0u8; 193];
        (G2Projective::prime_subgroup_generator() * k).into_affine().write_le(&mut bytes[..]).unwrap();
        G2 { bytes }
    }
    /// Calls `Sub` of BLS12-377's `G2Projective`: the difference of two
    /// elements.
    #[verifier::external_body]
    pub(crate) fn minus(&self, other: &G2) -> (res: G2)
        ensures
            res@ == (self@ - other@) % modulus(),
    {
        let a = G2Affine::read_le(&self.bytes[..]).unwrap().into_projective();
        let b = G2Affine::read_le(&other.bytes[..]).unwrap().into_projective();
        let mut bytes = [0u8; 193];
        (a - b).into_affine().write_le(&mut bytes[..]).unwrap();
        G2 { bytes }
    }
    /// Calls `Mul<Fr>` of BLS12-377's `G2Projective`: the multiple of an
    /// element by a scalar.
    #[verifier::external_body]
    pub(crate) fn times(&self, scalar: &Scalar) -> (res: G2)
        ensures
            res@ == (self@ * scalar@) % modulus(),
    {
        let a = G2Affine::read_le(&self.bytes[..]).unwrap().into_projective();
        let k = Fr::from_repr(BigInteger256(scalar.to_repr())).unwrap();
        let mut bytes = [0u8; 193];
        (a * k).into_affine().write_le(&mut bytes[..]).unwrap();
        G2 { bytes }
    }

    /// Calls `UniformRand::rand` of `snarkvm_utilities` on BLS12-377's
    /// `G2Projective`, which clears the cofactor of a random curve point: some
    /// element of the group. Nothing more holds of every draw.
    #[verifier::external_body]
    pub(crate) fn rand(rng: &mut StdRng) -> (res: G2) {
        let mut bytes = [0u8; 193];
        G2Projective::rand(rng).into_affine().write_le(&mut bytes[..]).unwrap();
        G2 { bytes }
    }

    /// Calls `FixedBaseMSM::get_window_table` and
    /// `FixedBaseMSM::multi_scalar_mul` of `snarkvm_algorithms` on one element:
    /// its multiple by each scalar, in order. The size of the scalars is that
    /// of the field; the window has no effect on the result.
    #[verifier::external_body]
    pub(crate) fn fixed_base_multiples(
        &self,
        scalar_size: usize,
        window: usize,
        scalars: &Vec<Scalar>,
    ) -> (res: Vec<G2>)
        requires
            scalar_size == 253,
            1 <= window <= 23,
        ensures
            res@.len() == scalars@.len(),
            forall|i: int|
                0 <= i < res@.len() ==> (#[trigger] res@[i])@ == (self@ * scalars@[i]@) % modulus(),
    {
        let base = G2Affine::read_le(&self.bytes[..]).unwrap().into_projective();
        let v: Vec<Fr> = scalars.iter().map(|s| Fr::from_repr(BigInteger256(s.to_repr())).unwrap()).collect();
        let table = FixedBaseMSM::get_window_table(scalar_size, window, base);
        let products = FixedBaseMSM::multi_scalar_mul::<G2Projective>(scalar_size, window, &table, &v);
        let encode = |p: G2Affine| {
            let mut bytes = [0u8; 193];
            p.write_le(&mut bytes[..]).unwrap();
            G2 { bytes }
        };
        G2Projective::batch_normalization_into_affine(products).into_iter().map(encode).collect()
    }
}

/// Calls `FromBytes::read_le` and `Zero::is_zero` on BLS12-377's `G1Affine`:
/// whether the point that bytes encode carries the flag of the neutral
/// element, which is their last byte. Of the elements of the group, the neutral
/// one alone carries it.
#[verifier::external_body]
fn g1_is_zero(bytes: &[u8; 97]) -> (res: Option<bool>)
    ensures
        res == g1_read_is_zero(bytes@),
        res == Some(false) ==> bytes@[96] == 0,
        forall|k: int| #[trigger] g1_encodes(bytes@, k) ==> res == Some(k == 0),
{
    G1Affine::read_le(&bytes[..]).ok().map(|point| point.is_zero())
}

/// Calls `AffineCurve::is_on_curve` on BLS12-377's `G1Affine`: whether the
/// point that bytes encode satisfies the equation of the curve, as every
/// element of the group does.
#[verifier::external_body]
fn g1_is_on_curve(bytes: &[u8; 97]) -> (res: bool)
    requires
        g1_read_is_zero(bytes@) is Some,
    ensures
        res == g1_read_is_on_curve(bytes@),
        forall|k: int| #[trigger] g1_encodes(bytes@, k) ==> res,
{
    G1Affine::read_le(&bytes[..]).unwrap().is_on_curve()
}

/// Calls `AffineCurve::is_in_correct_subgroup_assuming_on_curve` on
/// BLS12-377's `G1Affine`: whether a point of the curve, other than the neutral
/// element, is a multiple of the generator.
#[verifier::external_body]
fn g1_is_in_subgroup(bytes: &[u8; 97]) -> (res: bool)
    requires
        g1_read_is_zero(bytes@) is Some,
        g1_read_is_on_curve(bytes@),
        bytes@[96] == 0,
    ensures
        res <==> exists|k: int| g1_encodes(bytes@, k),
{
    G1Affine::read_le(&bytes[..]).unwrap().is_in_correct_subgroup_assuming_on_curve()
}

/// Calls `FromBytes::read_le` and `Zero::is_zero` on BLS12-377's `G2Affine`:
/// whether the point that bytes encode carries the flag of the neutral
/// element, which is their last byte. Of the elements of the group, the neutral
/// one alone carries it.
#[verifier::external_body]
fn g2_is_zero(bytes: &[u8; 193]) -> (res: Option<bool>)
    ensures
        res == g2_read_is_zero(bytes@),
        res == Some(false) ==> bytes@[192] == 0,
        forall|k: int| #[trigger] g2_encodes(bytes@, k) ==> res == Some(k == 0),
{
    G2Affine::read_le(&bytes[..]).ok().map(|point| point.is_zero())
}

/// Calls `AffineCurve::is_on_curve` on BLS12-377's `G2Affine`: whether the
/// point that bytes encode satisfies the equation of the curve, as every
/// element of the group does.
#[verifier::external_body]
fn g2_is_on_curve(bytes: &[u8; 193]) -> (res: bool)
    requires
        g2_read_is_zero(bytes@) is Some,
    ensures
        res == g2_read_is_on_curve(bytes@),
        forall|k: int| #[trigger] g2_encodes(bytes@, k) ==> res,
{
    G2Affine::read_le(&bytes[..]).unwrap().is_on_curve()
}

/// Calls `AffineCurve::is_in_correct_subgroup_assuming_on_curve` on
/// BLS12-377's `G2Affine`: whether a point of the curve, other than the neutral
/// element, is a multiple of the generator.
#[verifier::external_body]
fn g2_is_in_subgroup(bytes: &[u8; 193]) -> (res: bool)
    requires
        g2_read_is_zero(bytes@) is Some,
        g2_read_is_on_curve(bytes@),
        bytes@[192] == 0,
    ensures
        res <==> exists|k: int| g2_encodes(bytes@, k),
{
    G2Affine::read_le(&bytes[..]).unwrap().is_in_correct_subgroup_assuming_on_curve()
}

/// Calls `FixedBaseMSM::get_mul_window_size` of `snarkvm_algorithms`: three
/// for fewer than 32 scalars, and else the natural logarithm of the number's
/// last 32 bits, rounded up. The logarithm is taken in floating point, so only
/// its range is stated.
#[verifier::external_body]
pub(crate) fn get_mul_window_size(num_scalars: usize) -> (window: usize)
    requires
        fixed_base_size(num_scalars as nat),
    ensures
        1 <= window <= 23,
        num_scalars < 32 ==> window == 3,
{
    FixedBaseMSM::get_mul_window_size(num_scalars)
}

/// Calls `VariableBaseMSM::multi_scalar_mul` of `snarkvm_algorithms` on
/// elements of the first group: the sum of their multiples by the integers,
/// pair by pair, up to the end of the shorter list.
#[verifier::external_body]
pub(crate) fn variable_base_msm(bases: &[G1], scalars: &[[u64; 4]]) -> (res: G1)
    requires
        variable_base_size(scalars@.len()),
        forall|i: int|
            0 <= i < scalars@.len() ==> limbs_value((#[trigger] scalars@[i])@) < modulus(),
    ensures
        res@ == inner_product(g1_values(bases@), bigint_values(scalars@)) % modulus(),
{
    let points: Vec<G1Affine> = bases.iter().map(|b| G1Affine::read_le(&b.bytes[..]).unwrap()).collect();
    let bigints: Vec<BigInteger256> = scalars.iter().map(|s| BigInteger256(*s)).collect();
    let sum: G1Projective = VariableBaseMSM::multi_scalar_mul(&points, &bigints);
    let mut bytes = [0u8; 97];
    sum.into_affine().write_le(&mut bytes[..]).unwrap();
    G1 { bytes }
}

/// Whether drawing an element of the first group from a generator may give a
/// value, and leave the generator in the state that it is in when the reference
/// ends.
pub closed spec fn g1_drawn(rng: &mut StdRng, value: G1) -> bool {
    call_ensures(G1::rand, (rng,), value)
}

/// An element of the first group is drawn exactly where a call of `G1::rand`
/// gives it.
pub(crate) proof fn law_g1_is_drawn(rng: &mut StdRng, value: G1)
    ensures
        g1_drawn(rng, value) <==> call_ensures(G1::rand, (rng,), value),
{
}

/// Draws an element of the first group.
pub(crate) fn next_g1(rng: &mut StdRng) -> (res: G1)
    ensures
        exists|r: &mut StdRng|
            *r == *old(rng) && *final(r) == *final(rng) && #[trigger] g1_drawn(r, res),
{
    let draw = G1::rand;
    let res = draw(rng);
    assert(forall|r: &mut StdRng| #[trigger]
        call_ensures(G1::rand, (r,), res) ==> g1_drawn(r, res));
    res
}

/// Whether drawing an element of the second group from a generator may give a
/// value, and leave the generator in the state that it is in when the reference
/// ends.
pub closed spec fn g2_drawn(rng: &mut StdRng, value: G2) -> bool {
    call_ensures(G2::rand, (rng,), value)
}

/// An element of the second group is drawn exactly where a call of `G2::rand`
/// gives it.
pub(crate) proof fn law_g2_is_drawn(rng: &mut StdRng, value: G2)
    ensures
        g2_drawn(rng, value) <==> call_ensures(G2::rand, (rng,), value),
{
}

/// Draws an element of the second group.
pub(crate) fn next_g2(rng: &mut StdRng) -> (res: G2)
    ensures
        exists|r: &mut StdRng|
            *r == *old(rng) && *final(r) == *final(rng) && #[trigger] g2_drawn(r, res),
{
    let draw = G2::rand;
    let res = draw(rng);
    assert(forall|r: &mut StdRng| #[trigger]
        call_ensures(G2::rand, (r,), res) ==> g2_drawn(r, res));
    res
}

} // verus!
