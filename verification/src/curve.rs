//! Points of the BN254 curve group used for commitments.
//!
//! A point is carried in its canonical 32-byte compressed encoding (the
//! x-coordinate with a sign and an infinity flag in the two spare bits).
//! The group operations are delegated to the curve library; their results
//! are named, since no short statement can give them. A type invariant
//! keeps every reachable point canonically encoded, so the delegating
//! wrappers decode their operands without failure.

use vstd::prelude::*;
use halo2curves::ff::PrimeField;
use halo2curves::group::{Curve, GroupEncoding};
use halo2curves::group::prime::PrimeCurveAffine;
use halo2curves::CurveAffine;

verus! {

use crate::field::Fr;

/// Whether 32 bytes are the canonical compressed encoding of a curve
/// point (including the point at infinity).
pub uninterp spec fn g1_decodes(s: Seq<u8>) -> bool;

/// The compressed encoding of the sum of the two encoded points.
pub uninterp spec fn g1_add_of(a: Seq<u8>, b: Seq<u8>) -> Seq<u8>;

/// The compressed encoding of the encoded point multiplied by the scalar
/// with the given canonical encoding.
pub uninterp spec fn g1_mul_of(s: Seq<u8>, p: Seq<u8>) -> Seq<u8>;

/// The canonical encodings of the affine x and y coordinates of the
/// encoded point.
pub uninterp spec fn g1_coords_of(p: Seq<u8>) -> (Seq<u8>, Seq<u8>);

/// The compressed encoding of the point at infinity: all spare flag bits
/// clear except the infinity flag, and a zero x-coordinate.
pub open spec fn g1_identity_seq() -> Seq<u8> {
    Seq::new(32, |i: int| if i == 31 { 0x40u8 } else { 0u8 })
}

/// The compressed encoding of the fixed group generator, the point
/// (1, 2): x-coordinate one, both flag bits clear.
pub open spec fn g1_generator_seq() -> Seq<u8> {
    Seq::new(32, |i: int| if i == 0 { 1u8 } else { 0u8 })
}

/// A point of the BN254 curve group, as its canonical compressed encoding.
#[derive(Clone, Copy, Debug)]
pub struct G1Point {
    pub(crate) repr: [u8; 32],
}

impl View for G1Point {
    type V = Seq<u8>;

    closed spec fn view(&self) -> Seq<u8> {
        self.repr@
    }
}

impl G1Point {
    #[verifier::type_invariant]
    pub closed spec fn inv(self) -> bool {
        g1_decodes(self.repr@)
    }

    /// Every reachable point (`use_type_invariant` yields `inv`) carries
    /// a canonical compressed encoding.
    pub proof fn lemma_inv_decodes(self)
        requires
            self.inv(),
        ensures
            g1_decodes(self@),
    {
    }

    /// The point at infinity, the identity of the group.
    pub fn identity() -> (r: G1Point)
        ensures
            r@ == g1_identity_seq(),
    {
        g1_identity_raw()
    }

    /// The fixed group generator.
    pub fn generator() -> (r: G1Point)
        ensures
            r@ == g1_generator_seq(),
    {
        g1_generator_raw()
    }

    /// Decodes a canonical compressed encoding; rejects any other bytes.
    pub fn from_bytes(b: &[u8; 32]) -> (r: Option<G1Point>)
        ensures
            r is Some <==> g1_decodes(b@),
            (r matches Some(p) ==> p@ == b@),
    {
        g1_from_bytes_raw(b)
    }

    /// The canonical compressed encoding.
    pub fn to_bytes(&self) -> (r: [u8; 32])
        ensures
            r@ == self@,
    {
        self.repr
    }

    /// Whether this is the point at infinity.
    pub fn is_identity(&self) -> (r: bool)
        ensures
            r <==> self@ == g1_identity_seq(),
    {
        let mut i: usize = 0;
        while i < 31
            invariant
                i <= 31,
                forall|j: int| 0 <= j < i ==> self.repr@[j] == 0,
            decreases 31 - i,
        {
            if self.repr[i] != 0 {
                return false;
            }
            i += 1;
        }
        if self.repr[31] != 0x40 {
            return false;
        }
        proof {
            assert(self@ =~= g1_identity_seq());
        }
        true
    }

    /// The sum of the two points.
    pub fn add_point(&self, other: &G1Point) -> (r: G1Point)
        ensures
            r@ == g1_add_of(self@, other@),
    {
        g1_add_raw(self, other)
    }

    /// The point multiplied by the scalar.
    pub fn mul_scalar(&self, s: &Fr) -> (r: G1Point)
        ensures
            r@ == g1_mul_of(s@, self@),
    {
        g1_mul_raw(s, self)
    }
}

/// Relies on the curve library's `to_bytes` on the identity point: a zero
/// x-coordinate with only the infinity flag set.
#[verifier::external_body]
fn g1_identity_raw() -> (r: G1Point)
    ensures
        r@ == g1_identity_seq(),
        g1_decodes(r@),
{
    G1Point { repr: halo2curves::bn256::G1Affine::identity().to_bytes().into() }
}

/// Relies on the curve library's `generator` and `to_bytes`: the generator
/// is the point (1, 2), whose y-coordinate is even, so its compressed
/// encoding is a one x-coordinate with both flag bits clear.
#[verifier::external_body]
fn g1_generator_raw() -> (r: G1Point)
    ensures
        r@ == g1_generator_seq(),
        g1_decodes(r@),
{
    G1Point { repr: halo2curves::bn256::G1Affine::generator().to_bytes().into() }
}

/// Relies on the curve library's `from_bytes`: it succeeds exactly on the
/// canonical compressed encodings.
#[verifier::external_body]
fn g1_from_bytes_raw(b: &[u8; 32]) -> (r: Option<G1Point>)
    ensures
        r is Some <==> g1_decodes(b@),
        (r matches Some(p) ==> p@ == b@),
{
    let ct = halo2curves::bn256::G1Affine::from_bytes(&(*b).into());
    if bool::from(ct.is_some()) {
        Some(G1Point { repr: *b })
    } else {
        None
    }
}

/// Relies on the curve library's group addition (and `to_bytes`): the
/// compressed encoding of the sum of the two points.
#[verifier::external_body]
fn g1_add_raw(a: &G1Point, b: &G1Point) -> (r: G1Point)
    ensures
        r@ == g1_add_of(a@, b@),
        g1_decodes(r@),
{
    let pa = halo2curves::bn256::G1Affine::from_bytes(&a.repr.into()).unwrap();
    let pb = halo2curves::bn256::G1Affine::from_bytes(&b.repr.into()).unwrap();
    let sum = (pa + pb).to_affine();
    G1Point { repr: sum.to_bytes().into() }
}

/// Relies on the curve library's scalar multiplication (and `to_bytes`):
/// the compressed encoding of the scalar multiple of the point.
#[verifier::external_body]
fn g1_mul_raw(s: &Fr, p: &G1Point) -> (r: G1Point)
    ensures
        r@ == g1_mul_of(s@, p@),
        g1_decodes(r@),
{
    let fs = halo2curves::bn256::Fr::from_repr(s.repr.into()).unwrap();
    let pp = halo2curves::bn256::G1Affine::from_bytes(&p.repr.into()).unwrap();
    let prod = (pp * fs).to_affine();
    G1Point { repr: prod.to_bytes().into() }
}

/// Relies on the curve library's `coordinates` and the base field's
/// `to_repr`: the canonical encodings of the affine coordinates of a
/// point other than the point at infinity.
#[verifier::external_body]
pub(crate) fn g1_coords(p: &G1Point) -> (r: ([u8; 32], [u8; 32]))
    requires
        p@ != g1_identity_seq(),
    ensures
        r.0@ == g1_coords_of(p@).0,
        r.1@ == g1_coords_of(p@).1,
{
    let pp = halo2curves::bn256::G1Affine::from_bytes(&p.repr.into()).unwrap();
    let coords: halo2curves::Coordinates<halo2curves::bn256::G1Affine> =
        Option::from(pp.coordinates()).unwrap();
    let x: [u8; 32] = coords.x().to_repr().into();
    let y: [u8; 32] = coords.y().to_repr().into();
    (x, y)
}

} // verus!
