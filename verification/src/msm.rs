//! The multi-scalar-multiplication engine.
//!
//! `msm(bases, scalars)` computes the weighted sum of the bases, each
//! weighted by its scalar. The engine's contract is the naive left fold of
//! the group operations, so every backend that meets it — the accelerated
//! one delegating to the curve library, or the naive in-crate loop — is
//! interchangeable: backend choice can never change a result.

use vstd::prelude::*;
use halo2curves::ff::PrimeField;
use halo2curves::group::{Curve, GroupEncoding};

verus! {

use vstd::arithmetic::power2::pow2;
use crate::Error;
use crate::curve::{G1Point, g1_add_of, g1_decodes, g1_identity_seq, g1_mul_of};
use crate::field::Fr;

/// The encodings of a sequence of scalars.
pub open spec fn fr_views(s: Seq<Fr>) -> Seq<Seq<u8>> {
    s.map_values(|f: Fr| f@)
}

/// The encodings of a sequence of points.
pub open spec fn point_views(s: Seq<G1Point>) -> Seq<Seq<u8>> {
    s.map_values(|p: G1Point| p@)
}

/// The multi-scalar multiplication of equally long sequences: the sum of
/// `scalars[i] * bases[i]`, accumulated left to right from the identity.
pub open spec fn msm_fold(scalars: Seq<Seq<u8>>, bases: Seq<Seq<u8>>) -> Seq<u8>
    decreases scalars.len(),
{
    if scalars.len() == 0 {
        g1_identity_seq()
    } else {
        g1_add_of(
            msm_fold(scalars.drop_last(), bases.drop_last()),
            g1_mul_of(scalars.last(), bases.last()),
        )
    }
}

/// A reusable multi-scalar-multiplication engine: `degree` fixes the
/// largest supported input size at two to the `degree`. Instances may be
/// shared read-only across many calls and are released when dropped.
pub struct G1MSM {
    degree: u8,
}

impl G1MSM {
    #[verifier::type_invariant]
    closed spec fn inv(self) -> bool {
        self.degree < 64
    }

    /// The engine's size parameter.
    pub closed spec fn degree_spec(&self) -> u8 {
        self.degree
    }

    /// An engine for inputs of at most two to the `degree` elements.
    pub fn new(degree: u8) -> (r: G1MSM)
        requires
            degree < 64,
        ensures
            r.degree_spec() == degree,
    {
        G1MSM { degree }
    }

    /// The multi-scalar multiplication of the bases by the scalars.
    ///
    /// Fails with `SizeMismatchError` exactly when the two sequences have
    /// different lengths or exceed the engine's supported size; the empty
    /// input yields the point at infinity.
    pub fn msm(&self, bases: &Vec<G1Point>, scalars: &Vec<Fr>) -> (r: Result<G1Point, Error>)
        ensures
            r is Ok <==> (bases@.len() == scalars@.len()
                && scalars@.len() <= pow2(self.degree_spec() as nat)),
            r is Err ==> r == Result::<G1Point, Error>::Err(Error::SizeMismatchError),
            (r matches Ok(p) ==> p@ == msm_fold(fr_views(scalars@), point_views(bases@))),
    {
        proof {
            use_type_invariant(self);
        }
        proof {
            vstd::bits::lemma_u64_pow2_no_overflow(self.degree as nat);
            vstd::bits::lemma_u64_shl_is_mul(1u64, self.degree as u64);
        }
        let cap: u64 = 1u64 << self.degree;
        if bases.len() != scalars.len() || scalars.len() as u64 > cap {
            return Err(Error::SizeMismatchError);
        }
        Ok(msm_compute(bases, scalars))
    }
}

/// The naive multi-scalar multiplication: the reference backend, a
/// verified in-crate loop of one scalar multiplication and one addition
/// per element. Fails with `SizeMismatchError` exactly when the two
/// sequences have different lengths.
pub fn msm_naive(bases: &Vec<G1Point>, scalars: &Vec<Fr>) -> (r: Result<G1Point, Error>)
    ensures
        r is Ok <==> bases@.len() == scalars@.len(),
        r is Err ==> r == Result::<G1Point, Error>::Err(Error::SizeMismatchError),
        (r matches Ok(p) ==> p@ == msm_fold(fr_views(scalars@), point_views(bases@))),
{
    if bases.len() != scalars.len() {
        return Err(Error::SizeMismatchError);
    }
    let mut acc = G1Point::identity();
    let mut i: usize = 0;
    while i < bases.len()
        invariant
            i <= bases@.len(),
            bases@.len() == scalars@.len(),
            acc@ == msm_fold(
                fr_views(scalars@).take(i as int),
                point_views(bases@).take(i as int),
            ),
        decreases bases@.len() - i,
    {
        let term = bases[i].mul_scalar(&scalars[i]);
        acc = acc.add_point(&term);
        proof {
            assert(fr_views(scalars@).take(i + 1).drop_last() =~= fr_views(scalars@).take(i as int));
            assert(point_views(bases@).take(i + 1).drop_last() =~= point_views(bases@).take(i as int));
        }
        i += 1;
    }
    proof {
        assert(fr_views(scalars@).take(bases@.len() as int) =~= fr_views(scalars@));
        assert(point_views(bases@).take(bases@.len() as int) =~= point_views(bases@));
    }
    Ok(acc)
}

/// The accelerated multi-scalar multiplication over equally long inputs.
pub(crate) fn msm_compute(bases: &Vec<G1Point>, scalars: &Vec<Fr>) -> (r: G1Point)
    requires
        bases@.len() == scalars@.len(),
    ensures
        r@ == msm_fold(fr_views(scalars@), point_views(bases@)),
{
    if bases.len() == 0 {
        G1Point::identity()
    } else {
        g1_msm_raw(bases, scalars)
    }
}

/// Relies on halo2curves' `msm_best`: the multi-scalar multiplication,
/// the sum over all `i` of `scalars[i] * bases[i]` in the curve group.
#[verifier::external_body]
fn g1_msm_raw(bases: &Vec<G1Point>, scalars: &Vec<Fr>) -> (r: G1Point)
    requires
        bases@.len() == scalars@.len(),
        bases@.len() > 0,
    ensures
        r@ == msm_fold(fr_views(scalars@), point_views(bases@)),
        g1_decodes(r@),
{
    let bs: Vec<halo2curves::bn256::G1Affine> = bases
        .iter()
        .map(|p| halo2curves::bn256::G1Affine::from_bytes(&p.repr.into()).unwrap())
        .collect();
    let ss: Vec<halo2curves::bn256::Fr> = scalars
        .iter()
        .map(|s| halo2curves::bn256::Fr::from_repr(s.repr.into()).unwrap())
        .collect();
    let acc = halo2curves::msm::msm_best(&ss, &bs);
    G1Point { repr: acc.to_affine().to_bytes().into() }
}

} // verus!
