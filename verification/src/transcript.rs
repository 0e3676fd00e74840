//! The Fiat-Shamir transcript.
//!
//! A sequential absorb/squeeze engine over BLAKE2b. Every absorbed message
//! is prefixed with a one-byte domain separator (challenge, point, scalar);
//! a challenge is the 64-byte digest of everything absorbed so far, reduced
//! into the scalar field. Squeezing does not destroy the running state:
//! absorption continues afterwards (finalize-and-continue).
//!
//! The engine keeps the full absorbed byte sequence as its state, which
//! makes the state exportable and re-importable, and a separate output
//! buffer into which `write_point` / `write_scalar` emit the canonical
//! encodings that form the serialized proof. By design, the output buffer
//! holds exactly what the `write_*` calls emitted: values that were only
//! absorbed are not flushed into it at finalization.

use vstd::prelude::*;

verus! {

use crate::Error;
use crate::curve::{G1Point, g1_coords, g1_coords_of, g1_identity_seq};
use crate::field::{Fr, fr_canonical, fr_from_wide, fr_order, le_nat};

/// The 64-byte BLAKE2b digest of `data` under personalization `personal`.
pub uninterp spec fn blake2b512_of(personal: Seq<u8>, data: Seq<u8>) -> Seq<u8>;

/// The domain-separation prefix absorbed before squeezing a challenge.
pub open spec fn challenge_prefix() -> u8 {
    0
}

/// The domain-separation prefix absorbed before a curve point.
pub open spec fn point_prefix() -> u8 {
    1
}

/// The domain-separation prefix absorbed before a scalar.
pub open spec fn scalar_prefix() -> u8 {
    2
}

/// The transcript's hash personalization.
pub open spec fn transcript_personal() -> Seq<u8> {
    seq![
        0x48u8, 0x61u8, 0x6cu8, 0x6fu8, 0x32u8, 0x2du8, 0x54u8, 0x72u8,
        0x61u8, 0x6eu8, 0x73u8, 0x63u8, 0x72u8, 0x69u8, 0x70u8, 0x74u8,
    ]
}

/// What absorbing a scalar appends to the transcript state.
pub open spec fn scalar_absorption(s: Seq<u8>) -> Seq<u8> {
    seq![scalar_prefix()] + s
}

/// What absorbing a (non-identity) point appends to the transcript state:
/// the point prefix, then the canonical x and y coordinate encodings.
pub open spec fn point_absorption(p: Seq<u8>) -> Seq<u8> {
    seq![point_prefix()] + g1_coords_of(p).0 + g1_coords_of(p).1
}

/// The value of the challenge squeezed from absorbed state `s`: the
/// digest of `s` extended by the challenge prefix, reduced into the field.
pub open spec fn challenge_value_of(s: Seq<u8>) -> nat {
    le_nat(blake2b512_of(transcript_personal(), s + seq![challenge_prefix()])) % fr_order()
}

/// A Fiat-Shamir transcript writer over BLAKE2b.
pub struct Blake2bWrite {
    absorbed: Vec<u8>,
    out: Vec<u8>,
}

impl Blake2bWrite {
    /// Everything absorbed since initialization, including an imported
    /// initial state.
    pub closed spec fn absorbed_view(&self) -> Seq<u8> {
        self.absorbed@
    }

    /// Everything the `write_*` calls have emitted into the proof buffer.
    pub closed spec fn output_view(&self) -> Seq<u8> {
        self.out@
    }

    /// A fresh transcript with empty state and empty output buffer.
    pub fn init() -> (r: Blake2bWrite)
        ensures
            r.absorbed_view() == Seq::<u8>::empty(),
            r.output_view() == Seq::<u8>::empty(),
    {
        Blake2bWrite { absorbed: Vec::new(), out: Vec::new() }
    }

    /// A transcript resumed from an exported state (or seeded with an
    /// initial state derived from public parameters).
    pub fn from_state(state: &Vec<u8>) -> (r: Blake2bWrite)
        ensures
            r.absorbed_view() == state@,
            r.output_view() == Seq::<u8>::empty(),
    {
        Blake2bWrite { absorbed: state.clone(), out: Vec::new() }
    }

    /// Exports the transcript state as raw bytes; `from_state` of these
    /// bytes resumes challenge derivation exactly where it stopped.
    pub fn state(&self) -> (r: Vec<u8>)
        ensures
            r@ == self.absorbed_view(),
    {
        self.absorbed.clone()
    }

    /// Absorbs a scalar: the scalar prefix, then its canonical encoding.
    pub fn common_scalar(&mut self, s: &Fr) -> (r: Result<(), Error>)
        ensures
            r is Ok,
            final(self).absorbed_view() == old(self).absorbed_view() + scalar_absorption(s@),
            final(self).output_view() == old(self).output_view(),
    {
        self.absorbed.push(2);
        let repr = s.to_repr();
        push_bytes(&mut self.absorbed, &repr);
        proof {
            assert(self.absorbed@ =~= old(self).absorbed@ + scalar_absorption(s@));
        }
        Ok(())
    }

    /// Absorbs a curve point: the point prefix, then the canonical
    /// encodings of its affine coordinates. The point at infinity is
    /// rejected with `InvalidPointError` and the transcript is unchanged.
    pub fn common_point(&mut self, p: &G1Point) -> (r: Result<(), Error>)
        ensures
            r is Ok <==> p@ != g1_identity_seq(),
            r is Err ==> r == Result::<(), Error>::Err(Error::InvalidPointError),
            p@ != g1_identity_seq() ==> final(self).absorbed_view()
                == old(self).absorbed_view() + point_absorption(p@),
            p@ == g1_identity_seq() ==> final(self).absorbed_view() == old(self).absorbed_view(),
            final(self).output_view() == old(self).output_view(),
    {
        if p.is_identity() {
            return Err(Error::InvalidPointError);
        }
        self.absorbed.push(1);
        let (x, y) = g1_coords(p);
        push_bytes(&mut self.absorbed, &x);
        push_bytes(&mut self.absorbed, &y);
        proof {
            assert(self.absorbed@ =~= old(self).absorbed@ + point_absorption(p@));
        }
        Ok(())
    }

    /// Squeezes a challenge: absorbs the challenge prefix, then reduces
    /// the digest of the whole absorbed state into the scalar field. The
    /// state survives, so absorption can continue afterwards.
    pub fn squeeze_challenge(&mut self) -> (r: Fr)
        ensures
            final(self).absorbed_view() == old(self).absorbed_view() + seq![challenge_prefix()],
            final(self).output_view() == old(self).output_view(),
            le_nat(r@) == challenge_value_of(old(self).absorbed_view()),
            fr_canonical(r@),
    {
        self.absorbed.push(0);
        proof {
            assert(self.absorbed@ =~= old(self).absorbed@ + seq![challenge_prefix()]);
        }
        let personal = transcript_personal_bytes();
        let digest = blake2b512(&personal, &self.absorbed);
        let r = fr_from_wide(&digest);
        proof {
            use_type_invariant(&r);
            r.lemma_inv_canonical();
        }
        r
    }

    /// Absorbs a scalar and emits its canonical encoding into the proof
    /// output buffer.
    pub fn write_scalar(&mut self, s: &Fr) -> (r: Result<(), Error>)
        ensures
            r is Ok,
            final(self).absorbed_view() == old(self).absorbed_view() + scalar_absorption(s@),
            final(self).output_view() == old(self).output_view() + s@,
    {
        let res = self.common_scalar(s);
        let repr = s.to_repr();
        push_bytes(&mut self.out, &repr);
        res
    }

    /// Absorbs a curve point and emits its canonical compressed encoding
    /// into the proof output buffer. The point at infinity is rejected
    /// with `InvalidPointError` and the transcript is unchanged.
    pub fn write_point(&mut self, p: &G1Point) -> (r: Result<(), Error>)
        ensures
            r is Ok <==> p@ != g1_identity_seq(),
            r is Err ==> r == Result::<(), Error>::Err(Error::InvalidPointError),
            p@ != g1_identity_seq() ==> {
                &&& final(self).absorbed_view() == old(self).absorbed_view() + point_absorption(p@)
                &&& final(self).output_view() == old(self).output_view() + p@
            },
            p@ == g1_identity_seq() ==> {
                &&& final(self).absorbed_view() == old(self).absorbed_view()
                &&& final(self).output_view() == old(self).output_view()
            },
    {
        let res = self.common_point(p);
        if res.is_err() {
            return res;
        }
        let repr = p.to_bytes();
        push_bytes(&mut self.out, &repr);
        res
    }

    /// Drains the transcript into the final proof bytes: exactly what the
    /// `write_*` calls emitted, in order.
    pub fn finalize(self) -> (r: Vec<u8>)
        ensures
            r@ == self.output_view(),
    {
        self.out
    }
}

/// Appends 32 bytes to a byte buffer.
pub(crate) fn push_bytes(v: &mut Vec<u8>, b: &[u8; 32])
    ensures
        final(v)@ == old(v)@ + b@,
{
    let mut i: usize = 0;
    while i < 32
        invariant
            i <= 32,
            v@ == old(v)@ + b@.subrange(0, i as int),
        decreases 32 - i,
    {
        v.push(b[i]);
        proof {
            assert(v@ =~= old(v)@ + b@.subrange(0, i + 1 as int));
        }
        i += 1;
    }
    proof {
        assert(b@.subrange(0, 32) =~= b@);
    }
}

/// The transcript personalization, "Halo2-Transcript", as bytes.
fn transcript_personal_bytes() -> (r: Vec<u8>)
    ensures
        r@ == transcript_personal(),
{
    let r: Vec<u8> = vec![
        0x48, 0x61, 0x6c, 0x6f, 0x32, 0x2d, 0x54, 0x72,
        0x61, 0x6e, 0x73, 0x63, 0x72, 0x69, 0x70, 0x74,
    ];
    proof {
        assert(r@ =~= transcript_personal());
    }
    r
}

/// Relies on blake2b_simd's `Params::hash`: the 64-byte BLAKE2b digest of
/// `data` under the given personalization (at most 16 bytes long).
#[verifier::external_body]
pub(crate) fn blake2b512(personal: &Vec<u8>, data: &Vec<u8>) -> (r: Vec<u8>)
    requires
        personal@.len() <= 16,
    ensures
        r@ == blake2b512_of(personal@, data@),
        r@.len() == 64,
{
    let hash = blake2b_simd::Params::new()
        .hash_length(64)
        .personal(personal.as_slice())
        .hash(data.as_slice());
    hash.as_bytes().to_vec()
}

/// Order sensitivity: absorbing two distinct scalars in the two orders
/// leaves the transcript in distinct states, whatever was absorbed before.
/// All later challenges are then digests of distinct inputs.
pub proof fn lemma_transcript_order_sensitive(base: Seq<u8>, a: Seq<u8>, b: Seq<u8>)
    requires
        a.len() == b.len(),
        a != b,
    ensures
        base + scalar_absorption(a) + scalar_absorption(b)
            != base + scalar_absorption(b) + scalar_absorption(a),
{
    if forall|i: int| 0 <= i < a.len() ==> a[i] == b[i] {
        assert(a =~= b);
    }
    let i = choose|i: int| 0 <= i < a.len() && a[i] != b[i];
    let s1 = base + scalar_absorption(a) + scalar_absorption(b);
    let s2 = base + scalar_absorption(b) + scalar_absorption(a);
    assert(s1[base.len() + 1 + i] == a[i]);
    assert(s2[base.len() + 1 + i] == b[i]);
}

/// Round trip: a transcript resumed from another's exported state (so
/// with the same absorbed view, as `state` and `from_state` guarantee)
/// derives the same challenge as the one that never paused.
pub proof fn lemma_transcript_round_trip(t1: Blake2bWrite, t2: Blake2bWrite)
    requires
        t2.absorbed_view() == t1.absorbed_view(),
    ensures
        challenge_value_of(t2.absorbed_view()) == challenge_value_of(t1.absorbed_view()),
{
}

} // verus!
