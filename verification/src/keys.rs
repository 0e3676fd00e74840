//! The proving key: immutable circuit metadata.
//!
//! A key is parsed once from a serialized circuit description and is
//! read-only thereafter, except for its transcript representation: a
//! scalar binding the key to a prover's domain, derived by hashing the
//! key's contents together with the domain parameter, and memoized per
//! domain since it is deterministic.
//!
//! The serialized format is a fixed little-endian layout: five `u32`
//! counts (advice columns, instance columns, challenges, blinding
//! factors, fixed-constant columns), one phase byte per advice column,
//! one phase byte per challenge, and one `u32` column index per
//! fixed-constant column. Any other length is rejected.

use vstd::prelude::*;

verus! {

use crate::field::{Fr, fr_canonical, fr_from_wide, fr_order, le_nat};
use crate::transcript::blake2b512_of;

/// The `u32` encoded in little-endian order at offset `off`.
pub open spec fn u32_le_at(d: Seq<u8>, off: int) -> u32 {
    (d[off] as u32) | ((d[off + 1] as u32) << 8) | ((d[off + 2] as u32) << 16) | ((d[off
        + 3] as u32) << 24)
}

/// The little-endian bytes of a `u32`.
pub open spec fn u32_le_bytes(x: u32) -> Seq<u8> {
    seq![(x & 0xff) as u8, ((x >> 8) & 0xff) as u8, ((x >> 16) & 0xff) as u8, ((x
        >> 24) & 0xff) as u8]
}

/// Whether bytes are a well-formed serialized circuit description: the
/// five counts followed by exactly the phase bytes and constant indices
/// they declare.
pub open spec fn key_format_ok(d: Seq<u8>) -> bool {
    &&& d.len() >= 20
    &&& d.len() == 20 + u32_le_at(d, 0) + u32_le_at(d, 8) + 4 * u32_le_at(d, 16)
}

/// The concatenated little-endian bytes of a sequence of `u32` values.
pub open spec fn u32s_le_bytes(s: Seq<u32>) -> Seq<u8>
    decreases s.len(),
{
    if s.len() == 0 {
        Seq::empty()
    } else {
        u32s_le_bytes(s.drop_last()) + u32_le_bytes(s.last())
    }
}

/// The personalization under which a key's transcript representation is
/// hashed.
pub open spec fn vk_personal() -> Seq<u8> {
    seq![
        0x48u8, 0x61u8, 0x6cu8, 0x6fu8, 0x32u8, 0x2du8, 0x56u8, 0x65u8,
        0x72u8, 0x69u8, 0x66u8, 0x79u8, 0x2du8, 0x4bu8, 0x65u8, 0x79u8,
    ]
}

/// The bytes hashed to derive a key's transcript representation: the
/// domain parameter, the counts, and the key's contents.
pub open spec fn key_encoding(
    k: u32,
    ninst: u32,
    blind: u32,
    adv: Seq<u8>,
    chal: Seq<u8>,
    consts: Seq<u32>,
) -> Seq<u8> {
    u32_le_bytes(k) + u32_le_bytes(ninst) + u32_le_bytes(blind) + u32_le_bytes(
        adv.len() as u32,
    ) + u32_le_bytes(chal.len() as u32) + u32_le_bytes(consts.len() as u32) + adv + chal
        + u32s_le_bytes(consts)
}

/// The value of a key's transcript representation for domain parameter
/// `k`: the digest of the key encoding, reduced into the scalar field.
pub open spec fn key_repr_value(
    k: u32,
    ninst: u32,
    blind: u32,
    adv: Seq<u8>,
    chal: Seq<u8>,
    consts: Seq<u32>,
) -> nat {
    le_nat(blake2b512_of(vk_personal(), key_encoding(k, ninst, blind, adv, chal, consts)))
        % fr_order()
}

/// The largest element of a byte sequence, zero if it is empty.
pub open spec fn seq_max(s: Seq<u8>) -> u8
    decreases s.len(),
{
    if s.len() == 0 {
        0
    } else if s.last() > seq_max(s.drop_last()) {
        s.last()
    } else {
        seq_max(s.drop_last())
    }
}

/// An immutable proving key.
pub struct SHPlonkProvingKey {
    advice_column_phases: Vec<u8>,
    challenge_phases: Vec<u8>,
    constants: Vec<u32>,
    num_instance_columns: u32,
    blinding_factors: u32,
    repr_cache: Option<(u32, Fr)>,
}

impl SHPlonkProvingKey {
    #[verifier::type_invariant]
    closed spec fn inv(self) -> bool {
        match self.repr_cache {
            Some((k, f)) => le_nat(f@) == key_repr_value(
                k,
                self.num_instance_columns,
                self.blinding_factors,
                self.advice_column_phases@,
                self.challenge_phases@,
                self.constants@,
            ),
            None => true,
        }
    }

    /// The phase of each advice column.
    pub closed spec fn advice_phases_view(&self) -> Seq<u8> {
        self.advice_column_phases@
    }

    /// The phase of each challenge.
    pub closed spec fn challenge_phases_view(&self) -> Seq<u8> {
        self.challenge_phases@
    }

    /// The fixed-constant column indices.
    pub closed spec fn constants_view(&self) -> Seq<u32> {
        self.constants@
    }

    /// The number of instance columns.
    pub closed spec fn num_instance_spec(&self) -> u32 {
        self.num_instance_columns
    }

    /// The number of rows reserved for zero-knowledge masking.
    pub closed spec fn blinding_spec(&self) -> u32 {
        self.blinding_factors
    }

    /// Parses a serialized circuit description. Succeeds exactly on
    /// well-formed bytes, and then returns the key they declare.
    pub fn from(data: &Vec<u8>) -> (r: Option<SHPlonkProvingKey>)
        ensures
            r is Some <==> key_format_ok(data@),
            (r matches Some(key) ==> {
                &&& key.advice_phases_view() == data@.subrange(
                    20,
                    20 + u32_le_at(data@, 0),
                )
                &&& key.challenge_phases_view() == data@.subrange(
                    20 + u32_le_at(data@, 0),
                    20 + u32_le_at(data@, 0) + u32_le_at(data@, 8),
                )
                &&& key.constants_view().len() == u32_le_at(data@, 16)
                &&& forall|j: int| 0 <= j < key.constants_view().len()
                    ==> key.constants_view()[j] == u32_le_at(
                        data@,
                        20 + u32_le_at(data@, 0) + u32_le_at(data@, 8) + 4 * j,
                    )
                &&& key.num_instance_spec() == u32_le_at(data@, 4)
                &&& key.blinding_spec() == u32_le_at(data@, 12)
            }),
    {
        if data.len() < 20 {
            return None;
        }
        let a = read_u32_le(data, 0);
        let ninst = read_u32_le(data, 4);
        let c = read_u32_le(data, 8);
        let blind = read_u32_le(data, 12);
        let f = read_u32_le(data, 16);
        let expected: u64 = 20u64 + a as u64 + c as u64 + 4u64 * (f as u64);
        let dl: usize = data.len();
        if dl as u64 != expected {
            return None;
        }
        let a = a as usize;
        let c = c as usize;
        let f = f as usize;
        let mut adv: Vec<u8> = Vec::new();
        let mut i: usize = 0;
        while i < a
            invariant
                i <= a,
                20 + a + c + 4 * f == dl,
                dl == data@.len(),
                adv@ =~= data@.subrange(20, 20 + i as int),
            decreases a - i,
        {
            adv.push(data[20 + i]);
            proof {
                assert(adv@ =~= data@.subrange(20, 20 + i + 1 as int));
            }
            i += 1;
        }
        let mut chal: Vec<u8> = Vec::new();
        let mut i: usize = 0;
        while i < c
            invariant
                i <= c,
                20 + a + c + 4 * f == dl,
                dl == data@.len(),
                chal@ =~= data@.subrange(20 + a as int, 20 + a as int + i as int),
            decreases c - i,
        {
            chal.push(data[20 + a + i]);
            proof {
                assert(chal@ =~= data@.subrange(20 + a as int, 20 + a as int + i + 1 as int));
            }
            i += 1;
        }
        let base: usize = 20 + a + c;
        let mut consts: Vec<u32> = Vec::new();
        let mut i: usize = 0;
        while i < f
            invariant
                i <= f,
                base == 20 + a + c,
                base + 4 * f == dl,
                dl == data@.len(),
                consts@.len() == i,
                forall|j: int| 0 <= j < i ==> consts@[j] == u32_le_at(data@, base + 4 * j),
            decreases f - i,
        {
            consts.push(read_u32_le(data, base + 4 * i));
            i += 1;
        }
        Some(
            SHPlonkProvingKey {
                advice_column_phases: adv,
                challenge_phases: chal,
                constants: consts,
                num_instance_columns: ninst,
                blinding_factors: blind,
                repr_cache: None,
            },
        )
    }

    /// The phase of each advice column.
    pub fn advice_column_phases(&self) -> (r: &Vec<u8>)
        ensures
            r@ == self.advice_phases_view(),
    {
        &self.advice_column_phases
    }

    /// The phase of each challenge.
    pub fn challenge_phases(&self) -> (r: &Vec<u8>)
        ensures
            r@ == self.challenge_phases_view(),
    {
        &self.challenge_phases
    }

    /// The fixed-constant column indices.
    pub fn constants(&self) -> (r: &Vec<u32>)
        ensures
            r@ == self.constants_view(),
    {
        &self.constants
    }

    /// The number of advice columns.
    pub fn num_advice_columns(&self) -> (r: usize)
        ensures
            r == self.advice_phases_view().len(),
    {
        self.advice_column_phases.len()
    }

    /// The number of challenges.
    pub fn num_challenges(&self) -> (r: usize)
        ensures
            r == self.challenge_phases_view().len(),
    {
        self.challenge_phases.len()
    }

    /// The number of instance columns.
    pub fn num_instance_columns(&self) -> (r: usize)
        ensures
            r == self.num_instance_spec() as usize,
    {
        self.num_instance_columns as usize
    }

    /// The number of rows reserved for zero-knowledge masking.
    pub fn blinding_factors(&self) -> (r: usize)
        ensures
            r == self.blinding_spec() as usize,
    {
        self.blinding_factors as usize
    }

    /// All phases a proof for this key passes through, in order: zero up
    /// to the largest advice-column phase.
    pub fn phases(&self) -> (r: Vec<u8>)
        ensures
            r@.len() == seq_max(self.advice_phases_view()) + 1,
            forall|i: int| 0 <= i < r@.len() ==> r@[i] == i,
    {
        let mut m: u8 = 0;
        let mut i: usize = 0;
        while i < self.advice_column_phases.len()
            invariant
                i <= self.advice_phases_view().len(),
                m == seq_max(self.advice_phases_view().take(i as int)),
            decreases self.advice_phases_view().len() - i,
        {
            let p = self.advice_column_phases[i];
            if p > m {
                m = p;
            }
            proof {
                assert(self.advice_phases_view().take(i + 1).drop_last() =~= self
                    .advice_phases_view()
                    .take(i as int));
            }
            i += 1;
        }
        proof {
            assert(self.advice_phases_view().take(self.advice_phases_view().len() as int)
                =~= self.advice_phases_view());
        }
        let mut r: Vec<u8> = Vec::new();
        let mut p: usize = 0;
        while p <= m as usize
            invariant
                p <= m as usize + 1,
                r@.len() == p,
                forall|j: int| 0 <= j < p ==> r@[j] == j,
            decreases m as usize + 1 - p,
        {
            r.push(p as u8);
            p += 1;
        }
        r
    }

    /// The key's transcript representation for the given prover's domain:
    /// the scalar that is absorbed first into every proof transcript,
    /// binding the proof to this circuit and this domain. Deterministic,
    /// so memoized per domain parameter.
    pub fn transcript_repr(&mut self, prover: &crate::prover::SHPlonkProver) -> (r: Fr)
        ensures
            le_nat(r@) == key_repr_value(
                prover.k_spec(),
                old(self).num_instance_spec(),
                old(self).blinding_spec(),
                old(self).advice_phases_view(),
                old(self).challenge_phases_view(),
                old(self).constants_view(),
            ),
            fr_canonical(r@),
            final(self).advice_phases_view() == old(self).advice_phases_view(),
            final(self).challenge_phases_view() == old(self).challenge_phases_view(),
            final(self).constants_view() == old(self).constants_view(),
            final(self).num_instance_spec() == old(self).num_instance_spec(),
            final(self).blinding_spec() == old(self).blinding_spec(),
    {
        let k = prover.k();
        match &self.repr_cache {
            Some((ck, f)) => {
                if *ck == k {
                    let r = *f;
                    proof {
                        use_type_invariant(&*self);
                        use_type_invariant(&r);
                        r.lemma_inv_canonical();
                    }
                    return r;
                }
            },
            None => {},
        }
        let mut enc: Vec<u8> = Vec::new();
        push_u32_le(&mut enc, k);
        push_u32_le(&mut enc, self.num_instance_columns);
        push_u32_le(&mut enc, self.blinding_factors);
        push_u32_le(&mut enc, self.advice_column_phases.len() as u32);
        push_u32_le(&mut enc, self.challenge_phases.len() as u32);
        push_u32_le(&mut enc, self.constants.len() as u32);
        let mut i: usize = 0;
        let ghost before: Seq<u8> = enc@;
        while i < self.advice_column_phases.len()
            invariant
                i <= self.advice_phases_view().len(),
                enc@ =~= before + self.advice_phases_view().take(i as int),
                self.advice_column_phases@ == self.advice_phases_view(),
            decreases self.advice_phases_view().len() - i,
        {
            enc.push(self.advice_column_phases[i]);
            proof {
                assert(enc@ =~= before + self.advice_phases_view().take(i + 1 as int));
            }
            i += 1;
        }
        proof {
            assert(self.advice_phases_view().take(self.advice_phases_view().len() as int)
                =~= self.advice_phases_view());
        }
        let mut i: usize = 0;
        let ghost before2: Seq<u8> = enc@;
        while i < self.challenge_phases.len()
            invariant
                i <= self.challenge_phases_view().len(),
                enc@ =~= before2 + self.challenge_phases_view().take(i as int),
                self.challenge_phases@ == self.challenge_phases_view(),
            decreases self.challenge_phases_view().len() - i,
        {
            enc.push(self.challenge_phases[i]);
            proof {
                assert(enc@ =~= before2 + self.challenge_phases_view().take(i + 1 as int));
            }
            i += 1;
        }
        proof {
            assert(self.challenge_phases_view().take(self.challenge_phases_view().len() as int)
                =~= self.challenge_phases_view());
        }
        let mut i: usize = 0;
        let ghost before3: Seq<u8> = enc@;
        while i < self.constants.len()
            invariant
                i <= self.constants_view().len(),
                enc@ =~= before3 + u32s_le_bytes(self.constants_view().take(i as int)),
                self.constants@ == self.constants_view(),
            decreases self.constants_view().len() - i,
        {
            push_u32_le(&mut enc, self.constants[i]);
            proof {
                assert(self.constants_view().take(i + 1).drop_last() =~= self
                    .constants_view()
                    .take(i as int));
                assert(enc@ =~= before3 + u32s_le_bytes(self.constants_view().take(i + 1 as int)));
            }
            i += 1;
        }
        proof {
            assert(self.constants_view().take(self.constants_view().len() as int) =~= self
                .constants_view());
            assert(enc@ =~= key_encoding(
                k,
                self.num_instance_columns,
                self.blinding_factors,
                self.advice_phases_view(),
                self.challenge_phases_view(),
                self.constants_view(),
            ));
        }
        let personal = vk_personal_bytes();
        let digest = crate::transcript::blake2b512(&personal, &enc);
        let r = fr_from_wide(&digest);
        proof {
            use_type_invariant(&r);
            r.lemma_inv_canonical();
        }
        self.repr_cache = Some((k, r));
        r
    }
}

/// Reads the `u32` at offset `off`.
fn read_u32_le(d: &Vec<u8>, off: usize) -> (r: u32)
    requires
        off + 4 <= d@.len(),
    ensures
        r == u32_le_at(d@, off as int),
{
    let l: usize = d.len();
    let b0 = d[off] as u32;
    let b1 = d[off + 1] as u32;
    let b2 = d[off + 2] as u32;
    let b3 = d[off + 3] as u32;
    b0 | (b1 << 8u32) | (b2 << 16u32) | (b3 << 24u32)
}

/// Appends the little-endian bytes of a `u32`.
fn push_u32_le(v: &mut Vec<u8>, x: u32)
    ensures
        final(v)@ == old(v)@ + u32_le_bytes(x),
{
    v.push((x & 0xff) as u8);
    v.push(((x >> 8u32) & 0xff) as u8);
    v.push(((x >> 16u32) & 0xff) as u8);
    v.push(((x >> 24u32) & 0xff) as u8);
    proof {
        assert(v@ =~= old(v)@ + u32_le_bytes(x));
    }
}

/// The verification-key personalization, "Halo2-Verify-Key", as bytes.
fn vk_personal_bytes() -> (r: Vec<u8>)
    ensures
        r@ == vk_personal(),
{
    let r: Vec<u8> = vec![
        0x48, 0x61, 0x6c, 0x6f, 0x32, 0x2d, 0x56, 0x65,
        0x72, 0x69, 0x66, 0x79, 0x2d, 0x4b, 0x65, 0x79,
    ];
    proof {
        assert(r@ =~= vk_personal());
    }
    r
}

} // verus!
