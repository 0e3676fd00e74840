//! The scalar field of BN254.
//!
//! A field element is carried as its canonical 32-byte little-endian
//! encoding; all arithmetic is delegated to the curve library and every
//! operation is specified exactly as modular arithmetic on the encoded
//! integer value. A type invariant keeps every reachable element
//! canonical, so the delegating wrappers decode their operands without
//! failure.

use vstd::prelude::*;
use halo2curves::ff::{Field, FromUniformBytes, PrimeField};

verus! {

/// The order of the BN254 scalar field.
pub open spec fn fr_order() -> nat {
    0x30644e72e131a029b85045b68181585d2833e84879b9709143e1f593f0000001nat
}

/// The integer a little-endian byte sequence encodes.
pub open spec fn le_nat(s: Seq<u8>) -> nat
    decreases s.len(),
{
    if s.len() == 0 {
        0
    } else {
        s[0] as nat + 256 * le_nat(s.drop_first())
    }
}

/// The little-endian encoding of `v` in `len` bytes.
pub open spec fn nat_to_le(v: nat, len: nat) -> Seq<u8>
    decreases len,
{
    if len == 0 {
        Seq::empty()
    } else {
        seq![(v % 256) as u8] + nat_to_le(v / 256, (len - 1) as nat)
    }
}

/// A byte sequence is the canonical encoding of a scalar: 32 bytes,
/// value below the field order, and equal to the encoding of its value.
pub open spec fn fr_canonical(s: Seq<u8>) -> bool {
    &&& s.len() == 32
    &&& le_nat(s) < fr_order()
    &&& s == nat_to_le(le_nat(s), 32)
}

/// Two canonical encodings of the same value are the same bytes: a
/// scalar's value determines its bytes, so equal derived values yield
/// byte-identical encodings wherever they are emitted.
pub proof fn lemma_fr_unique(a: Seq<u8>, b: Seq<u8>)
    requires
        fr_canonical(a),
        fr_canonical(b),
        le_nat(a) == le_nat(b),
    ensures
        a == b,
{
}

/// The canonical encoding of the product of two encoded scalars.
pub open spec fn fr_mul_repr(a: Seq<u8>, b: Seq<u8>) -> Seq<u8> {
    nat_to_le((le_nat(a) * le_nat(b)) % fr_order(), 32)
}

/// The canonical encoding of the difference of two encoded scalars.
pub open spec fn fr_sub_repr(a: Seq<u8>, b: Seq<u8>) -> Seq<u8> {
    nat_to_le(((((le_nat(a) + fr_order()) - le_nat(b)) % (fr_order() as int)) as nat), 32)
}

/// The canonical encoding of zero.
pub open spec fn fr_zero_repr() -> Seq<u8> {
    nat_to_le(0, 32)
}

/// The canonical encoding of one.
pub open spec fn fr_one_repr() -> Seq<u8> {
    nat_to_le(1, 32)
}

/// The canonical encoding of the multiplicative inverse of the encoded
/// nonzero scalar.
pub uninterp spec fn fr_invert_of(a: Seq<u8>) -> Seq<u8>;

/// `b^e mod m`, with the convention `pow_mod(b, 0, m) == 1 % m`.
pub open spec fn pow_mod(b: nat, e: nat, m: nat) -> nat
    decreases e,
{
    if e == 0 {
        1nat % m
    } else {
        (b * pow_mod(b, (e - 1) as nat, m)) % m
    }
}

/// An element of the BN254 scalar field, as its canonical encoding.
#[derive(Clone, Copy, Debug)]
pub struct Fr {
    pub(crate) repr: [u8; 32],
}

impl View for Fr {
    type V = Seq<u8>;

    closed spec fn view(&self) -> Seq<u8> {
        self.repr@
    }
}

impl Fr {
    #[verifier::type_invariant]
    pub closed spec fn inv(self) -> bool {
        fr_canonical(self.repr@)
    }

    /// Every reachable scalar (`use_type_invariant` yields `inv`) carries
    /// a canonical encoding; in particular its value lies below the field
    /// order.
    pub proof fn lemma_inv_canonical(self)
        requires
            self.inv(),
        ensures
            fr_canonical(self@),
    {
    }

    /// The scalar of integer value `v`.
    pub fn from_u64(v: u64) -> (r: Fr)
        ensures
            le_nat(r@) == v as nat,
    {
        fr_from_u64_raw(v)
    }

    /// Decodes a canonical little-endian encoding; rejects any other bytes.
    pub fn from_repr(b: &[u8; 32]) -> (r: Option<Fr>)
        ensures
            r is Some <==> le_nat(b@) < fr_order(),
            (r matches Some(f) ==> f@ == b@),
    {
        fr_from_repr_raw(b)
    }

    /// The canonical little-endian encoding.
    pub fn to_repr(&self) -> (r: [u8; 32])
        ensures
            r@ == self@,
    {
        self.repr
    }

    /// Whether this is the zero scalar.
    pub fn is_zero(&self) -> (r: bool)
        ensures
            r <==> le_nat(self@) == 0,
    {
        let mut i: usize = 0;
        while i < 32
            invariant
                i <= 32,
                forall|j: int| 0 <= j < i ==> self.repr@[j] == 0,
            decreases 32 - i,
        {
            if self.repr[i] != 0 {
                proof {
                    lemma_le_nat_nonzero(self.repr@, i as int);
                }
                return false;
            }
            i += 1;
        }
        proof {
            lemma_le_nat_all_zero(self.repr@);
        }
        true
    }

    /// Whether the two scalars are the same field element.
    pub fn equals(&self, other: &Fr) -> (r: bool)
        ensures
            r <==> self@ == other@,
    {
        let mut i: usize = 0;
        while i < 32
            invariant
                i <= 32,
                forall|j: int| 0 <= j < i ==> self.repr@[j] == other.repr@[j],
            decreases 32 - i,
        {
            if self.repr[i] != other.repr[i] {
                return false;
            }
            i += 1;
        }
        proof {
            assert(self.repr@ =~= other.repr@);
        }
        true
    }
}

/// A byte sequence with a nonzero byte encodes a nonzero integer.
proof fn lemma_le_nat_nonzero(s: Seq<u8>, i: int)
    requires
        0 <= i < s.len(),
        s[i] != 0,
    ensures
        le_nat(s) != 0,
    decreases i,
{
    if i == 0 {
    } else {
        lemma_le_nat_nonzero(s.drop_first(), i - 1);
    }
}

/// An all-zero byte sequence encodes zero.
proof fn lemma_le_nat_all_zero(s: Seq<u8>)
    requires
        forall|j: int| 0 <= j < s.len() ==> s[j] == 0,
    ensures
        le_nat(s) == 0,
    decreases s.len(),
{
    if s.len() > 0 {
        lemma_le_nat_all_zero(s.drop_first());
    }
}

/// Relies on halo2curves' `Fr::from(u64)` and `to_repr`: the canonical
/// encoding of the field element with integer value `v`.
#[verifier::external_body]
fn fr_from_u64_raw(v: u64) -> (r: Fr)
    ensures
        le_nat(r@) == v as nat,
{
    Fr { repr: halo2curves::bn256::Fr::from(v).to_repr().into() }
}

/// Relies on halo2curves' `Fr::from_repr`: it succeeds exactly on the
/// canonical little-endian encodings, those whose value is below the
/// field order.
#[verifier::external_body]
fn fr_from_repr_raw(b: &[u8; 32]) -> (r: Option<Fr>)
    ensures
        r is Some <==> le_nat(b@) < fr_order(),
        (r matches Some(f) ==> f@ == b@),
{
    if bool::from(halo2curves::bn256::Fr::from_repr((*b).into()).is_some()) {
        Some(Fr { repr: *b })
    } else {
        None
    }
}

/// Relies on halo2curves' field multiplication: the product of the two
/// field elements, reduced modulo the field order.
#[verifier::external_body]
pub(crate) fn fr_mul(a: &Fr, b: &Fr) -> (r: Fr)
    ensures
        le_nat(r@) == (le_nat(a@) * le_nat(b@)) % fr_order(),
{
    let x = halo2curves::bn256::Fr::from_repr(a.repr.into()).unwrap();
    let y = halo2curves::bn256::Fr::from_repr(b.repr.into()).unwrap();
    Fr { repr: (x * y).to_repr().into() }
}

/// Relies on halo2curves' field subtraction: the difference of the two
/// field elements, modulo the field order.
#[verifier::external_body]
pub(crate) fn fr_sub(a: &Fr, b: &Fr) -> (r: Fr)
    ensures
        le_nat(r@) == (((le_nat(a@) + fr_order()) - le_nat(b@)) % (fr_order() as int)) as nat,
{
    let x = halo2curves::bn256::Fr::from_repr(a.repr.into()).unwrap();
    let y = halo2curves::bn256::Fr::from_repr(b.repr.into()).unwrap();
    Fr { repr: (x - y).to_repr().into() }
}

/// Relies on halo2curves' `Fr::invert`: defined exactly on nonzero
/// elements, where it returns the multiplicative inverse.
#[verifier::external_body]
pub(crate) fn fr_invert(a: &Fr) -> (r: Option<Fr>)
    ensures
        r is Some <==> le_nat(a@) != 0,
        (r matches Some(f) ==> f@ == fr_invert_of(a@)),
        (r matches Some(f) ==> (le_nat(f@) * le_nat(a@)) % fr_order() == 1),
{
    let x = halo2curves::bn256::Fr::from_repr(a.repr.into()).unwrap();
    let inv = x.invert();
    if bool::from(inv.is_some()) {
        Some(Fr { repr: inv.unwrap().to_repr().into() })
    } else {
        None
    }
}

/// Relies on halo2curves' `Fr::ROOT_OF_UNITY`: a primitive root of unity
/// of order two to the field's two-adicity, which is 28.
#[verifier::external_body]
pub(crate) fn fr_two_adic_root() -> (r: Fr)
    ensures
        pow_mod(le_nat(r@), vstd::arithmetic::power2::pow2(28), fr_order()) == 1,
        pow_mod(le_nat(r@), vstd::arithmetic::power2::pow2(27), fr_order()) != 1,
{
    Fr { repr: halo2curves::bn256::Fr::ROOT_OF_UNITY.to_repr().into() }
}

/// Relies on halo2curves' `Fr::from_uniform_bytes` on 64 bytes: the wide
/// little-endian integer reduced modulo the field order.
#[verifier::external_body]
pub(crate) fn fr_from_wide(d: &Vec<u8>) -> (r: Fr)
    requires
        d@.len() == 64,
    ensures
        le_nat(r@) == le_nat(d@) % fr_order(),
{
    let arr: [u8; 64] = d.as_slice().try_into().unwrap();
    Fr { repr: halo2curves::bn256::Fr::from_uniform_bytes(&arr).to_repr().into() }
}

/// The product of two scalars, with its canonical encoding pinned.
pub(crate) fn fr_mul_c(a: &Fr, b: &Fr) -> (r: Fr)
    ensures
        r@ == fr_mul_repr(a@, b@),
{
    let r = fr_mul(a, b);
    proof {
        use_type_invariant(&r);
    }
    r
}

/// The difference of two scalars, with its canonical encoding pinned.
pub(crate) fn fr_sub_c(a: &Fr, b: &Fr) -> (r: Fr)
    ensures
        r@ == fr_sub_repr(a@, b@),
{
    let r = fr_sub(a, b);
    proof {
        use_type_invariant(&r);
    }
    r
}

/// The scalar of integer value `v`, with its canonical encoding pinned.
pub(crate) fn fr_const(v: u64) -> (r: Fr)
    ensures
        r@ == nat_to_le(v as nat, 32),
        le_nat(r@) == v as nat,
{
    let r = Fr::from_u64(v);
    proof {
        use_type_invariant(&r);
    }
    r
}

} // verus!
