//! The prover: a stateful session that drives one proof.
//!
//! A prover is bound to a domain of size two to the `k` and to a trapdoor
//! scalar from which its commitment bases derive (an insecure, test-style
//! setup; a production setup sources them from a ceremony). It owns its
//! transcript and randomness state for the lifetime of one proof and
//! moves through a fixed sequence of states; a transition attempted out
//! of order fails with `StateSequenceError`, and a finalized prover
//! cannot be reused.

use vstd::prelude::*;

verus! {

use vstd::arithmetic::power2::pow2;
use crate::Error;
use crate::curve::{G1Point, g1_generator_seq, g1_identity_seq, g1_mul_of};
use crate::field::{Fr, fr_const, fr_invert, fr_invert_of, fr_mul_c, fr_mul_repr, fr_one_repr,
    fr_order, fr_sub_c, fr_sub_repr, fr_two_adic_root, fr_zero_repr, le_nat, nat_to_le, pow_mod};
use crate::msm::{fr_views, msm_compute, msm_fold, point_views};
use crate::transcript::{Blake2bWrite, point_absorption, scalar_absorption};

/// The states of a proof session, in the order they are passed through.
#[derive(Clone, Copy, Debug, PartialEq, Eq, Structural)]
pub enum ProverState {
    /// Constructed; nothing bound yet.
    Created,
    /// The blinding randomness source is seeded.
    RngBound,
    /// The transcript is seeded with its initial state.
    TranscriptBound,
    /// The extended-domain parameters are derived.
    DomainBound,
    /// Commitment rounds are running; more may follow.
    Committing,
    /// The proof bytes are drained; the session is over.
    Finalized,
}

/// Per-instance witness data: one pair of evaluated values and
/// coefficient-form polynomial per instance column.
pub struct InstanceSingle {
    /// The instance values, in evaluation form, one vector per column.
    pub instance_values: Vec<Vec<Fr>>,
    /// The same columns in coefficient form.
    pub instance_polys: Vec<Vec<Fr>>,
}

/// Per-instance advice data: the coefficient-form advice polynomials and
/// one blinding scalar per advice column.
pub struct AdviceSingle {
    /// The advice polynomials, in coefficient form, one per column.
    pub advice_polys: Vec<Vec<Fr>>,
    /// One commitment-masking scalar per advice column.
    pub advice_blinds: Vec<Fr>,
}

/// A prover session.
pub struct SHPlonkProver {
    k: u32,
    n: u64,
    state: ProverState,
    trapdoor: Fr,
    bases_coeff: Vec<G1Point>,
    bases_lag: Vec<G1Point>,
    omega: Fr,
    rng_state: Vec<u8>,
    transcript: Blake2bWrite,
    extended_k: u32,
}

impl SHPlonkProver {
    #[verifier::type_invariant]
    closed spec fn inv(self) -> bool {
        &&& self.k <= 28
        &&& self.n == pow2(self.k as nat)
        &&& self.bases_coeff@.len() == self.n
        &&& self.bases_lag@.len() == self.n
        &&& self.bases_coeff@.len() > 0 ==> self.bases_coeff@[0]@ == g1_generator_seq()
        &&& forall|i: int| 0 <= i < self.bases_coeff@.len() - 1
            ==> self.bases_coeff@[i + 1]@ == g1_mul_of(self.trapdoor@, self.bases_coeff@[i]@)
    }

    /// The log2 of the domain size.
    pub closed spec fn k_spec(&self) -> u32 {
        self.k
    }

    /// The domain size.
    pub closed spec fn n_spec(&self) -> u64 {
        self.n
    }

    /// The session state.
    pub closed spec fn state_spec(&self) -> ProverState {
        self.state
    }

    /// The trapdoor scalar's encoding.
    pub closed spec fn trapdoor_view(&self) -> Seq<u8> {
        self.trapdoor@
    }

    /// The commitment bases for coefficient-form polynomials: the
    /// powers-of-the-trapdoor multiples of the generator.
    pub closed spec fn coeff_bases_views(&self) -> Seq<Seq<u8>> {
        point_views(self.bases_coeff@)
    }

    /// The commitment bases for evaluation-form polynomials.
    pub closed spec fn lagrange_bases_views(&self) -> Seq<Seq<u8>> {
        point_views(self.bases_lag@)
    }

    /// The generator of the evaluation domain, derived from the curve
    /// library's two-adic root of unity.
    pub closed spec fn omega_view(&self) -> Seq<u8> {
        self.omega@
    }

    /// The seeded randomness state.
    pub closed spec fn rng_view(&self) -> Seq<u8> {
        self.rng_state@
    }

    /// Everything the owned transcript has absorbed.
    pub closed spec fn absorbed_view(&self) -> Seq<u8> {
        self.transcript.absorbed_view()
    }

    /// Everything the owned transcript has emitted into the proof buffer.
    pub closed spec fn output_view(&self) -> Seq<u8> {
        self.transcript.output_view()
    }

    /// The extended-domain parameter.
    pub closed spec fn extended_k_spec(&self) -> u32 {
        self.extended_k
    }

    /// A fresh session over a domain of size two to the `k`, with
    /// commitment bases derived from the trapdoor scalar `s`.
    ///
    /// `k` is limited by the field's two-adicity: a multiplicative
    /// evaluation domain of size two to the `k` exists only for `k` up
    /// to 28.
    pub fn new(k: u32, s: &Fr) -> (r: SHPlonkProver)
        requires
            k <= 28,
        ensures
            r.k_spec() == k,
            r.n_spec() == pow2(k as nat),
            r.state_spec() == ProverState::Created,
            r.trapdoor_view() == s@,
            r.coeff_bases_views().len() == r.n_spec(),
            r.lagrange_bases_views().len() == r.n_spec(),
            forall|i: int| 0 <= i < r.n_spec() ==> r.lagrange_bases_views()[i]
                == lagrange_basis_point(
                s@,
                r.omega_view(),
                g1_generator_seq(),
                k as nat,
                pow2(k as nat),
                i as nat,
            ),
            exists|root: Seq<u8>|
                {
                    &&& pow_mod(le_nat(root), vstd::arithmetic::power2::pow2(28), fr_order()) == 1
                    &&& pow_mod(le_nat(root), vstd::arithmetic::power2::pow2(27), fr_order()) != 1
                    &&& r.omega_view() == fr_sq_iter(root, (28 - k) as nat)
                },
            r.coeff_bases_views()[0] == g1_generator_seq(),
            forall|i: int| 0 <= i < r.n_spec() - 1
                ==> r.coeff_bases_views()[i + 1] == g1_mul_of(s@, r.coeff_bases_views()[i]),
            r.absorbed_view() == Seq::<u8>::empty(),
            r.output_view() == Seq::<u8>::empty(),
            r.rng_view() == Seq::<u8>::empty(),
            r.extended_k_spec() == k,
    {
        proof {
            vstd::bits::lemma_u64_pow2_no_overflow(k as nat);
            vstd::bits::lemma_u64_shl_is_mul(1u64, k as u64);
            vstd::arithmetic::power2::lemma_pow2_pos(k as nat);
            if (k as nat) < 28 {
                vstd::arithmetic::power2::lemma_pow2_strictly_increases(k as nat, 28);
            }
            vstd::arithmetic::power2::lemma2_to64();
        }
        let n: u64 = 1u64 << k;
        let n_usize: usize = n as usize;
        let gen = G1Point::generator();
        let mut bases_coeff: Vec<G1Point> = Vec::new();
        bases_coeff.push(gen);
        let mut i: usize = 1;
        while i < n_usize
            invariant
                1 <= i <= n_usize,
                bases_coeff@.len() == i,
                bases_coeff@[0]@ == g1_generator_seq(),
                forall|j: int| 0 <= j < i - 1
                    ==> bases_coeff@[j + 1]@ == g1_mul_of(s@, bases_coeff@[j]@),
            decreases n_usize - i,
        {
            let prev = bases_coeff[i - 1];
            let next = prev.mul_scalar(s);
            bases_coeff.push(next);
            i += 1;
        }
        let (bases_lag, omega) = build_lagrange_bases(k, n, s, &gen);
        SHPlonkProver {
            k,
            n,
            state: ProverState::Created,
            trapdoor: *s,
            bases_coeff,
            bases_lag,
            omega,
            rng_state: Vec::new(),
            transcript: Blake2bWrite::init(),
            extended_k: k,
        }
    }

    /// The log2 of the domain size.
    pub fn k(&self) -> (r: u32)
        ensures
            r == self.k_spec(),
    {
        self.k
    }

    /// The domain size.
    pub fn n(&self) -> (r: u64)
        ensures
            r == self.n_spec(),
            r == pow2(self.k_spec() as nat),
    {
        proof {
            use_type_invariant(self);
        }
        self.n
    }

    /// Seeds the blinding randomness source. Allowed once, first.
    pub fn set_rng(&mut self, state: &Vec<u8>) -> (r: Result<(), Error>)
        ensures
            r is Ok <==> old(self).state_spec() == ProverState::Created,
            r is Err ==> r == Result::<(), Error>::Err(Error::StateSequenceError)
                && *final(self) == *old(self),
            r is Ok ==> {
                &&& final(self).state_spec() == ProverState::RngBound
                &&& final(self).rng_view() == state@
                &&& unchanged_but_state_rng(*old(self), *final(self))
            },
    {
        proof {
            use_type_invariant(&*self);
        }
        if !matches!(self.state, ProverState::Created) {
            return Err(Error::StateSequenceError);
        }
        self.rng_state = state.clone();
        self.state = ProverState::RngBound;
        Ok(())
    }

    /// Seeds the transcript with its initial state, typically derived
    /// from the public inputs and the key's transcript representation.
    /// Allowed once, after the randomness source is bound.
    pub fn set_transcript(&mut self, state: &Vec<u8>) -> (r: Result<(), Error>)
        ensures
            r is Ok <==> old(self).state_spec() == ProverState::RngBound,
            r is Err ==> r == Result::<(), Error>::Err(Error::StateSequenceError)
                && *final(self) == *old(self),
            r is Ok ==> {
                &&& final(self).state_spec() == ProverState::TranscriptBound
                &&& final(self).absorbed_view() == state@
                &&& final(self).output_view() == Seq::<u8>::empty()
                &&& unchanged_but_state_transcript(*old(self), *final(self))
            },
    {
        proof {
            use_type_invariant(&*self);
        }
        if !matches!(self.state, ProverState::RngBound) {
            return Err(Error::StateSequenceError);
        }
        self.transcript = Blake2bWrite::from_state(state);
        self.state = ProverState::TranscriptBound;
        Ok(())
    }

    /// Derives the extended-domain parameter from the key: the smallest
    /// domain that accommodates the quotient degree implied by the key's
    /// blinding-factor count, capped at the field's two-adicity. Allowed
    /// once, after the transcript is bound.
    pub fn set_extended_domain(&mut self, pk: &crate::keys::SHPlonkProvingKey) -> (r: Result<
        (),
        Error,
    >)
        ensures
            r is Ok <==> old(self).state_spec() == ProverState::TranscriptBound,
            r is Err ==> r == Result::<(), Error>::Err(Error::StateSequenceError)
                && *final(self) == *old(self),
            r is Ok ==> {
                &&& final(self).state_spec() == ProverState::DomainBound
                &&& final(self).extended_k_spec() >= old(self).k_spec()
                &&& final(self).extended_k_spec() <= 28
                &&& (final(self).extended_k_spec() < 28 ==> pow2(
                    (final(self).extended_k_spec() - old(self).k_spec()) as nat,
                ) >= pk.blinding_spec() + 2)
                &&& (final(self).extended_k_spec() > old(self).k_spec() ==> pow2(
                    (final(self).extended_k_spec() - 1 - old(self).k_spec()) as nat,
                ) < pk.blinding_spec() + 2)
                &&& unchanged_but_state_extended(*old(self), *final(self))
            },
    {
        if !matches!(self.state, ProverState::TranscriptBound) {
            return Err(Error::StateSequenceError);
        }
        proof {
            use_type_invariant(&*self);
        }
        let d: u64 = pk.blinding_factors() as u64 + 2;
        let mut j: u32 = self.k;
        let mut cap: u64 = 1;
        proof {
            vstd::arithmetic::power2::lemma2_to64();
        }
        while cap < d && j < 28
            invariant
                self.k <= j <= 28,
                cap == pow2((j - self.k) as nat),
                j > self.k ==> pow2((j - 1 - self.k) as nat) < d,
            decreases 28 - j,
        {
            proof {
                vstd::arithmetic::power2::lemma2_to64();
                if ((j - self.k) as nat) < 28 {
                    vstd::arithmetic::power2::lemma_pow2_strictly_increases(
                        (j - self.k) as nat,
                        28,
                    );
                }
                vstd::arithmetic::power2::lemma_pow2_unfold((j + 1 - self.k) as nat);
            }
            cap = cap * 2;
            j = j + 1;
        }
        self.extended_k = j;
        self.state = ProverState::DomainBound;
        Ok(())
    }

    /// Commits to a coefficient-form polynomial: the multi-scalar
    /// multiplication of the powers-of-the-trapdoor bases by the
    /// coefficients. Allowed while committing; the caller absorbs the
    /// result into the transcript as the protocol round dictates.
    pub fn commit(&self, poly: &Vec<Fr>) -> (r: Result<G1Point, Error>)
        ensures
            r is Ok <==> (committing_allowed(self.state_spec()) && poly@.len() == self.n_spec()),
            !committing_allowed(self.state_spec()) ==> r == Result::<G1Point, Error>::Err(
                Error::StateSequenceError,
            ),
            committing_allowed(self.state_spec()) && poly@.len() != self.n_spec() ==> r
                == Result::<G1Point, Error>::Err(Error::SizeMismatchError),
            (r matches Ok(p) ==> p@ == msm_fold(fr_views(poly@), self.coeff_bases_views())),
    {
        proof {
            use_type_invariant(self);
        }
        if !matches!(self.state, ProverState::DomainBound | ProverState::Committing) {
            return Err(Error::StateSequenceError);
        }
        if poly.len() as u64 != self.n {
            return Err(Error::SizeMismatchError);
        }
        Ok(msm_compute(&self.bases_coeff, poly))
    }

    /// Commits to an evaluation-form polynomial: the multi-scalar
    /// multiplication of the Lagrange-basis bases by the evaluations.
    pub fn commit_lagrange(&self, poly: &Vec<Fr>) -> (r: Result<G1Point, Error>)
        ensures
            r is Ok <==> (committing_allowed(self.state_spec()) && poly@.len() == self.n_spec()),
            !committing_allowed(self.state_spec()) ==> r == Result::<G1Point, Error>::Err(
                Error::StateSequenceError,
            ),
            committing_allowed(self.state_spec()) && poly@.len() != self.n_spec() ==> r
                == Result::<G1Point, Error>::Err(Error::SizeMismatchError),
            (r matches Ok(p) ==> p@ == msm_fold(fr_views(poly@), self.lagrange_bases_views())),
    {
        proof {
            use_type_invariant(self);
        }
        if !matches!(self.state, ProverState::DomainBound | ProverState::Committing) {
            return Err(Error::StateSequenceError);
        }
        if poly.len() as u64 != self.n {
            return Err(Error::SizeMismatchError);
        }
        Ok(msm_compute(&self.bases_lag, poly))
    }

    /// Runs the commitment rounds this layer drives, in the canonical
    /// order: every instance column's commitment is absorbed, every
    /// advice column's commitment is absorbed and written into the proof
    /// buffer, and the externally derived challenges are absorbed last.
    ///
    /// Fails with `StateSequenceError` out of the committing states, with
    /// `SizeMismatchError` when the witness does not match the key's
    /// declared column counts or the domain size, and with
    /// `InvalidPointError` when a commitment is the point at infinity; on
    /// every failure the session is left untouched.
    pub fn create_proof(
        &mut self,
        key: &crate::keys::SHPlonkProvingKey,
        instance_singles: Vec<InstanceSingle>,
        advice_singles: Vec<AdviceSingle>,
        challenges: Vec<Fr>,
    ) -> (r: Result<(), Error>)
        ensures
            r is Ok <==> rounds_accepted(
                *old(self),
                *key,
                instance_singles@,
                advice_singles@,
                challenges@,
            ),
            !committing_allowed(old(self).state_spec()) ==> r == Result::<(), Error>::Err(
                Error::StateSequenceError,
            ),
            committing_allowed(old(self).state_spec()) && !sizes_match(
                *old(self),
                *key,
                instance_singles@,
                advice_singles@,
                challenges@,
            ) ==> r == Result::<(), Error>::Err(Error::SizeMismatchError),
            r is Err ==> r == Result::<(), Error>::Err(Error::StateSequenceError) || r
                == Result::<(), Error>::Err(Error::SizeMismatchError) || r == Result::<
                (),
                Error,
            >::Err(Error::InvalidPointError),
            r is Err ==> *final(self) == *old(self),
            r is Ok ==> {
                &&& final(self).state_spec() == ProverState::Committing
                &&& final(self).absorbed_view() == old(self).absorbed_view()
                    + rounds_absorption(
                    *old(self),
                    instance_singles@,
                    advice_singles@,
                    challenges@,
                )
                &&& final(self).output_view() == old(self).output_view() + rounds_output(
                    *old(self),
                    advice_singles@,
                )
                &&& final(self).k_spec() == old(self).k_spec()
                &&& final(self).n_spec() == old(self).n_spec()
                &&& final(self).trapdoor_view() == old(self).trapdoor_view()
                &&& final(self).coeff_bases_views() == old(self).coeff_bases_views()
                &&& final(self).lagrange_bases_views() == old(self).lagrange_bases_views()
                &&& final(self).omega_view() == old(self).omega_view()
                &&& final(self).rng_view() == old(self).rng_view()
                &&& final(self).extended_k_spec() == old(self).extended_k_spec()
            },
    {
        proof {
            use_type_invariant(&*self);
        }
        if !matches!(self.state, ProverState::DomainBound | ProverState::Committing) {
            return Err(Error::StateSequenceError);
        }
        // validate the witness shape against the key
        if challenges.len() != key.num_challenges() {
            return Err(Error::SizeMismatchError);
        }
        let ninst = key.num_instance_columns();
        let nadv = key.num_advice_columns();
        let mut i: usize = 0;
        while i < instance_singles.len()
            invariant
                *self == *old(self),
                committing_allowed(old(self).state_spec()),
                ninst == key.num_instance_spec(),
                i <= instance_singles@.len(),
                forall|m: int| 0 <= m < i ==> instance_shape_ok(
                    #[trigger] instance_singles@[m],
                    key.num_instance_spec() as nat,
                    old(self).n_spec() as nat,
                ),
            decreases instance_singles@.len() - i,
        {
            let single = &instance_singles[i];
            if single.instance_values.len() != ninst || single.instance_polys.len() != ninst {
                return Err(Error::SizeMismatchError);
            }
            let mut j: usize = 0;
            while j < ninst
                invariant
                    *self == *old(self),
                    committing_allowed(old(self).state_spec()),
                    ninst == key.num_instance_spec(),
                    0 <= i < instance_singles@.len(),
                    j <= ninst,
                    *single == instance_singles@[i as int],
                    single.instance_values@.len() == ninst,
                    single.instance_polys@.len() == ninst,
                    forall|q: int| 0 <= q < j ==> (#[trigger] single.instance_values@[q])@.len()
                        == old(self).n_spec(),
                    forall|q: int| 0 <= q < j ==> (#[trigger] single.instance_polys@[q])@.len()
                        == old(self).n_spec(),
                decreases ninst - j,
            {
                if single.instance_values[j].len() as u64 != self.n {
                    proof {
                        assert(!instance_shape_ok(
                            instance_singles@[i as int],
                            key.num_instance_spec() as nat,
                            old(self).n_spec() as nat,
                        ));
                    }
                    return Err(Error::SizeMismatchError);
                }
                if single.instance_polys[j].len() as u64 != self.n {
                    proof {
                        assert(!instance_shape_ok(
                            instance_singles@[i as int],
                            key.num_instance_spec() as nat,
                            old(self).n_spec() as nat,
                        ));
                    }
                    return Err(Error::SizeMismatchError);
                }
                j += 1;
            }
            i += 1;
        }
        let mut i: usize = 0;
        while i < advice_singles.len()
            invariant
                *self == *old(self),
                committing_allowed(old(self).state_spec()),
                nadv == key.advice_phases_view().len(),
                i <= advice_singles@.len(),
                forall|m: int| 0 <= m < i ==> advice_shape_ok(
                    #[trigger] advice_singles@[m],
                    key.advice_phases_view().len(),
                    old(self).n_spec() as nat,
                ),
            decreases advice_singles@.len() - i,
        {
            let single = &advice_singles[i];
            if single.advice_polys.len() != nadv || single.advice_blinds.len() != nadv {
                return Err(Error::SizeMismatchError);
            }
            let mut j: usize = 0;
            while j < nadv
                invariant
                    *self == *old(self),
                    committing_allowed(old(self).state_spec()),
                    nadv == key.advice_phases_view().len(),
                    0 <= i < advice_singles@.len(),
                    j <= nadv,
                    *single == advice_singles@[i as int],
                    single.advice_polys@.len() == nadv,
                    single.advice_blinds@.len() == nadv,
                    forall|q: int| 0 <= q < j ==> (#[trigger] single.advice_polys@[q])@.len()
                        == old(self).n_spec(),
                decreases nadv - j,
            {
                if single.advice_polys[j].len() as u64 != self.n {
                    proof {
                        assert(!advice_shape_ok(
                            advice_singles@[i as int],
                            key.advice_phases_view().len(),
                            old(self).n_spec() as nat,
                        ));
                    }
                    return Err(Error::SizeMismatchError);
                }
                j += 1;
            }
            i += 1;
        }
        proof {
            assert(sizes_match(*old(self), *key, instance_singles@, advice_singles@, challenges@));
        }
        // compute all commitments, rejecting the point at infinity before
        // anything is absorbed
        let mut ci_v: Vec<G1Point> = Vec::new();
        let mut i: usize = 0;
        while i < instance_singles.len()
            invariant
                *self == *old(self),
                self.inv(),
                committing_allowed(old(self).state_spec()),
                sizes_match(*old(self), *key, instance_singles@, advice_singles@, challenges@),
                i <= instance_singles@.len(),
                point_views(ci_v@) =~~= nested_commits(
                    instance_groups(instance_singles@).take(i as int),
                    old(self).lagrange_bases_views(),
                ),
                forall|m: int| 0 <= m < ci_v@.len() ==> (#[trigger] ci_v@[m])@
                    != g1_identity_seq(),
            decreases instance_singles@.len() - i,
        {
            let ghost igroups: Seq<Seq<Vec<Fr>>> = instance_groups(instance_singles@);
            let ghost lag_bases: Seq<Seq<u8>> = old(self).lagrange_bases_views();
            let single = &instance_singles[i];
            let mut j: usize = 0;
            while j < single.instance_values.len()
                invariant
                    *self == *old(self),
                    self.inv(),
                    committing_allowed(old(self).state_spec()),
                    sizes_match(*old(self), *key, instance_singles@, advice_singles@, challenges@),
                    igroups == instance_groups(instance_singles@),
                    lag_bases == old(self).lagrange_bases_views(),
                    0 <= i < instance_singles@.len(),
                    j <= single.instance_values@.len(),
                    *single == instance_singles@[i as int],
                    point_views(ci_v@) =~~= nested_commits(igroups.take(i as int), lag_bases)
                        + cols_commits(igroups[i as int].take(j as int), lag_bases),
                    forall|m: int| 0 <= m < ci_v@.len() ==> (#[trigger] ci_v@[m])@
                        != g1_identity_seq(),
                decreases single.instance_values@.len() - j,
            {
                proof {
                    assert(instance_shape_ok(
                        instance_singles@[i as int],
                        key.num_instance_spec() as nat,
                        old(self).n_spec() as nat,
                    ));
                }
                let c = msm_compute(&self.bases_lag, &single.instance_values[j]);
                proof {
                    assert(igroups[i as int] == instance_singles@[i as int].instance_values@);
                    assert(c@ == msm_fold(fr_views(igroups[i as int][j as int]@), lag_bases));
                }
                if c.is_identity() {
                    proof {
                        lemma_nested_commits_element(igroups, lag_bases, i as int, j as int);
                        let cs = nested_commits(igroups, lag_bases);
                        let t = choose|t: int| 0 <= t < cs.len() && cs[t] == msm_fold(
                            fr_views(igroups[i as int][j as int]@),
                            lag_bases,
                        );
                        assert(cs[t] == g1_identity_seq());
                        assert(!no_identity(cs));
                    }
                    return Err(Error::InvalidPointError);
                }
                let ghost prev = ci_v@;
                ci_v.push(c);
                proof {
                    assert(point_views(ci_v@) =~~= point_views(prev).push(c@));
                    assert(cols_commits(igroups[i as int].take(j + 1), lag_bases) =~~= cols_commits(
                        igroups[i as int].take(j as int),
                        lag_bases,
                    ).push(msm_fold(fr_views(igroups[i as int][j as int]@), lag_bases)));
                    assert(point_views(ci_v@) =~~= nested_commits(igroups.take(i as int), lag_bases)
                        + cols_commits(igroups[i as int].take(j + 1), lag_bases));
                }
                j += 1;
            }
            proof {
                assert(igroups[i as int].take(igroups[i as int].len() as int) =~~= igroups[
                    i as int
                ]);
                assert(igroups.take(i + 1).drop_last() =~~= igroups.take(i as int));
                assert(point_views(ci_v@) =~~= nested_commits(igroups.take(i + 1), lag_bases));
            }
            i += 1;
        }
        proof {
            let igroups = instance_groups(instance_singles@);
            assert(igroups.take(igroups.len() as int) =~~= igroups);
        }
        let mut ca_v: Vec<G1Point> = Vec::new();
        let mut i: usize = 0;
        while i < advice_singles.len()
            invariant
                *self == *old(self),
                self.inv(),
                committing_allowed(old(self).state_spec()),
                sizes_match(*old(self), *key, instance_singles@, advice_singles@, challenges@),
                i <= advice_singles@.len(),
                point_views(ci_v@) =~~= nested_commits(
                    instance_groups(instance_singles@),
                    old(self).lagrange_bases_views(),
                ),
                forall|m: int| 0 <= m < ci_v@.len() ==> (#[trigger] ci_v@[m])@
                    != g1_identity_seq(),
                point_views(ca_v@) =~~= nested_commits(
                    advice_groups(advice_singles@).take(i as int),
                    old(self).coeff_bases_views(),
                ),
                forall|m: int| 0 <= m < ca_v@.len() ==> (#[trigger] ca_v@[m])@
                    != g1_identity_seq(),
            decreases advice_singles@.len() - i,
        {
            let ghost agroups: Seq<Seq<Vec<Fr>>> = advice_groups(advice_singles@);
            let ghost coeff_bases: Seq<Seq<u8>> = old(self).coeff_bases_views();
            let single = &advice_singles[i];
            let mut j: usize = 0;
            while j < single.advice_polys.len()
                invariant
                    *self == *old(self),
                    self.inv(),
                    committing_allowed(old(self).state_spec()),
                    sizes_match(*old(self), *key, instance_singles@, advice_singles@, challenges@),
                    agroups == advice_groups(advice_singles@),
                    coeff_bases == old(self).coeff_bases_views(),
                    0 <= i < advice_singles@.len(),
                    j <= single.advice_polys@.len(),
                    *single == advice_singles@[i as int],
                    point_views(ci_v@) =~~= nested_commits(
                        instance_groups(instance_singles@),
                        old(self).lagrange_bases_views(),
                    ),
                    forall|m: int| 0 <= m < ci_v@.len() ==> (#[trigger] ci_v@[m])@
                        != g1_identity_seq(),
                    point_views(ca_v@) =~~= nested_commits(agroups.take(i as int), coeff_bases)
                        + cols_commits(agroups[i as int].take(j as int), coeff_bases),
                    forall|m: int| 0 <= m < ca_v@.len() ==> (#[trigger] ca_v@[m])@
                        != g1_identity_seq(),
                decreases single.advice_polys@.len() - j,
            {
                proof {
                    assert(advice_shape_ok(
                        advice_singles@[i as int],
                        key.advice_phases_view().len(),
                        old(self).n_spec() as nat,
                    ));
                }
                let c = msm_compute(&self.bases_coeff, &single.advice_polys[j]);
                proof {
                    assert(agroups[i as int] == advice_singles@[i as int].advice_polys@);
                    assert(c@ == msm_fold(fr_views(agroups[i as int][j as int]@), coeff_bases));
                }
                if c.is_identity() {
                    proof {
                        lemma_nested_commits_element(agroups, coeff_bases, i as int, j as int);
                        let cs = nested_commits(agroups, coeff_bases);
                        let t = choose|t: int| 0 <= t < cs.len() && cs[t] == msm_fold(
                            fr_views(agroups[i as int][j as int]@),
                            coeff_bases,
                        );
                        assert(cs[t] == g1_identity_seq());
                        assert(!no_identity(cs));
                    }
                    return Err(Error::InvalidPointError);
                }
                let ghost prev = ca_v@;
                ca_v.push(c);
                proof {
                    assert(point_views(ca_v@) =~~= point_views(prev).push(c@));
                    assert(cols_commits(agroups[i as int].take(j + 1), coeff_bases) =~~= cols_commits(
                        agroups[i as int].take(j as int),
                        coeff_bases,
                    ).push(msm_fold(fr_views(agroups[i as int][j as int]@), coeff_bases)));
                    assert(point_views(ca_v@) =~~= nested_commits(agroups.take(i as int), coeff_bases)
                        + cols_commits(agroups[i as int].take(j + 1), coeff_bases));
                }
                j += 1;
            }
            proof {
                assert(agroups[i as int].take(agroups[i as int].len() as int) =~~= agroups[
                    i as int
                ]);
                assert(agroups.take(i + 1).drop_last() =~~= agroups.take(i as int));
                assert(point_views(ca_v@) =~~= nested_commits(agroups.take(i + 1), coeff_bases));
            }
            i += 1;
        }
        proof {
            let agroups = advice_groups(advice_singles@);
            assert(agroups.take(agroups.len() as int) =~~= agroups);
            assert(rounds_accepted(
                *old(self),
                *key,
                instance_singles@,
                advice_singles@,
                challenges@,
            ));
        }
        // absorb and write, in the canonical order
        let mut t = Blake2bWrite::init();
        core::mem::swap(&mut t, &mut self.transcript);
        let mut i: usize = 0;
        while i < ci_v.len()
            invariant
                frame_fields(*self, *old(self)),
                committing_allowed(old(self).state_spec()),
                rounds_accepted(*old(self), *key, instance_singles@, advice_singles@, challenges@),
                i <= ci_v@.len(),
                point_views(ci_v@) =~~= nested_commits(
                    instance_groups(instance_singles@),
                    old(self).lagrange_bases_views(),
                ),
                forall|m: int| 0 <= m < ci_v@.len() ==> (#[trigger] ci_v@[m])@
                    != g1_identity_seq(),
                point_views(ca_v@) =~~= nested_commits(
                    advice_groups(advice_singles@),
                    old(self).coeff_bases_views(),
                ),
                forall|m: int| 0 <= m < ca_v@.len() ==> (#[trigger] ca_v@[m])@
                    != g1_identity_seq(),
                t.absorbed_view() =~= old(self).absorbed_view() + points_absorption(
                    point_views(ci_v@).take(i as int),
                ),
                t.output_view() == old(self).output_view(),
            decreases ci_v@.len() - i,
        {
            let res = t.common_point(&ci_v[i]);
            proof {
                assert(res is Ok);
                assert(point_views(ci_v@).take(i + 1).drop_last() =~~= point_views(ci_v@).take(
                    i as int,
                ));
                assert(t.absorbed_view() =~= old(self).absorbed_view() + points_absorption(
                    point_views(ci_v@).take(i + 1),
                ));
            }
            i += 1;
        }
        proof {
            assert(point_views(ci_v@).take(ci_v@.len() as int) =~~= point_views(ci_v@));
        }
        let ghost abs1: Seq<u8> = t.absorbed_view();
        let mut i: usize = 0;
        while i < ca_v.len()
            invariant
                frame_fields(*self, *old(self)),
                committing_allowed(old(self).state_spec()),
                rounds_accepted(*old(self), *key, instance_singles@, advice_singles@, challenges@),
                i <= ca_v@.len(),
                abs1 == old(self).absorbed_view() + points_absorption(
                    nested_commits(
                        instance_groups(instance_singles@),
                        old(self).lagrange_bases_views(),
                    ),
                ),
                point_views(ca_v@) =~~= nested_commits(
                    advice_groups(advice_singles@),
                    old(self).coeff_bases_views(),
                ),
                forall|m: int| 0 <= m < ca_v@.len() ==> (#[trigger] ca_v@[m])@
                    != g1_identity_seq(),
                t.absorbed_view() =~= abs1 + points_absorption(point_views(ca_v@).take(i as int)),
                t.output_view() =~= old(self).output_view() + points_output(
                    point_views(ca_v@).take(i as int),
                ),
            decreases ca_v@.len() - i,
        {
            let res = t.write_point(&ca_v[i]);
            proof {
                assert(res is Ok);
                assert(point_views(ca_v@).take(i + 1).drop_last() =~~= point_views(ca_v@).take(
                    i as int,
                ));
                assert(t.absorbed_view() =~= abs1 + points_absorption(
                    point_views(ca_v@).take(i + 1),
                ));
                assert(t.output_view() =~= old(self).output_view() + points_output(
                    point_views(ca_v@).take(i + 1),
                ));
            }
            i += 1;
        }
        proof {
            assert(point_views(ca_v@).take(ca_v@.len() as int) =~~= point_views(ca_v@));
        }
        let ghost abs2: Seq<u8> = t.absorbed_view();
        let ghost out2: Seq<u8> = t.output_view();
        let mut i: usize = 0;
        while i < challenges.len()
            invariant
                frame_fields(*self, *old(self)),
                committing_allowed(old(self).state_spec()),
                rounds_accepted(*old(self), *key, instance_singles@, advice_singles@, challenges@),
                i <= challenges@.len(),
                abs2 == old(self).absorbed_view() + points_absorption(
                    nested_commits(
                        instance_groups(instance_singles@),
                        old(self).lagrange_bases_views(),
                    ),
                ) + points_absorption(
                    nested_commits(
                        advice_groups(advice_singles@),
                        old(self).coeff_bases_views(),
                    ),
                ),
                out2 == old(self).output_view() + points_output(
                    nested_commits(
                        advice_groups(advice_singles@),
                        old(self).coeff_bases_views(),
                    ),
                ),
                t.absorbed_view() =~= abs2 + scalars_absorption(
                    fr_views(challenges@).take(i as int),
                ),
                t.output_view() == out2,
            decreases challenges@.len() - i,
        {
            let res = t.common_scalar(&challenges[i]);
            proof {
                assert(fr_views(challenges@).take(i + 1).drop_last() =~~= fr_views(
                    challenges@,
                ).take(i as int));
                assert(t.absorbed_view() =~= abs2 + scalars_absorption(
                    fr_views(challenges@).take(i + 1),
                ));
            }
            i += 1;
        }
        proof {
            assert(fr_views(challenges@).take(challenges@.len() as int) =~~= fr_views(challenges@));
        }
        self.transcript = t;
        self.state = ProverState::Committing;
        proof {
            assert(self.absorbed_view() =~= old(self).absorbed_view() + rounds_absorption(
                *old(self),
                instance_singles@,
                advice_singles@,
                challenges@,
            ));
            assert(self.output_view() =~= old(self).output_view() + rounds_output(
                *old(self),
                advice_singles@,
            ));
        }
        Ok(())
    }

    /// Drains the transcript's output buffer into the final proof bytes
    /// and ends the session: a finalized prover cannot be reused.
    pub fn finalize_transcript(&mut self) -> (r: Result<Vec<u8>, Error>)
        ensures
            r is Ok <==> committing_allowed(old(self).state_spec()),
            r is Err ==> r == Result::<Vec<u8>, Error>::Err(Error::StateSequenceError)
                && *final(self) == *old(self),
            (r matches Ok(v) ==> {
                &&& v@ == old(self).output_view()
                &&& final(self).state_spec() == ProverState::Finalized
                &&& final(self).output_view() == Seq::<u8>::empty()
                &&& final(self).k_spec() == old(self).k_spec()
                &&& final(self).n_spec() == old(self).n_spec()
            }),
    {
        proof {
            use_type_invariant(&*self);
        }
        if !matches!(self.state, ProverState::DomainBound | ProverState::Committing) {
            return Err(Error::StateSequenceError);
        }
        let mut t = Blake2bWrite::init();
        core::mem::swap(&mut t, &mut self.transcript);
        self.state = ProverState::Finalized;
        Ok(t.finalize())
    }
}

/// The commitments to a sequence of columns under fixed bases.
pub open spec fn cols_commits(cols: Seq<Vec<Fr>>, bases: Seq<Seq<u8>>) -> Seq<Seq<u8>> {
    cols.map_values(|col: Vec<Fr>| msm_fold(fr_views(col@), bases))
}

/// The commitments to a sequence of column groups, flattened in order.
pub open spec fn nested_commits(groups: Seq<Seq<Vec<Fr>>>, bases: Seq<Seq<u8>>) -> Seq<Seq<u8>>
    decreases groups.len(),
{
    if groups.len() == 0 {
        Seq::empty()
    } else {
        nested_commits(groups.drop_last(), bases) + cols_commits(groups.last(), bases)
    }
}

/// The instance columns of each circuit instance, in evaluation form.
pub open spec fn instance_groups(inst: Seq<InstanceSingle>) -> Seq<Seq<Vec<Fr>>> {
    inst.map_values(|s: InstanceSingle| s.instance_values@)
}

/// The advice columns of each circuit instance, in coefficient form.
pub open spec fn advice_groups(adv: Seq<AdviceSingle>) -> Seq<Seq<Vec<Fr>>> {
    adv.map_values(|s: AdviceSingle| s.advice_polys@)
}

/// What absorbing a sequence of points appends to the transcript state.
pub open spec fn points_absorption(cs: Seq<Seq<u8>>) -> Seq<u8>
    decreases cs.len(),
{
    if cs.len() == 0 {
        Seq::empty()
    } else {
        points_absorption(cs.drop_last()) + point_absorption(cs.last())
    }
}

/// What writing a sequence of points appends to the proof output buffer.
pub open spec fn points_output(cs: Seq<Seq<u8>>) -> Seq<u8>
    decreases cs.len(),
{
    if cs.len() == 0 {
        Seq::empty()
    } else {
        points_output(cs.drop_last()) + cs.last()
    }
}

/// What absorbing a sequence of scalars appends to the transcript state.
pub open spec fn scalars_absorption(ss: Seq<Seq<u8>>) -> Seq<u8>
    decreases ss.len(),
{
    if ss.len() == 0 {
        Seq::empty()
    } else {
        scalars_absorption(ss.drop_last()) + scalar_absorption(ss.last())
    }
}

/// No commitment in the sequence is the point at infinity.
pub open spec fn no_identity(cs: Seq<Seq<u8>>) -> bool {
    forall|i: int| 0 <= i < cs.len() ==> cs[i] != g1_identity_seq()
}

/// One circuit instance's witness has the shape the key declares: one
/// value vector and one polynomial per instance column, each of domain
/// length.
pub open spec fn instance_shape_ok(s: InstanceSingle, ninst: nat, n: nat) -> bool {
    &&& s.instance_values@.len() == ninst
    &&& s.instance_polys@.len() == ninst
    &&& forall|j: int| 0 <= j < s.instance_values@.len()
        ==> (#[trigger] s.instance_values@[j])@.len() == n
    &&& forall|j: int| 0 <= j < s.instance_polys@.len()
        ==> (#[trigger] s.instance_polys@[j])@.len() == n
}

/// One circuit instance's advice has the shape the key declares: one
/// polynomial of domain length and one blinding scalar per advice column.
pub open spec fn advice_shape_ok(s: AdviceSingle, nadv: nat, n: nat) -> bool {
    &&& s.advice_polys@.len() == nadv
    &&& s.advice_blinds@.len() == nadv
    &&& forall|j: int| 0 <= j < s.advice_polys@.len()
        ==> (#[trigger] s.advice_polys@[j])@.len() == n
}

/// The witness matches the key's declared column counts and the domain
/// size.
pub open spec fn witness_sizes_ok(
    ninst: nat,
    nadv: nat,
    nchal: nat,
    n: nat,
    inst: Seq<InstanceSingle>,
    adv: Seq<AdviceSingle>,
    chal: Seq<Fr>,
) -> bool {
    &&& chal.len() == nchal
    &&& forall|i: int| 0 <= i < inst.len() ==> instance_shape_ok(#[trigger] inst[i], ninst, n)
    &&& forall|i: int| 0 <= i < adv.len() ==> advice_shape_ok(#[trigger] adv[i], nadv, n)
}

/// Whether the commitment rounds accept: the session is committing, the
/// witness has the declared shape, and no commitment is the point at
/// infinity.
/// The witness matches the column counts this key declares and this
/// session's domain size.
pub open spec fn sizes_match(
    p: SHPlonkProver,
    key: crate::keys::SHPlonkProvingKey,
    inst: Seq<InstanceSingle>,
    adv: Seq<AdviceSingle>,
    chal: Seq<Fr>,
) -> bool {
    witness_sizes_ok(
        key.num_instance_spec() as nat,
        key.advice_phases_view().len(),
        key.challenge_phases_view().len(),
        p.n_spec() as nat,
        inst,
        adv,
        chal,
    )
}

/// Everything of a session except its transcript views is as in `orig`.
pub open spec fn frame_fields(cur: SHPlonkProver, orig: SHPlonkProver) -> bool {
    &&& cur.omega_view() == orig.omega_view()
    &&& cur.k_spec() == orig.k_spec()
    &&& cur.n_spec() == orig.n_spec()
    &&& cur.state_spec() == orig.state_spec()
    &&& cur.trapdoor_view() == orig.trapdoor_view()
    &&& cur.coeff_bases_views() == orig.coeff_bases_views()
    &&& cur.lagrange_bases_views() == orig.lagrange_bases_views()
    &&& cur.rng_view() == orig.rng_view()
    &&& cur.extended_k_spec() == orig.extended_k_spec()
}

pub open spec fn rounds_accepted(
    p: SHPlonkProver,
    key: crate::keys::SHPlonkProvingKey,
    inst: Seq<InstanceSingle>,
    adv: Seq<AdviceSingle>,
    chal: Seq<Fr>,
) -> bool {
    &&& committing_allowed(p.state_spec())
    &&& sizes_match(p, key, inst, adv, chal)
    &&& no_identity(nested_commits(instance_groups(inst), p.lagrange_bases_views()))
    &&& no_identity(nested_commits(advice_groups(adv), p.coeff_bases_views()))
}

/// What the commitment rounds append to the transcript state: the
/// instance commitments, then the advice commitments, then the
/// externally derived challenges, in order.
pub open spec fn rounds_absorption(
    p: SHPlonkProver,
    inst: Seq<InstanceSingle>,
    adv: Seq<AdviceSingle>,
    chal: Seq<Fr>,
) -> Seq<u8> {
    points_absorption(nested_commits(instance_groups(inst), p.lagrange_bases_views()))
        + points_absorption(nested_commits(advice_groups(adv), p.coeff_bases_views()))
        + scalars_absorption(fr_views(chal))
}

/// What the commitment rounds append to the proof output buffer: the
/// advice commitments' encodings, in order.
pub open spec fn rounds_output(p: SHPlonkProver, adv: Seq<AdviceSingle>) -> Seq<u8> {
    points_output(nested_commits(advice_groups(adv), p.coeff_bases_views()))
}

/// Each column's commitment is an element of the flattened commitment
/// sequence of its group.
proof fn lemma_nested_commits_element(
    groups: Seq<Seq<Vec<Fr>>>,
    bases: Seq<Seq<u8>>,
    i: int,
    j: int,
)
    requires
        0 <= i < groups.len(),
        0 <= j < groups[i].len(),
    ensures
        ({
            let cs = nested_commits(groups, bases);
            exists|t: int| 0 <= t < cs.len() && cs[t] == msm_fold(fr_views(groups[i][j]@), bases)
        }),
    decreases groups.len(),
{
    let cs = nested_commits(groups, bases);
    let prefix = nested_commits(groups.drop_last(), bases);
    if i == groups.len() - 1 {
        let t = prefix.len() + j;
        assert(cs[t as int] == cols_commits(groups.last(), bases)[j]);
        assert(0 <= t < cs.len() && cs[t as int] == msm_fold(fr_views(groups[i][j]@), bases));
    } else {
        assert(groups.drop_last()[i] == groups[i]);
        lemma_nested_commits_element(groups.drop_last(), bases, i, j);
        let t = choose|t: int| 0 <= t < prefix.len() && prefix[t] == msm_fold(
            fr_views(groups[i][j]@),
            bases,
        );
        assert(cs[t] == prefix[t]);
    }
}

/// Determinism: the commitment rounds' effect on the transcript and on
/// the proof bytes is a pure function of the session's bound state and
/// the witness. Two sessions with identical bases and transcript state,
/// given identical witness data, absorb and emit identical bytes — and
/// since every commitment is pinned to the same multi-scalar fold,
/// whichever backend computes it, the backend choice cannot change them.
pub proof fn lemma_create_proof_deterministic(
    p1: SHPlonkProver,
    p2: SHPlonkProver,
    inst: Seq<InstanceSingle>,
    adv: Seq<AdviceSingle>,
    chal: Seq<Fr>,
)
    requires
        p1.lagrange_bases_views() == p2.lagrange_bases_views(),
        p1.coeff_bases_views() == p2.coeff_bases_views(),
        p1.absorbed_view() == p2.absorbed_view(),
        p1.output_view() == p2.output_view(),
    ensures
        p1.absorbed_view() + rounds_absorption(p1, inst, adv, chal) == p2.absorbed_view()
            + rounds_absorption(p2, inst, adv, chal),
        p1.output_view() + rounds_output(p1, adv) == p2.output_view() + rounds_output(p2, adv),
{
}

/// Whether a session state admits commitment work.
pub open spec fn committing_allowed(s: ProverState) -> bool {
    s == ProverState::DomainBound || s == ProverState::Committing
}

/// Everything but the session state and randomness state is unchanged.
pub open spec fn unchanged_but_state_rng(a: SHPlonkProver, b: SHPlonkProver) -> bool {
    &&& b.omega_view() == a.omega_view()
    &&& b.k_spec() == a.k_spec()
    &&& b.n_spec() == a.n_spec()
    &&& b.trapdoor_view() == a.trapdoor_view()
    &&& b.coeff_bases_views() == a.coeff_bases_views()
    &&& b.lagrange_bases_views() == a.lagrange_bases_views()
    &&& b.absorbed_view() == a.absorbed_view()
    &&& b.output_view() == a.output_view()
    &&& b.extended_k_spec() == a.extended_k_spec()
}

/// Everything but the session state and transcript is unchanged.
pub open spec fn unchanged_but_state_transcript(a: SHPlonkProver, b: SHPlonkProver) -> bool {
    &&& b.omega_view() == a.omega_view()
    &&& b.k_spec() == a.k_spec()
    &&& b.n_spec() == a.n_spec()
    &&& b.trapdoor_view() == a.trapdoor_view()
    &&& b.coeff_bases_views() == a.coeff_bases_views()
    &&& b.lagrange_bases_views() == a.lagrange_bases_views()
    &&& b.rng_view() == a.rng_view()
    &&& b.extended_k_spec() == a.extended_k_spec()
}

/// Everything but the session state and extended-domain parameter is
/// unchanged.
pub open spec fn unchanged_but_state_extended(a: SHPlonkProver, b: SHPlonkProver) -> bool {
    &&& b.omega_view() == a.omega_view()
    &&& b.k_spec() == a.k_spec()
    &&& b.n_spec() == a.n_spec()
    &&& b.trapdoor_view() == a.trapdoor_view()
    &&& b.coeff_bases_views() == a.coeff_bases_views()
    &&& b.lagrange_bases_views() == a.lagrange_bases_views()
    &&& b.rng_view() == a.rng_view()
    &&& b.absorbed_view() == a.absorbed_view()
    &&& b.output_view() == a.output_view()
}

/// The encoding of a scalar squared `t` times in the field.
pub open spec fn fr_sq_iter(base: Seq<u8>, t: nat) -> Seq<u8>
    decreases t,
{
    if t == 0 {
        base
    } else {
        let p = fr_sq_iter(base, (t - 1) as nat);
        fr_mul_repr(p, p)
    }
}

/// The encoding of the `i`-th power of an encoded scalar.
pub open spec fn fr_pow_iter(base: Seq<u8>, i: nat) -> Seq<u8>
    decreases i,
{
    if i == 0 {
        fr_one_repr()
    } else {
        fr_mul_repr(fr_pow_iter(base, (i - 1) as nat), base)
    }
}

/// The commitment basis for the `i`-th Lagrange polynomial of the domain
/// of size `n` generated by `omega`, evaluated at the trapdoor `s`: the
/// generator multiplied by `omega^i * (s^n - 1) / (n * (s - omega^i))`.
/// The degenerate cases are spelled out: when the trapdoor lies in the
/// domain, the polynomial is one at its own domain element and zero
/// elsewhere; a vanishing denominator (impossible outside the domain)
/// yields the zero scalar.
pub open spec fn lagrange_basis_point(
    s: Seq<u8>,
    omega: Seq<u8>,
    gen: Seq<u8>,
    k: nat,
    n: nat,
    i: nat,
) -> Seq<u8> {
    let zh = fr_sub_repr(fr_sq_iter(s, k), fr_one_repr());
    let w = fr_pow_iter(omega, i);
    if le_nat(zh) == 0 {
        if w == s {
            gen
        } else {
            g1_identity_seq()
        }
    } else {
        let denom = fr_sub_repr(s, w);
        let li = if le_nat(denom) == 0 {
            fr_zero_repr()
        } else {
            fr_mul_repr(
                w,
                fr_mul_repr(
                    fr_mul_repr(zh, fr_invert_of(nat_to_le(n, 32))),
                    fr_invert_of(denom),
                ),
            )
        };
        g1_mul_of(li, gen)
    }
}

/// Derives the evaluation-domain generator and the commitment bases for
/// evaluation-form polynomials: for each domain index, the generator
/// multiplied by the value at the trapdoor of that index's Lagrange
/// polynomial.
fn build_lagrange_bases(k: u32, n: u64, s: &Fr, gen: &G1Point) -> (r: (Vec<G1Point>, Fr))
    requires
        k <= 28,
        n == pow2(k as nat),
    ensures
        r.0@.len() == n,
        forall|i: int| 0 <= i < n ==> r.0@[i]@ == lagrange_basis_point(
            s@,
            r.1@,
            gen@,
            k as nat,
            n as nat,
            i as nat,
        ),
        exists|root: Seq<u8>|
            {
                &&& pow_mod(le_nat(root), vstd::arithmetic::power2::pow2(28), fr_order()) == 1
                &&& pow_mod(le_nat(root), vstd::arithmetic::power2::pow2(27), fr_order()) != 1
                &&& r.1@ == fr_sq_iter(root, (28 - k) as nat)
            },
{
    proof {
        vstd::arithmetic::power2::lemma2_to64();
        vstd::arithmetic::power2::lemma_pow2_pos(k as nat);
        if (k as nat) < 28 {
            vstd::arithmetic::power2::lemma_pow2_strictly_increases(k as nat, 28);
        }
    }
    let n_usize: usize = n as usize;
    // the generator of the multiplicative subgroup of order n: square the
    // two-adic root down to it
    let mut omega = fr_two_adic_root();
    let ghost root: Seq<u8> = omega@;
    let mut j: u32 = 0;
    while j < 28 - k
        invariant
            k <= 28,
            j <= 28 - k,
            omega@ == fr_sq_iter(root, j as nat),
            pow_mod(le_nat(root), vstd::arithmetic::power2::pow2(28), fr_order()) == 1,
            pow_mod(le_nat(root), vstd::arithmetic::power2::pow2(27), fr_order()) != 1,
        decreases 28 - k - j,
    {
        omega = fr_mul_c(&omega, &omega);
        j += 1;
    }
    // the vanishing value s^n - 1
    let mut sn = *s;
    let mut j: u32 = 0;
    while j < k
        invariant
            j <= k,
            sn@ == fr_sq_iter(s@, j as nat),
        decreases k - j,
    {
        sn = fr_mul_c(&sn, &sn);
        j += 1;
    }
    let one = fr_const(1);
    let zh = fr_sub_c(&sn, &one);
    let mut r: Vec<G1Point> = Vec::new();
    if zh.is_zero() {
        // the trapdoor is a domain element: each Lagrange polynomial is
        // zero or one at it
        let mut w = one;
        let mut i: usize = 0;
        while i < n_usize
            invariant
                i <= n_usize,
                r@.len() == i,
                w@ == fr_pow_iter(omega@, i as nat),
                zh@ == fr_sub_repr(fr_sq_iter(s@, k as nat), fr_one_repr()),
                le_nat(zh@) == 0,
                forall|t: int| 0 <= t < i ==> r@[t]@ == lagrange_basis_point(
                    s@,
                    omega@,
                    gen@,
                    k as nat,
                    n as nat,
                    t as nat,
                ),
            decreases n_usize - i,
        {
            if w.equals(s) {
                r.push(*gen);
            } else {
                r.push(G1Point::identity());
            }
            proof {
                assert(r@[i as int]@ == lagrange_basis_point(
                    s@,
                    omega@,
                    gen@,
                    k as nat,
                    n as nat,
                    i as nat,
                ));
            }
            w = fr_mul_c(&w, &omega);
            i += 1;
        }
    } else {
        let n_fr = fr_const(n);
        let inv_n = fr_invert(&n_fr).unwrap();
        let zh_over_n = fr_mul_c(&zh, &inv_n);
        let mut w = one;
        let mut i: usize = 0;
        while i < n_usize
            invariant
                i <= n_usize,
                r@.len() == i,
                w@ == fr_pow_iter(omega@, i as nat),
                zh@ == fr_sub_repr(fr_sq_iter(s@, k as nat), fr_one_repr()),
                le_nat(zh@) != 0,
                zh_over_n@ == fr_mul_repr(zh@, fr_invert_of(nat_to_le(n as nat, 32))),
                forall|t: int| 0 <= t < i ==> r@[t]@ == lagrange_basis_point(
                    s@,
                    omega@,
                    gen@,
                    k as nat,
                    n as nat,
                    t as nat,
                ),
            decreases n_usize - i,
        {
            let denom = fr_sub_c(s, &w);
            // the denominator cannot vanish, since s^n - 1 is nonzero
            // only outside the domain; kept total regardless
            let li = match fr_invert(&denom) {
                Some(d) => fr_mul_c(&w, &fr_mul_c(&zh_over_n, &d)),
                None => fr_const(0),
            };
            r.push(gen.mul_scalar(&li));
            proof {
                assert(r@[i as int]@ == lagrange_basis_point(
                    s@,
                    omega@,
                    gen@,
                    k as nat,
                    n as nat,
                    i as nat,
                ));
            }
            w = fr_mul_c(&w, &omega);
            i += 1;
        }
    }
    (r, omega)
}

} // verus!
