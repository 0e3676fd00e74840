use halo2curves::ff::FromUniformBytes;
use halo2curves::ff::PrimeField;
use shplonk_prover::curve::G1Point;
use shplonk_prover::field::Fr;
use shplonk_prover::transcript::Blake2bWrite;
use shplonk_prover::Error;

#[test]
fn identity_point_is_rejected_by_common_point() {
    let mut t = Blake2bWrite::init();
    let before = t.state();
    let id = G1Point::identity();
    assert_eq!(t.common_point(&id), Err(Error::InvalidPointError));
    assert_eq!(t.state(), before);
}

#[test]
fn identity_point_is_rejected_by_write_point() {
    let mut t = Blake2bWrite::init();
    let before = t.state();
    let id = G1Point::identity();
    assert_eq!(t.write_point(&id), Err(Error::InvalidPointError));
    assert_eq!(t.state(), before);
    assert!(t.finalize().is_empty());
}

#[test]
fn ordinary_point_is_absorbed() {
    let mut t = Blake2bWrite::init();
    let g = G1Point::generator();
    assert!(t.common_point(&g).is_ok());
    let mut t2 = Blake2bWrite::init();
    assert!(t2.write_point(&g).is_ok());
    // the proof buffer holds exactly the compressed encoding
    assert_eq!(t2.finalize(), g.to_bytes().to_vec());
}

#[test]
fn absorption_order_changes_the_challenge() {
    let a = Fr::from_u64(17);
    let b = Fr::from_u64(99);
    let mut t1 = Blake2bWrite::init();
    t1.common_scalar(&a).unwrap();
    t1.common_scalar(&b).unwrap();
    let mut t2 = Blake2bWrite::init();
    t2.common_scalar(&b).unwrap();
    t2.common_scalar(&a).unwrap();
    let c1 = t1.squeeze_challenge();
    let c2 = t2.squeeze_challenge();
    assert_ne!(c1.to_repr(), c2.to_repr());
}

#[test]
fn same_absorption_gives_the_same_challenge() {
    let a = Fr::from_u64(4242);
    let mut t1 = Blake2bWrite::init();
    t1.common_scalar(&a).unwrap();
    let mut t2 = Blake2bWrite::init();
    t2.common_scalar(&a).unwrap();
    assert_eq!(t1.squeeze_challenge().to_repr(), t2.squeeze_challenge().to_repr());
}

#[test]
fn exported_state_round_trips() {
    let mut t1 = Blake2bWrite::init();
    t1.common_scalar(&Fr::from_u64(7)).unwrap();
    t1.common_point(&G1Point::generator()).unwrap();
    // resume a fresh transcript from the exported state
    let snapshot = t1.state();
    let mut t2 = Blake2bWrite::from_state(&snapshot);
    let more = Fr::from_u64(1234567);
    t1.common_scalar(&more).unwrap();
    t2.common_scalar(&more).unwrap();
    assert_eq!(t1.squeeze_challenge().to_repr(), t2.squeeze_challenge().to_repr());
    // squeezing kept the state usable: continue absorbing on both
    t1.common_scalar(&Fr::from_u64(5)).unwrap();
    t2.common_scalar(&Fr::from_u64(5)).unwrap();
    assert_eq!(t1.squeeze_challenge().to_repr(), t2.squeeze_challenge().to_repr());
}

#[test]
fn squeeze_matches_direct_hash_computation() {
    let mut t = Blake2bWrite::init();
    let s = Fr::from_u64(31337);
    t.common_scalar(&s).unwrap();
    let c = t.squeeze_challenge();
    // recompute by hand: prefix 2 + encoding, then the challenge prefix 0
    let mut absorbed: Vec<u8> = Vec::new();
    absorbed.push(2);
    absorbed.extend_from_slice(&s.to_repr());
    absorbed.push(0);
    let digest = blake2b_simd::Params::new()
        .hash_length(64)
        .personal(b"Halo2-Transcript")
        .hash(&absorbed);
    let arr: [u8; 64] = digest.as_bytes().try_into().unwrap();
    let expected = halo2curves::bn256::Fr::from_uniform_bytes(&arr);
    let expected_repr: [u8; 32] = expected.to_repr().into();
    assert_eq!(c.to_repr(), expected_repr);
}

#[test]
fn challenge_is_a_canonical_field_element() {
    let mut t = Blake2bWrite::init();
    t.common_scalar(&Fr::from_u64(2)).unwrap();
    let c = t.squeeze_challenge();
    // a canonical encoding decodes; anything at or above the order would not
    assert!(Fr::from_repr(&c.to_repr()).is_some());
}

#[test]
fn write_scalar_emits_the_encoding() {
    let mut t = Blake2bWrite::init();
    let s = Fr::from_u64(77);
    t.write_scalar(&s).unwrap();
    assert_eq!(t.finalize(), s.to_repr().to_vec());
}

#[test]
fn different_points_absorb_differently() {
    let g = G1Point::generator();
    let h = g.mul_scalar(&Fr::from_u64(2));
    let mut t1 = Blake2bWrite::init();
    t1.common_point(&g).unwrap();
    let mut t2 = Blake2bWrite::init();
    t2.common_point(&h).unwrap();
    assert_ne!(t1.squeeze_challenge().to_repr(), t2.squeeze_challenge().to_repr());
}
