use shplonk_prover::curve::G1Point;
use shplonk_prover::field::Fr;
use shplonk_prover::msm::{msm_naive, G1MSM};
use shplonk_prover::Error;

fn sample_bases(n: u64) -> Vec<G1Point> {
    let g = G1Point::generator();
    (0..n).map(|i| g.mul_scalar(&Fr::from_u64(i * i + 3))).collect()
}

fn sample_scalars(n: u64) -> Vec<Fr> {
    (0..n).map(|i| Fr::from_u64(i * 7 + 1)).collect()
}

#[test]
fn msm_matches_naive_for_several_sizes() {
    let engine = G1MSM::new(12);
    for n in [0u64, 1, 8, 1024] {
        let bases = sample_bases(n);
        let scalars = sample_scalars(n);
        let fast = engine.msm(&bases, &scalars).unwrap();
        let slow = msm_naive(&bases, &scalars).unwrap();
        assert_eq!(fast.to_bytes(), slow.to_bytes());
    }
}

#[test]
fn msm_matches_a_hand_computed_sum() {
    // 2*G + 3*(5*G) == 17*G
    let engine = G1MSM::new(4);
    let g = G1Point::generator();
    let bases = vec![g, g.mul_scalar(&Fr::from_u64(5))];
    let scalars = vec![Fr::from_u64(2), Fr::from_u64(3)];
    let r = engine.msm(&bases, &scalars).unwrap();
    assert_eq!(r.to_bytes(), g.mul_scalar(&Fr::from_u64(17)).to_bytes());
}

#[test]
fn empty_msm_is_the_identity() {
    let engine = G1MSM::new(4);
    let r = engine.msm(&Vec::new(), &Vec::new()).unwrap();
    assert!(r.is_identity());
    let r2 = msm_naive(&Vec::new(), &Vec::new()).unwrap();
    assert!(r2.is_identity());
}

#[test]
fn msm_length_mismatch_fails() {
    let engine = G1MSM::new(4);
    let bases = sample_bases(3);
    let scalars = sample_scalars(2);
    assert!(matches!(engine.msm(&bases, &scalars), Err(Error::SizeMismatchError)));
    assert!(matches!(msm_naive(&bases, &scalars), Err(Error::SizeMismatchError)));
}

#[test]
fn msm_over_engine_capacity_fails() {
    let engine = G1MSM::new(2);
    let bases = sample_bases(5);
    let scalars = sample_scalars(5);
    assert!(matches!(engine.msm(&bases, &scalars), Err(Error::SizeMismatchError)));
}

#[test]
fn scalar_zero_contributes_the_identity() {
    let engine = G1MSM::new(4);
    let g = G1Point::generator();
    let bases = vec![g];
    let scalars = vec![Fr::from_u64(0)];
    let r = engine.msm(&bases, &scalars).unwrap();
    assert!(r.is_identity());
}
