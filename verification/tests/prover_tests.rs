use halo2curves::ff::Field;
use halo2curves::ff::PrimeField;
use shplonk_prover::field::Fr;
use shplonk_prover::keys::SHPlonkProvingKey;
use shplonk_prover::prover::{AdviceSingle, InstanceSingle, SHPlonkProver};
use shplonk_prover::Error;

fn describe_circuit(
    advice_phases: &[u8],
    num_instance: u32,
    challenge_phases: &[u8],
    blinding: u32,
    constants: &[u32],
) -> Vec<u8> {
    let mut d = Vec::new();
    d.extend_from_slice(&(advice_phases.len() as u32).to_le_bytes());
    d.extend_from_slice(&num_instance.to_le_bytes());
    d.extend_from_slice(&(challenge_phases.len() as u32).to_le_bytes());
    d.extend_from_slice(&blinding.to_le_bytes());
    d.extend_from_slice(&(constants.len() as u32).to_le_bytes());
    d.extend_from_slice(advice_phases);
    d.extend_from_slice(challenge_phases);
    for c in constants {
        d.extend_from_slice(&c.to_le_bytes());
    }
    d
}

fn column(seed: u64, n: u64) -> Vec<Fr> {
    (0..n).map(|i| Fr::from_u64(seed.wrapping_mul(i + 1) + 11)).collect()
}

fn bound_prover(k: u32, key: &SHPlonkProvingKey) -> SHPlonkProver {
    let s = Fr::from_u64(987654321);
    let mut p = SHPlonkProver::new(k, &s);
    p.set_rng(&vec![1, 2, 3, 4]).unwrap();
    p.set_transcript(&vec![9, 9, 9]).unwrap();
    p.set_extended_domain(key).unwrap();
    p
}

#[test]
fn domain_sizes_are_powers_of_two() {
    let s = Fr::from_u64(5);
    let p = SHPlonkProver::new(4, &s);
    assert_eq!(p.k(), 4);
    assert_eq!(p.n(), 16);
}

#[test]
fn transitions_out_of_order_fail() {
    let s = Fr::from_u64(5);
    let data = describe_circuit(&[0], 1, &[], 2, &[]);
    let key = SHPlonkProvingKey::from(&data).unwrap();
    let mut p = SHPlonkProver::new(2, &s);
    // the transcript cannot be bound before the randomness source
    assert_eq!(p.set_transcript(&vec![0]), Err(Error::StateSequenceError));
    assert_eq!(p.set_extended_domain(&key), Err(Error::StateSequenceError));
    // committing before the domain is bound is out of order
    assert!(matches!(p.commit(&column(1, 4)), Err(Error::StateSequenceError)));
    assert_eq!(p.finalize_transcript().unwrap_err(), Error::StateSequenceError);
    p.set_rng(&vec![7]).unwrap();
    // the randomness source cannot be bound twice
    assert_eq!(p.set_rng(&vec![7]), Err(Error::StateSequenceError));
    p.set_transcript(&vec![1]).unwrap();
    p.set_extended_domain(&key).unwrap();
    assert!(p.commit(&column(1, 4)).is_ok());
    p.finalize_transcript().unwrap();
    // a finalized prover cannot be reused
    assert!(p.finalize_transcript().is_err());
    assert!(matches!(p.commit(&column(1, 4)), Err(Error::StateSequenceError)));
}

#[test]
fn commit_rejects_polynomials_of_the_wrong_size() {
    let data = describe_circuit(&[0], 1, &[], 2, &[]);
    let key = SHPlonkProvingKey::from(&data).unwrap();
    let p = bound_prover(3, &key);
    assert!(matches!(p.commit(&column(1, 7)), Err(Error::SizeMismatchError)));
    assert!(matches!(p.commit_lagrange(&column(1, 9)), Err(Error::SizeMismatchError)));
    assert!(p.commit(&column(1, 8)).is_ok());
    assert!(p.commit_lagrange(&column(1, 8)).is_ok());
}

#[test]
fn lagrange_and_coefficient_commitments_differ() {
    // the two basis sets must not be conflated: the same column commits
    // differently in the two forms
    let data = describe_circuit(&[0], 1, &[], 2, &[]);
    let key = SHPlonkProvingKey::from(&data).unwrap();
    let p = bound_prover(3, &key);
    let poly = column(5, 8);
    let a = p.commit(&poly).unwrap();
    let b = p.commit_lagrange(&poly).unwrap();
    assert_ne!(a.to_bytes(), b.to_bytes());
}

#[test]
fn advice_commitment_scenario() {
    // domain size 16: one instance column and one advice column with a
    // blinding scalar
    let data = describe_circuit(&[0], 1, &[], 3, &[]);
    let key = SHPlonkProvingKey::from(&data).unwrap();
    let mut p = bound_prover(4, &key);
    let advice = column(77, 16);
    let c = p.commit_lagrange(&advice).unwrap();
    assert!(!c.is_identity());
    // absorbing it and squeezing yields a canonical field element
    let mut t = shplonk_prover::transcript::Blake2bWrite::from_state(&p.n().to_le_bytes().to_vec());
    t.common_point(&c).unwrap();
    let challenge = t.squeeze_challenge();
    assert!(Fr::from_repr(&challenge.to_repr()).is_some());
    // the full rounds accept the same witness
    let instance = InstanceSingle {
        instance_values: vec![column(3, 16)],
        instance_polys: vec![column(4, 16)],
    };
    let advice_single = AdviceSingle {
        advice_polys: vec![advice],
        advice_blinds: vec![Fr::from_u64(6)],
    };
    assert!(p.create_proof(&key, vec![instance], vec![advice_single], vec![]).is_ok());
    let proof = p.finalize_transcript().unwrap();
    assert!(!proof.is_empty());
}

#[test]
fn create_proof_rejects_missing_advice_columns() {
    // the key declares two advice columns and one challenge; one advice
    // vector is not enough
    let data = describe_circuit(&[0, 0], 1, &[0], 3, &[]);
    let key = SHPlonkProvingKey::from(&data).unwrap();
    let mut p = bound_prover(4, &key);
    let instance = InstanceSingle {
        instance_values: vec![column(3, 16)],
        instance_polys: vec![column(4, 16)],
    };
    let advice_single = AdviceSingle {
        advice_polys: vec![column(77, 16)],
        advice_blinds: vec![Fr::from_u64(6)],
    };
    let r = p.create_proof(&key, vec![instance], vec![advice_single], vec![Fr::from_u64(1)]);
    assert_eq!(r, Err(Error::SizeMismatchError));
}

#[test]
fn create_proof_rejects_a_wrong_challenge_count() {
    let data = describe_circuit(&[0], 1, &[0], 3, &[]);
    let key = SHPlonkProvingKey::from(&data).unwrap();
    let mut p = bound_prover(3, &key);
    let r = p.create_proof(&key, vec![], vec![], vec![]);
    assert_eq!(r, Err(Error::SizeMismatchError));
}

#[test]
fn create_proof_rejects_an_identity_commitment() {
    // an all-zero advice column commits to the point at infinity, which
    // the transcript must never accept
    let data = describe_circuit(&[0], 0, &[], 3, &[]);
    let key = SHPlonkProvingKey::from(&data).unwrap();
    let mut p = bound_prover(3, &key);
    let advice_single = AdviceSingle {
        advice_polys: vec![vec![Fr::from_u64(0); 8]],
        advice_blinds: vec![Fr::from_u64(6)],
    };
    let r = p.create_proof(&key, vec![], vec![advice_single], vec![]);
    assert_eq!(r, Err(Error::InvalidPointError));
}

#[test]
fn proofs_are_deterministic_across_runs() {
    let data = describe_circuit(&[0, 1], 2, &[1], 3, &[0]);
    let key = SHPlonkProvingKey::from(&data).unwrap();
    let run = || {
        let mut p = bound_prover(4, &key);
        let instance = InstanceSingle {
            instance_values: vec![column(3, 16), column(8, 16)],
            instance_polys: vec![column(4, 16), column(9, 16)],
        };
        let advice_single = AdviceSingle {
            advice_polys: vec![column(77, 16), column(78, 16)],
            advice_blinds: vec![Fr::from_u64(6), Fr::from_u64(7)],
        };
        p.create_proof(&key, vec![instance], vec![advice_single], vec![Fr::from_u64(42)])
            .unwrap();
        p.finalize_transcript().unwrap()
    };
    let first = run();
    let second = run();
    assert_eq!(first, second);
    assert!(!first.is_empty());
}

#[test]
fn the_proof_bytes_are_the_written_commitments() {
    let data = describe_circuit(&[0], 0, &[], 3, &[]);
    let key = SHPlonkProvingKey::from(&data).unwrap();
    let mut p = bound_prover(3, &key);
    let advice = column(21, 8);
    let expected = p.commit(&advice).unwrap();
    let advice_single = AdviceSingle {
        advice_polys: vec![advice],
        advice_blinds: vec![Fr::from_u64(1)],
    };
    p.create_proof(&key, vec![], vec![advice_single], vec![]).unwrap();
    let proof = p.finalize_transcript().unwrap();
    assert_eq!(proof, expected.to_bytes().to_vec());
}

#[test]
fn constant_polynomials_commit_equally_in_both_bases() {
    // a constant polynomial has coefficient form [c, 0, ...] and
    // evaluation form [c, c, ...]; its commitment must come out the same
    // under the coefficient and the Lagrange basis sets
    let data = describe_circuit(&[0], 1, &[], 2, &[]);
    let key = SHPlonkProvingKey::from(&data).unwrap();
    let p = bound_prover(3, &key);
    let c = Fr::from_u64(12345);
    let mut coeffs = vec![Fr::from_u64(0); 8];
    coeffs[0] = c;
    let evals = vec![c; 8];
    let a = p.commit(&coeffs).unwrap();
    let b = p.commit_lagrange(&evals).unwrap();
    assert_eq!(a.to_bytes(), b.to_bytes());
}

#[test]
fn linear_polynomials_commit_equally_in_both_bases() {
    // p(x) = a + b x, evaluated over the domain of size 8: the two
    // commitment paths agree only if the evaluation-basis derivation
    // (domain generator, inverses and all) is right
    let data = describe_circuit(&[0], 1, &[], 2, &[]);
    let key = SHPlonkProvingKey::from(&data).unwrap();
    let p = bound_prover(3, &key);
    let a = halo2curves::bn256::Fr::from(17u64);
    let b = halo2curves::bn256::Fr::from(23u64);
    let omega = root_of_unity_for_domain(3);
    let mut coeffs = vec![Fr::from_u64(0); 8];
    coeffs[0] = Fr::from_u64(17);
    coeffs[1] = Fr::from_u64(23);
    let mut evals = Vec::new();
    let mut x = halo2curves::bn256::Fr::ONE;
    for _ in 0..8 {
        let y = a + b * x;
        evals.push(to_library_scalar(&y));
        x *= omega;
    }
    let ca = p.commit(&coeffs).unwrap();
    let cb = p.commit_lagrange(&evals).unwrap();
    assert_eq!(ca.to_bytes(), cb.to_bytes());
}

fn root_of_unity_for_domain(k: u32) -> halo2curves::bn256::Fr {
    let mut omega = halo2curves::bn256::Fr::ROOT_OF_UNITY;
    for _ in 0..(28 - k) {
        omega = omega.square();
    }
    omega
}

fn to_library_scalar(x: &halo2curves::bn256::Fr) -> Fr {
    let repr: [u8; 32] = x.to_repr().into();
    Fr::from_repr(&repr).unwrap()
}
