use shplonk_prover::field::Fr;
use shplonk_prover::keys::SHPlonkProvingKey;
use shplonk_prover::prover::SHPlonkProver;

/// A serialized circuit description: the five counts, the phase bytes,
/// and the fixed-constant column indices, all little-endian.
fn describe_circuit(
    advice_phases: &[u8],
    num_instance: u32,
    challenge_phases: &[u8],
    blinding: u32,
    constants: &[u32],
) -> Vec<u8> {
    let mut d = Vec::new();
    d.extend_from_slice(&(advice_phases.len() as u32).to_le_bytes());
    d.extend_from_slice(&num_instance.to_le_bytes());
    d.extend_from_slice(&(challenge_phases.len() as u32).to_le_bytes());
    d.extend_from_slice(&blinding.to_le_bytes());
    d.extend_from_slice(&(constants.len() as u32).to_le_bytes());
    d.extend_from_slice(advice_phases);
    d.extend_from_slice(challenge_phases);
    for c in constants {
        d.extend_from_slice(&c.to_le_bytes());
    }
    d
}

#[test]
fn parsing_reads_back_the_description() {
    let data = describe_circuit(&[0, 1], 1, &[1], 5, &[3, 7]);
    let key = SHPlonkProvingKey::from(&data).unwrap();
    assert_eq!(key.num_advice_columns(), 2);
    assert_eq!(key.num_instance_columns(), 1);
    assert_eq!(key.num_challenges(), 1);
    assert_eq!(key.blinding_factors(), 5);
    assert_eq!(key.advice_column_phases(), &vec![0u8, 1]);
    assert_eq!(key.challenge_phases(), &vec![1u8]);
    assert_eq!(key.constants(), &vec![3u32, 7]);
}

#[test]
fn truncated_description_is_rejected() {
    let mut data = describe_circuit(&[0, 1], 1, &[1], 5, &[3, 7]);
    data.pop();
    assert!(SHPlonkProvingKey::from(&data).is_none());
    assert!(SHPlonkProvingKey::from(&Vec::new()).is_none());
    assert!(SHPlonkProvingKey::from(&vec![0u8; 19]).is_none());
}

#[test]
fn oversized_description_is_rejected() {
    let mut data = describe_circuit(&[0, 1], 1, &[1], 5, &[3, 7]);
    data.push(0);
    assert!(SHPlonkProvingKey::from(&data).is_none());
}

#[test]
fn phases_run_up_to_the_largest_advice_phase() {
    let data = describe_circuit(&[0, 1, 1], 0, &[], 0, &[]);
    let key = SHPlonkProvingKey::from(&data).unwrap();
    assert_eq!(key.phases(), vec![0u8, 1]);
}

#[test]
fn phases_of_a_key_without_advice_is_the_zero_phase() {
    let data = describe_circuit(&[], 0, &[], 0, &[]);
    let key = SHPlonkProvingKey::from(&data).unwrap();
    assert_eq!(key.phases(), vec![0u8]);
}

#[test]
fn transcript_repr_is_memoized_and_domain_bound() {
    let data = describe_circuit(&[0, 0], 1, &[0], 4, &[1]);
    let mut key = SHPlonkProvingKey::from(&data).unwrap();
    let s = Fr::from_u64(33);
    let p1 = SHPlonkProver::new(3, &s);
    let r1 = key.transcript_repr(&p1);
    let r2 = key.transcript_repr(&p1);
    assert_eq!(r1.to_repr(), r2.to_repr());
    // another domain gives another binding
    let p2 = SHPlonkProver::new(4, &s);
    let r3 = key.transcript_repr(&p2);
    assert_ne!(r1.to_repr(), r3.to_repr());
    // and a different key gives a different representation
    let data2 = describe_circuit(&[0, 0], 2, &[0], 4, &[1]);
    let mut key2 = SHPlonkProvingKey::from(&data2).unwrap();
    let r4 = key2.transcript_repr(&p1);
    assert_ne!(r1.to_repr(), r4.to_repr());
}
