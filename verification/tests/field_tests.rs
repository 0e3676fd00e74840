use shplonk_prover::field::Fr;

/// The field order, little-endian.
const ORDER_LE: [u8; 32] = [
    0x01, 0x00, 0x00, 0xf0, 0x93, 0xf5, 0xe1, 0x43, 0x91, 0x70, 0xb9, 0x79, 0x48, 0xe8, 0x33,
    0x28, 0x5d, 0x58, 0x81, 0x81, 0xb6, 0x45, 0x50, 0xb8, 0x29, 0xa0, 0x31, 0xe1, 0x72, 0x4e,
    0x64, 0x30,
];

#[test]
fn from_u64_encodes_little_endian() {
    let f = Fr::from_u64(0x0102);
    let r = f.to_repr();
    assert_eq!(r[0], 2);
    assert_eq!(r[1], 1);
    assert!(r[2..].iter().all(|b| *b == 0));
}

#[test]
fn from_repr_accepts_only_canonical_encodings() {
    // the order itself is not canonical
    assert!(Fr::from_repr(&ORDER_LE).is_none());
    // one less is
    let mut below = ORDER_LE;
    below[0] = 0x00;
    let f = Fr::from_repr(&below).unwrap();
    assert_eq!(f.to_repr(), below);
}

#[test]
fn zero_detection_and_equality() {
    let z = Fr::from_u64(0);
    let one = Fr::from_u64(1);
    assert!(z.is_zero());
    assert!(!one.is_zero());
    assert!(one.equals(&Fr::from_u64(1)));
    assert!(!one.equals(&z));
}
