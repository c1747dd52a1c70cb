use halo2_machinelearning::field::{felt_from_i64, felt_to_i128, Felt};

const MODULUS_LE: [u8; 32] = [
    1, 0, 0, 0, 237, 48, 45, 153, 27, 249, 76, 9, 252, 152, 70, 34, 0, 0, 0, 0, 0, 0, 0, 0, 0, 0,
    0, 0, 0, 0, 0, 64,
];

const HALF_LE: [u8; 32] = [
    1, 0, 0, 128, 118, 152, 150, 204, 141, 124, 166, 4, 126, 76, 35, 17, 0, 0, 0, 0, 0, 0, 0, 0, 0,
    0, 0, 0, 0, 0, 0, 32,
];

fn le_bytes(n: u128) -> [u8; 32] {
    let mut b = [0u8; 32];
    b[..16].copy_from_slice(&n.to_le_bytes());
    b
}

#[test]
fn from_u64_has_its_value() {
    assert_eq!(Felt::from_u64(1234).to_repr(), le_bytes(1234));
    assert_eq!(Felt::zero().to_repr(), [0u8; 32]);
}

#[test]
fn add_and_mul_compute_in_the_field() {
    let a = Felt::from_u64(6);
    let b = Felt::from_u64(7);
    assert_eq!(a.add(&b).to_repr(), le_bytes(13));
    assert_eq!(a.mul(&b).to_repr(), le_bytes(42));
    let big = Felt::from_u64(u64::MAX);
    assert_eq!(big.mul(&big).to_repr(), le_bytes((u64::MAX as u128) * (u64::MAX as u128)));
}

#[test]
fn neg_gives_the_additive_inverse() {
    let one = Felt::from_u64(1);
    let minus_one = one.neg();
    let mut expected = MODULUS_LE;
    expected[0] = 0;
    assert_eq!(minus_one.to_repr(), expected);
    assert_eq!(minus_one.add(&one), Felt::zero());
    assert_eq!(Felt::zero().neg(), Felt::zero());
}

#[test]
fn from_repr_refuses_the_modulus() {
    assert_eq!(Felt::from_repr(MODULUS_LE), None);
    let mut below = MODULUS_LE;
    below[0] = 0;
    let x = Felt::from_repr(below).unwrap();
    assert_eq!(x.to_repr(), below);
    assert_eq!(Felt::from_repr(le_bytes(99)), Some(Felt::from_u64(99)));
    assert_eq!(Felt::from_repr([0xff; 32]), None);
}

#[test]
fn felt_to_i128_small_values() {
    assert_eq!(felt_to_i128(Felt::from_u64(5)), 5);
    assert_eq!(felt_to_i128(Felt::from_u64(5).neg()), -5);
    assert_eq!(felt_to_i128(Felt::zero()), 0);
    assert_eq!(felt_to_i128(Felt::from_u64(1).neg()), -1);
}

#[test]
fn felt_to_i128_around_two_inv() {
    let half = Felt::from_repr(HALF_LE).unwrap();
    assert_eq!(felt_to_i128(half), 22780157765709853045140381185842610177);
    let above = half.add(&Felt::from_u64(1));
    assert_eq!(felt_to_i128(above), -22780157765709853045140381185842610175);
}

#[test]
fn felt_to_i128_wraps_the_lower_bits() {
    let two_64 = Felt::from_u64(1 << 32).mul(&Felt::from_u64(1 << 32));
    let two_128 = two_64.mul(&two_64);
    assert_eq!(felt_to_i128(two_128.add(&Felt::from_u64(5))), 5);
    let two_127 = Felt::from_repr(le_bytes(1u128 << 127)).unwrap();
    assert_eq!(felt_to_i128(two_127), i128::MIN);
}

#[test]
fn felt_from_i64_values() {
    assert_eq!(felt_from_i64(17), Felt::from_u64(17));
    assert_eq!(felt_from_i64(0), Felt::zero());
    assert_eq!(felt_from_i64(-17), Felt::from_u64(17).neg());
    assert_eq!(felt_from_i64(i64::MIN), Felt::from_u64(1u64 << 63).neg());
}

#[test]
fn i64_round_trip() {
    for x in [0i64, 1, -1, 42, -42, i64::MAX, i64::MIN, 1 << 40, -(1 << 40)] {
        assert_eq!(felt_to_i128(felt_from_i64(x)), x as i128);
    }
}
