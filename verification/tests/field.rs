use ark_ff::{PrimeField, UniformRand};
use ark_std::test_rng;
use kzg::primitives::field::{limbs_less, modulus_bytes, modulus_limbs, Scalar};

const MODULUS_LIMBS: [u64; 4] =
    [0x43e1f593f0000001, 0x2833e84879b97091, 0xb85045b68181585d, 0x30644e72e131a029];

fn random_scalar<R: ark_std::rand::RngCore>(prng: &mut R) -> Scalar {
    Scalar::from_limbs(ark_bn254::Fr::rand(prng).into_bigint().0).unwrap()
}

#[test]
fn scalar_small_arithmetic() {
    let two = Scalar::from_u64(2);
    let three = Scalar::from_u64(3);
    assert_eq!(two.add(&three), Scalar::from_u64(5));
    assert_eq!(three.sub(&two), Scalar::one());
    assert_eq!(two.mul(&three), Scalar::from_u64(6));
    assert_eq!(two.sub(&two), Scalar::zero());
    assert_ne!(two.add(&three), two);
    assert_ne!(two.mul(&three), two);
}

#[test]
fn scalar_subtraction_wraps_around_the_modulus() {
    let minus_one = Scalar::zero().sub(&Scalar::one());
    let mut expected = MODULUS_LIMBS;
    expected[0] -= 1;
    assert_eq!(minus_one.to_limbs(), expected);
    assert_eq!(Scalar::one().neg(), minus_one);
    assert_eq!(minus_one.add(&Scalar::one()), Scalar::zero());
    assert_eq!(minus_one.mul(&minus_one), Scalar::one());
}

#[test]
fn scalar_negation_of_zero_is_zero() {
    assert_eq!(Scalar::zero().neg(), Scalar::zero());
    assert!(Scalar::zero().is_zero());
    assert!(!Scalar::one().is_zero());
}

#[test]
fn scalar_inverse() {
    assert_eq!(Scalar::zero().inverse(), None);
    assert_eq!(Scalar::one().inverse(), Some(Scalar::one()));
    let seven = Scalar::from_u64(7);
    let inv = seven.inverse().unwrap();
    assert_ne!(inv, seven);
    assert_eq!(seven.mul(&inv), Scalar::one());
    let mut prng = test_rng();
    for _ in 0..10 {
        let a = random_scalar(&mut prng);
        if !a.is_zero() {
            assert_eq!(a.mul(&a.inverse().unwrap()), Scalar::one());
        }
    }
}

#[test]
fn scalar_from_limbs_accepts_exactly_the_residues() {
    assert_eq!(Scalar::from_limbs(MODULUS_LIMBS), None);
    let mut below = MODULUS_LIMBS;
    below[0] -= 1;
    let top = Scalar::from_limbs(below).unwrap();
    assert_eq!(top.to_limbs(), below);
    assert_eq!(top.add(&Scalar::one()), Scalar::zero());
    assert_eq!(Scalar::from_limbs([u64::MAX; 4]), None);
    assert_eq!(Scalar::from_limbs([5, 0, 0, 0]), Some(Scalar::from_u64(5)));
    assert_eq!(Scalar::from_limbs([0, 0, 0, 0x30644e72e131a02a]), None);
}

#[test]
fn limbs_are_compared_from_the_top() {
    assert!(limbs_less(&[9, 0, 0, 1], &[0, 0, 0, 2]));
    assert!(!limbs_less(&[0, 0, 0, 2], &[9, 0, 0, 1]));
    assert!(limbs_less(&[1, 2, 3, 4], &[2, 2, 3, 4]));
    assert!(!limbs_less(&[1, 2, 3, 4], &[1, 2, 3, 4]));
    assert!(limbs_less(&[5, 9, 1, 4], &[0, 0, 2, 4]));
}

#[test]
fn modulus_is_the_order_of_bn254() {
    assert_eq!(modulus_limbs(), MODULUS_LIMBS);
    let bytes = modulus_bytes();
    assert_eq!(bytes.len(), 32);
    let mut expected = Vec::new();
    for limb in MODULUS_LIMBS.iter() {
        expected.extend_from_slice(&limb.to_le_bytes());
    }
    assert_eq!(bytes, expected);
    assert_eq!(bytes[0], 0x01);
    assert_eq!(bytes[31], 0x30);
}

#[test]
fn scalar_arithmetic_agrees_with_the_field_laws() {
    let mut prng = test_rng();
    for _ in 0..20 {
        let a = random_scalar(&mut prng);
        let b = random_scalar(&mut prng);
        let c = random_scalar(&mut prng);
        assert_eq!(a.add(&b), b.add(&a));
        assert_eq!(a.mul(&b), b.mul(&a));
        assert_eq!(a.add(&b).sub(&b), a);
        assert_eq!(a.add(&a.neg()), Scalar::zero());
        assert_eq!(a.mul(&b.add(&c)), a.mul(&b).add(&a.mul(&c)));
    }
}
