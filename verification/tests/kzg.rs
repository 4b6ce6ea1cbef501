use ark_ec::{AffineRepr, CurveGroup};
use ark_ff::{BigInt, PrimeField, UniformRand};
use ark_serialize::CanonicalSerialize;
use ark_std::test_rng;
use kzg::backend::arkworks_bn254::{
    KZGCommitment, KZGCommitmentScheme, KZGCommitmentSchemeBN254, KZGOpenProof,
};
use kzg::backend::points::{G1Point, G2Point, G1_UNCOMPRESSED_SIZE, G2_UNCOMPRESSED_SIZE};
use kzg::errs::KZGError;
use kzg::primitives::field::Scalar;
use kzg::primitives::poly::FpPolynomial;

fn s(n: u64) -> Scalar {
    Scalar::from_u64(n)
}

fn poly(coefs: &[u64]) -> FpPolynomial {
    FpPolynomial::from_coefs(coefs.iter().map(|c| s(*c)).collect())
}

fn random_scalar<R: ark_std::rand::RngCore>(prng: &mut R) -> Scalar {
    Scalar::from_limbs(ark_bn254::Fr::rand(prng).into_bigint().0).unwrap()
}

fn random_poly<R: ark_std::rand::RngCore>(prng: &mut R, degree: usize) -> FpPolynomial {
    let mut coefs = Vec::with_capacity(degree + 1);
    for _ in 0..degree + 1 {
        coefs.push(random_scalar(prng));
    }
    FpPolynomial::from_coefs(coefs)
}

fn setup<R: ark_std::rand::RngCore>(max_degree: usize, prng: &mut R) -> KZGCommitmentSchemeBN254 {
    let trapdoor = random_scalar(prng);
    KZGCommitmentScheme::new(max_degree, &trapdoor)
}

fn to_ark_g1(p: &G1Point) -> ark_bn254::G1Affine {
    if p.is_identity() {
        ark_bn254::G1Affine::identity()
    } else {
        ark_bn254::G1Affine::new_unchecked(
            ark_bn254::Fq::from(BigInt(p.x_limbs())),
            ark_bn254::Fq::from(BigInt(p.y_limbs())),
        )
    }
}

fn check_public_parameters_generation() {
    let param_size = 5;
    let mut prng = test_rng();
    let kzg_scheme = setup(param_size, &mut prng);
    let g1_power1 = kzg_scheme.public_parameter_group_1[1];
    let g2_power1 = kzg_scheme.public_parameter_group_2[1];

    for i in 0..param_size - 1 {
        let elem_first_group_1 = kzg_scheme.public_parameter_group_1[i];
        let elem_next_group_1 = kzg_scheme.public_parameter_group_1[i + 1];
        let elem_next_group_1_target = elem_next_group_1.pairing_with(&G2Point::generator());
        let elem_next_group_1_target_recomputed = elem_first_group_1.pairing_with(&g2_power1);
        assert!(elem_next_group_1_target.is_some());
        assert_eq!(elem_next_group_1_target_recomputed, elem_next_group_1_target);
    }

    let elem_first_group_2 = kzg_scheme.public_parameter_group_2[0];
    let elem_second_group_2 = kzg_scheme.public_parameter_group_2[1];
    let elem_next_group_2_target = G1Point::generator().pairing_with(&elem_second_group_2);
    let elem_next_group_2_target_recomputed = g1_power1.pairing_with(&elem_first_group_2);
    assert!(elem_next_group_2_target.is_some());
    assert_eq!(elem_next_group_2_target_recomputed, elem_next_group_2_target);
}

fn generation_of_crs() {
    let n = 1 << 5;
    let mut prng = test_rng();
    let kzg_scheme = setup(n, &mut prng);
    assert_eq!(kzg_scheme.public_parameter_group_1.len(), n + 1);
    assert_eq!(kzg_scheme.public_parameter_group_2.len(), 2);
}

#[test]
fn test_homomorphic_poly_com_elem() {
    let mut prng = test_rng();
    let pcs = setup(20, &mut prng);
    let one = Scalar::one();
    let two = one.add(&one);
    let three = two.add(&one);
    let four = three.add(&one);
    let six = three.add(&three);
    let eight = six.add(&two);
    let poly1 = FpPolynomial::from_coefs(vec![two, three, six]);

    let commitment1 = pcs.commit(&poly1).unwrap();

    let poly2 = FpPolynomial::from_coefs(vec![one, eight, four]);

    let commitment2 = pcs.commit(&poly2).unwrap();

    let poly_sum = poly1.add(&poly2);
    let commitment_sum = pcs.commit(&poly_sum).unwrap();
    let commitment_sum_computed = commitment1.add(&commitment2);
    assert_eq!(commitment_sum, commitment_sum_computed);

    let exponent = four.add(&one);
    let poly1_mult_5 = poly1.mul_scalar(&exponent);
    let commitment_poly1_mult_5 = pcs.commit(&poly1_mult_5).unwrap();
    let commitment_poly1_mult_5_hom = commitment1.mul(&exponent);
    assert_eq!(commitment_poly1_mult_5, commitment_poly1_mult_5_hom);
}

#[test]
fn test_public_parameters() {
    check_public_parameters_generation();
}

#[test]
fn test_generation_of_crs() {
    generation_of_crs();
}

#[test]
fn test_commit() {
    let mut prng = test_rng();
    let pcs = setup(10, &mut prng);
    let one = Scalar::one();
    let two = one.add(&one);
    let three = two.add(&one);
    let six = three.add(&three);

    let fq_poly = FpPolynomial::from_coefs(vec![two, three, six]);
    let commitment = pcs.commit(&fq_poly).unwrap();

    let coefs_poly_scalar: Vec<_> = fq_poly.get_coefs_ref().iter().cloned().collect();
    let mut expected_committed_value = G1Point::identity();

    for (i, coef) in coefs_poly_scalar.iter().enumerate() {
        let g_i = pcs.public_parameter_group_1[i];
        expected_committed_value = expected_committed_value.add(&g_i.mul(coef));
    }
    assert_eq!(expected_committed_value, commitment.0);
}

#[test]
fn test_eval() {
    let mut prng = test_rng();
    let pcs = setup(10, &mut prng);
    let one = Scalar::one();
    let two = one.add(&one);
    let three = two.add(&one);
    let four = three.add(&one);
    let six = three.add(&three);
    let seven = six.add(&one);
    let fq_poly = FpPolynomial::from_coefs(vec![one, two, four]);
    let point = one;
    let max_degree = fq_poly.degree();

    let degree = fq_poly.degree();
    let commitment_value = pcs.commit(&fq_poly).unwrap();

    let wrong_max_degree = 1;
    let res = pcs.prove(&fq_poly, &point, wrong_max_degree);
    assert!(res.is_err());

    let proof = pcs.prove(&fq_poly, &point, max_degree).unwrap();

    pcs.verify(&commitment_value, degree, &point, &seven, &proof).unwrap();

    let new_pcs = pcs.shrink_to_verifier_only().unwrap();
    new_pcs.verify(&commitment_value, degree, &point, &seven, &proof).unwrap();

    let wrong_eval = one;
    let res = pcs.verify(&commitment_value, degree, &point, &wrong_eval, &proof);
    assert!(res.is_err());
}

#[test]
fn setup_has_the_powers_of_the_trapdoor() {
    let trapdoor = s(3);
    let pcs = KZGCommitmentScheme::new(4, &trapdoor);
    assert_eq!(pcs.max_degree(), 4);
    assert_eq!(pcs.public_parameter_group_1.len(), 5);
    assert_eq!(pcs.public_parameter_group_1[0], G1Point::generator());
    let mut power = Scalar::one();
    for i in 0..5 {
        assert_eq!(pcs.public_parameter_group_1[i], G1Point::generator().mul(&power));
        power = power.mul(&trapdoor);
    }
    assert_eq!(pcs.public_parameter_group_1[4], G1Point::generator().mul(&s(81)));
    assert_eq!(pcs.public_parameter_group_2.len(), 2);
    assert_eq!(pcs.public_parameter_group_2[0], G2Point::generator());
    assert_eq!(pcs.public_parameter_group_2[1], G2Point::generator().mul(&trapdoor));
    let smallest = KZGCommitmentScheme::new(0, &trapdoor);
    assert_eq!(smallest.max_degree(), 0);
    assert_eq!(smallest.public_parameter_group_1.len(), 1);
}

#[test]
fn commit_a_constant() {
    let mut prng = test_rng();
    let pcs = setup(4, &mut prng);
    let p = poly(&[7]);
    assert_eq!(p.degree(), 0);
    let c = pcs.commit(&p).unwrap();
    assert_eq!(c.0, G1Point::generator().mul(&s(7)));
    assert_eq!(c, KZGCommitment::get_base().mul(&s(7)));
    let proof = pcs.prove(&p, &s(3), 0).unwrap();
    assert_eq!(proof, KZGCommitment::get_identity());
    assert!(proof.0.is_identity());
    assert_eq!(pcs.verify(&c, 0, &s(3), &s(7), &proof), Ok(()));
    assert_eq!(pcs.verify(&c, 0, &s(3), &s(8), &proof), Err(KZGError::PCSProveEvalError));
}

#[test]
fn open_a_linear_polynomial() {
    let mut prng = test_rng();
    let pcs = setup(4, &mut prng);
    let p = poly(&[1, 2]);
    let z = s(5);
    let y = pcs.eval(&p, &z);
    assert_eq!(y, s(11));
    let c = pcs.commit(&p).unwrap();
    let proof = pcs.prove(&p, &z, 1).unwrap();
    assert_eq!(proof.0, G1Point::generator().mul(&s(2)));
    assert_eq!(proof, pcs.commit(&poly(&[2])).unwrap());
    assert_eq!(pcs.verify(&c, 1, &z, &y, &proof), Ok(()));
    assert_eq!(pcs.verify(&c, 1, &z, &s(12), &proof), Err(KZGError::PCSProveEvalError));
}

#[test]
fn proof_commits_to_the_quotient() {
    let mut prng = test_rng();
    let pcs = setup(8, &mut prng);
    // X^3 - 1 = (X - 1)(X^2 + X + 1)
    let p = FpPolynomial::from_coefs(vec![s(1).neg(), s(0), s(0), s(1)]);
    let proof = pcs.prove(&p, &s(1), 3).unwrap();
    assert_eq!(proof, pcs.commit(&poly(&[1, 1, 1])).unwrap());
    let c = pcs.commit(&p).unwrap();
    assert_eq!(pcs.verify(&c, 3, &s(1), &s(0), &proof), Ok(()));
    // opening at a point where the value is not zero
    let p = poly(&[3, 0, 1]);
    let z = s(2);
    assert_eq!(p.eval(&z), s(7));
    // X^2 + 3 - 7 = (X - 2)(X + 2)
    let proof = pcs.prove(&p, &z, 2).unwrap();
    assert_eq!(proof, pcs.commit(&poly(&[2, 1])).unwrap());
}

#[test]
fn commitments_are_homomorphic() {
    let mut prng = test_rng();
    let pcs = setup(6, &mut prng);
    let first = poly(&[2, 3, 6]);
    let second = poly(&[1, 8, 4]);
    let c_first = pcs.commit(&first).unwrap();
    let c_second = pcs.commit(&second).unwrap();
    assert_eq!(pcs.commit(&first.add(&second)).unwrap(), c_first.add(&c_second));
    assert_eq!(pcs.commit(&first.mul_scalar(&s(5))).unwrap(), c_first.mul(&s(5)));
    assert_eq!(pcs.commit(&first.sub(&second)).unwrap(), c_first.sub(&c_second));
    for _ in 0..3 {
        let p = random_poly(&mut prng, 6);
        let q = random_poly(&mut prng, 4);
        let lambda = random_scalar(&mut prng);
        let cp = pcs.commit(&p).unwrap();
        let cq = pcs.commit(&q).unwrap();
        assert_eq!(pcs.commit(&p.add(&q)).unwrap(), cp.add(&cq));
        assert_eq!(pcs.commit(&p.mul_scalar(&lambda)).unwrap(), cp.mul(&lambda));
    }
}

#[test]
fn over_degree_is_rejected() {
    let mut prng = test_rng();
    let pcs = setup(2, &mut prng);
    assert_eq!(pcs.max_degree(), 2);
    assert_eq!(pcs.commit(&poly(&[1, 2, 3, 4])), Err(KZGError::DegreeError));
    assert!(pcs.commit(&poly(&[1, 2, 3])).is_ok());
    assert_eq!(pcs.prove(&poly(&[1, 2, 3]), &s(1), 1), Err(KZGError::DegreeError));
    assert!(pcs.prove(&poly(&[1, 2, 3]), &s(1), 2).is_ok());
    // the quotient of a polynomial of degree 3 fits, although the polynomial does not
    assert!(pcs.prove(&poly(&[1, 2, 3, 4]), &s(1), 3).is_ok());
    assert_eq!(pcs.prove(&poly(&[1, 2, 3, 4, 5]), &s(1), 4), Err(KZGError::DegreeError));
}

#[test]
fn honest_openings_are_accepted() {
    let mut prng = test_rng();
    let pcs = setup(12, &mut prng);
    for degree in [0usize, 1, 2, 5, 12] {
        let p = random_poly(&mut prng, degree);
        let z = random_scalar(&mut prng);
        let y = p.eval(&z);
        let c = pcs.commit(&p).unwrap();
        let proof = pcs.prove(&p, &z, p.degree()).unwrap();
        assert_eq!(pcs.verify(&c, p.degree(), &z, &y, &proof), Ok(()));
    }
}

#[test]
fn wrong_evaluations_are_rejected() {
    let mut prng = test_rng();
    let pcs = setup(8, &mut prng);
    for _ in 0..3 {
        let p = random_poly(&mut prng, 8);
        let z = random_scalar(&mut prng);
        let y = p.eval(&z);
        let c = pcs.commit(&p).unwrap();
        let proof = pcs.prove(&p, &z, p.degree()).unwrap();
        let wrong = y.add(&Scalar::one());
        assert_eq!(
            pcs.verify(&c, p.degree(), &z, &wrong, &proof),
            Err(KZGError::PCSProveEvalError)
        );
        assert_eq!(
            pcs.verify(&c, p.degree(), &z, &Scalar::zero(), &proof),
            Err(KZGError::PCSProveEvalError)
        );
        let other = proof.add(&KZGCommitment::get_base());
        assert_eq!(pcs.verify(&c, p.degree(), &z, &y, &other), Err(KZGError::PCSProveEvalError));
    }
}

#[test]
fn opening_at_a_root_takes_the_short_path() {
    let mut prng = test_rng();
    let pcs = setup(4, &mut prng);
    let p = FpPolynomial::from_zeroes(&[s(2), s(9)]);
    let c = pcs.commit(&p).unwrap();
    let proof = pcs.prove(&p, &s(9), 2).unwrap();
    assert_eq!(pcs.verify(&c, 2, &s(9), &s(0), &proof), Ok(()));
    assert_eq!(pcs.verify(&c, 2, &s(9), &s(1), &proof), Err(KZGError::PCSProveEvalError));
    assert_eq!(proof, pcs.commit(&FpPolynomial::from_zeroes(&[s(2)])).unwrap());
}

#[test]
fn verifier_only_string_gives_the_same_verdicts() {
    let mut prng = test_rng();
    let pcs = setup(6, &mut prng);
    let small = pcs.shrink_to_verifier_only().unwrap();
    assert_eq!(small.public_parameter_group_1, vec![pcs.public_parameter_group_1[0]]);
    assert_eq!(small.public_parameter_group_2, pcs.public_parameter_group_2);
    assert_eq!(small.max_degree(), 0);
    let p = random_poly(&mut prng, 6);
    let z = random_scalar(&mut prng);
    let y = p.eval(&z);
    let c = pcs.commit(&p).unwrap();
    let proof = pcs.prove(&p, &z, 6).unwrap();
    for value in [y, y.add(&Scalar::one()), Scalar::zero()] {
        assert_eq!(
            small.verify(&c, 6, &z, &value, &proof),
            pcs.verify(&c, 6, &z, &value, &proof)
        );
    }
    assert_eq!(small.verify(&c, 6, &z, &y, &proof), Ok(()));
    assert_eq!(small.commit(&p), Err(KZGError::DegreeError));
}

#[test]
fn blind_factors_are_added_low_and_subtracted_high() {
    let mut prng = test_rng();
    let pcs = setup(10, &mut prng);
    let p = random_poly(&mut prng, 3);
    let c = pcs.commit(&p).unwrap();
    let blinds = [random_scalar(&mut prng), random_scalar(&mut prng)];
    let n = 4;
    let blinded = pcs.apply_blind_factors(&c, &blinds, n);
    let mut expected = c.0;
    for (i, b) in blinds.iter().enumerate() {
        expected = expected.add(&pcs.public_parameter_group_1[i].mul(b));
        expected = expected.sub(&pcs.public_parameter_group_1[n + i].mul(b));
    }
    assert_eq!(blinded.0, expected);
    assert_ne!(blinded, c);
    // the blinded commitment commits to p + B - X^n B
    let mut q = p.clone();
    for (i, b) in blinds.iter().enumerate() {
        q.add_coef_assign(b, i);
        q.add_coef_assign(&b.neg(), n + i);
    }
    assert_eq!(pcs.commit(&q).unwrap(), blinded);
    assert_eq!(pcs.apply_blind_factors(&c, &[], 100), c);
    let last = pcs.apply_blind_factors(&c, &blinds[..1], 10);
    assert_eq!(
        last.0,
        c.0.add(&pcs.public_parameter_group_1[0].mul(&blinds[0]))
            .sub(&pcs.public_parameter_group_1[10].mul(&blinds[0]))
    );
}

#[test]
fn unchecked_bytes_round_trip() {
    let mut prng = test_rng();
    let pcs = setup(5, &mut prng);
    let bytes = pcs.to_unchecked_bytes().unwrap();
    assert_eq!(bytes.len(), 8 + 6 * G1_UNCOMPRESSED_SIZE + 2 * G2_UNCOMPRESSED_SIZE);
    assert_eq!(&bytes[0..4], &6u32.to_le_bytes());
    assert_eq!(&bytes[4..8], &2u32.to_le_bytes());
    let back = KZGCommitmentScheme::from_unchecked_bytes(&bytes).unwrap();
    assert_eq!(back, pcs);
    let small = pcs.shrink_to_verifier_only().unwrap();
    let bytes = small.to_unchecked_bytes().unwrap();
    assert_eq!(bytes.len(), 8 + 64 + 256);
    assert_eq!(KZGCommitmentScheme::from_unchecked_bytes(&bytes).unwrap(), small);
}

#[test]
fn unchecked_bytes_layout() {
    let pcs = KZGCommitmentScheme::new(1, &s(1));
    let bytes = pcs.to_unchecked_bytes().unwrap();
    let mut generator = vec![0u8; 64];
    generator[0] = 1;
    generator[32] = 2;
    assert_eq!(&bytes[0..4], &[2, 0, 0, 0]);
    assert_eq!(&bytes[4..8], &[2, 0, 0, 0]);
    assert_eq!(&bytes[8..72], &generator[..]);
    assert_eq!(&bytes[72..136], &generator[..]);
    let mut by_ark = Vec::new();
    ark_bn254::G2Affine::generator().serialize_uncompressed(&mut by_ark).unwrap();
    assert_eq!(by_ark.len(), 128);
    assert_eq!(&bytes[136..264], &by_ark[..]);
    assert_eq!(&bytes[264..392], &by_ark[..]);
    assert_eq!(bytes.len(), 392);
}

#[test]
fn unchecked_bytes_ignore_what_follows() {
    let pcs = KZGCommitmentScheme::new(2, &s(7));
    let mut bytes = pcs.to_unchecked_bytes().unwrap();
    bytes.extend_from_slice(&[1, 2, 3]);
    assert_eq!(KZGCommitmentScheme::from_unchecked_bytes(&bytes).unwrap(), pcs);
}

#[test]
fn unchecked_bytes_of_an_empty_string() {
    let bytes = [0u8; 8];
    let empty = KZGCommitmentScheme::from_unchecked_bytes(&bytes).unwrap();
    assert!(empty.public_parameter_group_1.is_empty());
    assert!(empty.public_parameter_group_2.is_empty());
    assert_eq!(empty.to_unchecked_bytes().unwrap(), bytes.to_vec());
    assert_eq!(empty.commit(&poly(&[1])), Err(KZGError::DegreeError));
}

#[test]
fn malformed_bytes_are_rejected() {
    let pcs = KZGCommitmentScheme::new(2, &s(7));
    let bytes = pcs.to_unchecked_bytes().unwrap();
    for len in [0usize, 1, 7] {
        assert_eq!(
            KZGCommitmentScheme::from_unchecked_bytes(&bytes[..len]),
            Err(KZGError::DeserializationError)
        );
    }
    // the bytes run out inside the points of G1, between the groups, and inside G2
    for len in [8usize, 9, 71, 8 + 3 * 64 - 1, 8 + 3 * 64, 8 + 3 * 64 + 128, bytes.len() - 1] {
        assert_eq!(
            KZGCommitmentScheme::from_unchecked_bytes(&bytes[..len]),
            Err(KZGError::DeserializationError)
        );
    }
    // a coordinate that is not below the modulus of the base field
    let mut bad = bytes.clone();
    for b in bad[8..40].iter_mut() {
        *b = 0xff;
    }
    assert_eq!(
        KZGCommitmentScheme::from_unchecked_bytes(&bad),
        Err(KZGError::DeserializationError)
    );
    // both flag bits set
    let mut bad = bytes.clone();
    bad[8 + 63] |= 0xc0;
    assert_eq!(
        KZGCommitmentScheme::from_unchecked_bytes(&bad),
        Err(KZGError::DeserializationError)
    );
    let mut bad = bytes.clone();
    let last = bad.len() - 1;
    bad[last] |= 0xc0;
    assert_eq!(
        KZGCommitmentScheme::from_unchecked_bytes(&bad),
        Err(KZGError::DeserializationError)
    );
    // a count that announces more points than there are
    let mut bad = bytes.clone();
    bad[0] = 4;
    assert_eq!(
        KZGCommitmentScheme::from_unchecked_bytes(&bad),
        Err(KZGError::DeserializationError)
    );
    let mut bad = bytes.clone();
    bad[3] = 0xff;
    assert_eq!(
        KZGCommitmentScheme::from_unchecked_bytes(&bad),
        Err(KZGError::DeserializationError)
    );
}

#[test]
fn unchecked_bytes_are_not_checked_against_the_curve() {
    let pcs = KZGCommitmentScheme::new(0, &s(7));
    let mut bytes = pcs.to_unchecked_bytes().unwrap();
    // (1, 3) is not on the curve
    bytes[8 + 32] = 3;
    let read = KZGCommitmentScheme::from_unchecked_bytes(&bytes).unwrap();
    assert_eq!(read.public_parameter_group_1[0].x_limbs(), [1, 0, 0, 0]);
    assert_eq!(read.public_parameter_group_1[0].y_limbs(), [3, 0, 0, 0]);
    // the point at infinity is read back with zero coordinates
    let mut bytes = pcs.to_unchecked_bytes().unwrap();
    bytes[8 + 63] |= 0x40;
    let read = KZGCommitmentScheme::from_unchecked_bytes(&bytes).unwrap();
    assert_eq!(read.public_parameter_group_1[0], G1Point::identity());
}

#[test]
fn commitment_group_operations() {
    let base = KZGCommitment::get_base();
    let identity = KZGCommitment::get_identity();
    assert_eq!(base.0, G1Point::generator());
    assert_eq!(identity.0, G1Point::identity());
    assert_eq!(base.add(&identity), base);
    assert_eq!(base.sub(&base), identity);
    assert_eq!(base.add(&base), base.mul(&s(2)));
    assert_ne!(base.add(&base), base);
    assert_eq!(base.mul(&s(0)), identity);
    assert_eq!(base.mul(&s(5)).sub(&base.mul(&s(3))), base.mul(&s(2)));
    let mut c = base;
    c.add_assign(&base);
    assert_eq!(c, base.mul(&s(2)));
    c.mul_assign(&s(3));
    assert_eq!(c, base.mul(&s(6)));
    c.sub_assign(&base);
    assert_eq!(c, base.mul(&s(5)));
    // the order of the group is the modulus of the scalars
    let minus_one = Scalar::zero().sub(&Scalar::one());
    assert_eq!(base.mul(&minus_one).add(&base), identity);
}

#[test]
fn generators_are_those_of_bn254() {
    let g1 = G1Point::generator();
    assert!(!g1.is_identity());
    assert_eq!(g1.x_limbs(), [1, 0, 0, 0]);
    assert_eq!(g1.y_limbs(), [2, 0, 0, 0]);
    let g2 = G2Point::generator();
    assert!(!g2.is_identity());
    assert_eq!(
        g2.x_limbs(),
        [
            [0x46debd5cd992f6ed, 0x674322d4f75edadd, 0x426a00665e5c4479, 0x1800deef121f1e76],
            [0x97e485b7aef312c2, 0xf1aa493335a9e712, 0x7260bfb731fb5d25, 0x198e9393920d483a],
        ]
    );
    assert_eq!(
        g2.y_limbs(),
        [
            [0x4ce6cc0166fa7daa, 0xe3d1e7690c43d37b, 0x4aab71808dcb408f, 0x12c85ea5db8c6deb],
            [0x55acdadcd122975b, 0xbc4b313370b38ef3, 0xec9e99ad690c3395, 0x090689d0585ff075],
        ]
    );
    assert!(G1Point::identity().is_identity());
    assert_eq!(G1Point::identity().x_limbs(), [0, 0, 0, 0]);
}

#[test]
fn points_from_coordinates() {
    assert_eq!(G1Point::from_coordinates([1, 0, 0, 0], [2, 0, 0, 0]), Some(G1Point::generator()));
    let q = [0x3c208c16d87cfd47, 0x97816a916871ca8d, 0xb85045b68181585d, 0x30644e72e131a029];
    assert_eq!(G1Point::from_coordinates(q, [2, 0, 0, 0]), None);
    assert_eq!(G1Point::from_coordinates([1, 0, 0, 0], q), None);
    assert_eq!(G1Point::from_coordinates([1, 0, 0, 0], [u64::MAX; 4]), None);
    let mut below = q;
    below[0] -= 1;
    assert!(G1Point::from_coordinates(below, below).is_some());
    // twice the generator, computed by the curve library itself
    let doubled = (ark_bn254::G1Affine::generator() + ark_bn254::G1Affine::generator()).into_affine();
    let expected =
        G1Point::from_coordinates(doubled.x.into_bigint().0, doubled.y.into_bigint().0).unwrap();
    assert_eq!(G1Point::generator().add(&G1Point::generator()), expected);
    assert_eq!(G1Point::generator().mul(&s(2)), expected);
    assert_eq!(expected.sub(&G1Point::generator()), G1Point::generator());
}

#[test]
fn group_two_operations() {
    let g2 = G2Point::generator();
    let two = g2.mul(&s(2));
    assert_ne!(two, g2);
    assert_eq!(two.sub(&g2), g2);
    assert!(g2.sub(&g2).is_identity());
    assert_eq!(g2.mul(&s(5)).sub(&g2.mul(&s(2))), g2.mul(&s(3)));
    assert_eq!(g2.mul(&s(1)), g2);
    assert!(g2.mul(&s(0)).is_identity());
}

#[test]
fn pairing_is_bilinear() {
    let g1 = G1Point::generator();
    let g2 = G2Point::generator();
    let base = g1.pairing_with(&g2).unwrap();
    assert_eq!(base.len(), 48);
    let left = g1.mul(&s(6)).pairing_with(&g2).unwrap();
    let right = g1.pairing_with(&g2.mul(&s(6))).unwrap();
    let split = g1.mul(&s(2)).pairing_with(&g2.mul(&s(3))).unwrap();
    assert_eq!(left, right);
    assert_eq!(left, split);
    assert_ne!(left, base);
    // the pairing with the neutral element is the unit of the target group
    let unit = G1Point::identity().pairing_with(&g2).unwrap();
    let mut one = vec![0u64; 48];
    one[0] = 1;
    assert_eq!(unit, one);
    assert_eq!(g1.pairing_with(&g2.sub(&g2)).unwrap(), one);
}

#[test]
fn compressed_bytes_are_the_canonical_encoding() {
    let mut prng = test_rng();
    let pcs = setup(3, &mut prng);
    let c = pcs.commit(&poly(&[1, 2, 3])).unwrap();
    let bytes = c.to_bytes();
    assert_eq!(bytes.len(), 32);
    let mut by_ark = Vec::new();
    to_ark_g1(&c.0).serialize_compressed(&mut by_ark).unwrap();
    assert_eq!(bytes, by_ark);
    assert_eq!(KZGOpenProof(c.0).to_bytes(), bytes);
    assert_eq!(c.0.to_bytes(), bytes);
    let base = KZGCommitment::get_base().to_bytes();
    let mut expected = vec![0u8; 32];
    expected[0] = 1;
    assert_eq!(base, expected);
    let identity = KZGCommitment::get_identity().to_bytes();
    let mut expected = vec![0u8; 32];
    expected[31] = 0x40;
    assert_eq!(identity, expected);
    assert_ne!(bytes, base);
}

#[test]
fn max_degree_is_one_less_than_the_points() {
    let mut prng = test_rng();
    for d in [0usize, 1, 7] {
        let pcs = setup(d, &mut prng);
        assert_eq!(pcs.max_degree(), d);
        assert!(pcs.commit(&random_poly(&mut prng, d)).is_ok());
    }
}

#[test]
fn group_two_points_from_coordinates() {
    let g2 = G2Point::generator();
    assert_eq!(G2Point::from_coordinates(g2.x_limbs(), g2.y_limbs()), Some(g2));
    let q = [0x3c208c16d87cfd47, 0x97816a916871ca8d, 0xb85045b68181585d, 0x30644e72e131a029];
    let mut x = g2.x_limbs();
    x[1] = q;
    assert_eq!(G2Point::from_coordinates(x, g2.y_limbs()), None);
    let mut y = g2.y_limbs();
    y[0] = [u64::MAX; 4];
    assert_eq!(G2Point::from_coordinates(g2.x_limbs(), y), None);
    assert!(G2Point::identity().is_identity());
    assert_eq!(g2.sub(&g2), G2Point::identity());
    assert_eq!(G2Point::identity().x_limbs(), [[0; 4]; 2]);
}

#[test]
fn default_commitment_is_the_neutral_element() {
    assert_eq!(KZGCommitment::default(), KZGCommitment::get_identity());
    let base = KZGCommitment::get_base();
    assert_eq!(base.add(&KZGCommitment::default()), base);
}

#[test]
fn clone_of_a_string_is_equal() {
    let pcs = KZGCommitmentScheme::new(3, &s(11));
    let copy = pcs.clone();
    assert_eq!(copy, pcs);
    assert_eq!(copy.public_parameter_group_1.len(), 4);
    assert_eq!(copy.to_unchecked_bytes(), pcs.to_unchecked_bytes());
}

#[test]
fn string_of_a_known_secret_opens_consistently() {
    // with the secret 3, a commitment is the generator times the value at 3
    let pcs = KZGCommitmentScheme::new(4, &s(3));
    let p = poly(&[1, 2, 4]);
    assert_eq!(pcs.commit(&p).unwrap().0, G1Point::generator().mul(&s(43)));
    let z = s(2);
    // p(X) - p(2) = (X - 2)(4 X + 10), whose second factor is 22 at 3
    let proof = pcs.prove(&p, &z, 2).unwrap();
    assert_eq!(proof.0, G1Point::generator().mul(&s(22)));
    assert_eq!(pcs.verify(&pcs.commit(&p).unwrap(), 2, &z, &s(21), &proof), Ok(()));
}
