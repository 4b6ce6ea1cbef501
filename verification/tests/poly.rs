use ark_ff::{PrimeField, UniformRand};
use ark_std::test_rng;
use kzg::primitives::fft::{is_admissible_size, is_power_of_two, DomainKind};
use kzg::primitives::field::Scalar;
use kzg::primitives::poly::FpPolynomial;

fn s(n: u64) -> Scalar {
    Scalar::from_u64(n)
}

fn poly(coefs: &[u64]) -> FpPolynomial {
    FpPolynomial::from_coefs(coefs.iter().map(|c| s(*c)).collect())
}

fn random_scalar<R: ark_std::rand::RngCore>(prng: &mut R) -> Scalar {
    Scalar::from_limbs(ark_bn254::Fr::rand(prng).into_bigint().0).unwrap()
}

fn random_poly<R: ark_std::rand::RngCore>(prng: &mut R, degree: usize) -> FpPolynomial {
    let mut coefs = Vec::with_capacity(degree + 1);
    for _ in 0..degree + 1 {
        coefs.push(random_scalar(prng));
    }
    FpPolynomial::from_coefs(coefs)
}

fn check_fft(poly: &FpPolynomial, root: &Scalar, fft: &[Scalar]) -> bool {
    assert!(is_admissible_size(fft.len()));
    let mut omega = Scalar::one();
    for fft_elem in fft {
        if *fft_elem != poly.eval(&omega) {
            return false;
        }
        omega = omega.mul(root);
    }
    true
}

#[test]
fn from_zeroes() {
    let n = 10;
    let mut zeroes = vec![];
    let mut prng = test_rng();
    for _ in 0..n {
        zeroes.push(random_scalar(&mut prng));
    }
    let poly = FpPolynomial::from_zeroes(&zeroes[..]);
    for root in zeroes.iter() {
        assert_eq!(Scalar::zero(), poly.eval(root));
    }

    let zeroes_ref: Vec<&Scalar> = zeroes.iter().collect();
    let poly = FpPolynomial::from_zeroes_ref(&zeroes_ref);
    for root in zeroes.iter() {
        assert_eq!(Scalar::zero(), poly.eval(root));
    }
}

#[test]
fn test_fft() {
    let mut prng = test_rng();
    let zero = Scalar::zero();
    let one = Scalar::one();

    let polynomial = FpPolynomial::from_coefs(vec![one]);
    let fft = polynomial.fft(1).unwrap();
    let domain = FpPolynomial::evaluation_domain(1).unwrap();
    assert!(check_fft(&polynomial, &domain.group_gen(), &fft));

    let polynomial = FpPolynomial::from_coefs(vec![one, one]);
    let fft = polynomial.fft(2).unwrap();
    let domain = FpPolynomial::evaluation_domain(2).unwrap();
    assert!(check_fft(&polynomial, &domain.group_gen(), &fft));

    let polynomial = FpPolynomial::from_coefs(vec![one, zero]);
    let fft = polynomial.fft(2).unwrap();
    assert!(check_fft(&polynomial, &domain.group_gen(), &fft));

    let polynomial = FpPolynomial::from_coefs(vec![zero, one]);
    let fft = polynomial.fft(2).unwrap();
    assert!(check_fft(&polynomial, &domain.group_gen(), &fft));

    let polynomial = FpPolynomial::from_coefs(vec![zero, one, one]);
    let fft = polynomial.fft(3).unwrap();
    let domain = FpPolynomial::quotient_evaluation_domain(3).unwrap();
    assert!(check_fft(&polynomial, &domain.group_gen(), &fft));

    let ffti_polynomial = FpPolynomial::ifft_with_domain(&domain, &fft);
    assert_eq!(ffti_polynomial, polynomial);

    let mut coefs = vec![];
    for _ in 0..16 {
        coefs.push(random_scalar(&mut prng));
    }
    let polynomial = FpPolynomial::from_coefs(coefs);
    let fft = polynomial.fft(16).unwrap();
    let domain = FpPolynomial::evaluation_domain(16).unwrap();
    let ffti_polynomial = FpPolynomial::ifft_with_domain(&domain, &fft);
    assert_eq!(ffti_polynomial, polynomial);

    let mut coefs = vec![];
    for _ in 0..32 {
        coefs.push(random_scalar(&mut prng));
    }
    let polynomial = FpPolynomial::from_coefs(coefs);
    let domain = FpPolynomial::evaluation_domain(32).unwrap();
    let fft = polynomial.fft_with_domain(&domain);
    let ffti_polynomial = FpPolynomial::ifft_with_domain(&domain, &fft);
    assert_eq!(ffti_polynomial, polynomial);

    let mut coefs = vec![];
    for _ in 0..3 {
        coefs.push(random_scalar(&mut prng));
    }
    let polynomial = FpPolynomial::from_coefs(coefs);
    let domain = FpPolynomial::quotient_evaluation_domain(3).unwrap();
    let fft = polynomial.fft_with_domain(&domain);
    let ffti_polynomial = FpPolynomial::ifft_with_domain(&domain, &fft);
    assert_eq!(ffti_polynomial, polynomial);

    let mut coefs = vec![];
    for _ in 0..48 {
        coefs.push(random_scalar(&mut prng));
    }
    let polynomial = FpPolynomial::from_coefs(coefs);
    let domain = FpPolynomial::quotient_evaluation_domain(48).unwrap();
    let fft = polynomial.fft_with_domain(&domain);
    let ffti_polynomial = FpPolynomial::ifft_with_domain(&domain, &fft);
    assert_eq!(ffti_polynomial, polynomial);
}

#[test]
fn zero_and_one_are_constants() {
    let zero = Scalar::zero();
    let one = Scalar::one();
    let p = FpPolynomial::zero();
    assert_eq!(p.degree(), 0);
    assert!(p.is_zero());
    assert_eq!(p.eval(&zero), zero);
    assert_eq!(p.eval(&one), zero);
    let p = FpPolynomial::one();
    assert_eq!(p.degree(), 0);
    assert!(!p.is_zero());
    assert_eq!(p.eval(&one), one);
    assert_eq!(p.eval(&zero), one);
    assert_eq!(p.get_coefs_ref(), &[one][..]);
}

#[test]
fn from_coefs_trims_high_order_zeros() {
    let p = poly(&[1, 0, 1]);
    assert_eq!(p.degree(), 2);
    assert_eq!(p.eval(&s(0)), s(1));
    assert_eq!(p.eval(&s(1)), s(2));
    assert_eq!(p.eval(&s(2)), s(5));
    let padded = poly(&[1, 0, 1, 0, 0, 0]);
    assert_eq!(padded.degree(), 2);
    assert_eq!(p, padded);
    assert_eq!(padded.get_coefs_ref(), &[s(1), s(0), s(1)][..]);
}

#[test]
fn from_coefs_of_nothing_is_the_zero_polynomial() {
    let p = FpPolynomial::from_coefs(vec![]);
    assert_eq!(p.get_coefs_ref(), &[s(0)][..]);
    assert!(p.is_zero());
    assert_eq!(p.degree(), 0);
    assert_eq!(p, FpPolynomial::zero());
}

#[test]
fn canonical_form_keeps_the_values() {
    let mut prng = test_rng();
    for _ in 0..5 {
        let mut coefs = vec![];
        for _ in 0..6 {
            coefs.push(random_scalar(&mut prng));
        }
        coefs.push(Scalar::zero());
        coefs.push(Scalar::zero());
        let z = random_scalar(&mut prng);
        let mut expected = Scalar::zero();
        let mut power = Scalar::one();
        for c in coefs.iter() {
            expected = expected.add(&c.mul(&power));
            power = power.mul(&z);
        }
        let p = FpPolynomial::from_coefs(coefs);
        let stored = p.get_coefs_ref();
        assert!(stored.len() == 1 || !stored[stored.len() - 1].is_zero());
        assert_eq!(p.eval(&z), expected);
    }
}

#[test]
fn from_zeroes_of_four_roots() {
    let zeroes = [s(1), s(0), s(5), s(2)];
    let p = FpPolynomial::from_zeroes(&zeroes[..]);
    assert_eq!(p.degree(), 4);
    assert_eq!(p.eval(&s(0)), s(0));
    assert_eq!(p.eval(&s(1)), s(0));
    assert_eq!(p.eval(&s(2)), s(0));
    assert_eq!(p.eval(&s(5)), s(0));
    // X (X - 1) (X - 2) (X - 5) = X^4 - 8 X^3 + 17 X^2 - 10 X
    let expected = FpPolynomial::from_coefs(vec![s(0), s(10).neg(), s(17), s(8).neg(), s(1)]);
    assert_eq!(p, expected);
}

#[test]
fn from_zeroes_of_no_roots_is_one() {
    let p = FpPolynomial::from_zeroes(&[]);
    assert_eq!(p, FpPolynomial::one());
    let p = FpPolynomial::from_zeroes(&[s(3)]);
    assert_eq!(p, FpPolynomial::from_coefs(vec![s(3).neg(), s(1)]));
}

#[test]
fn degree_counts_stored_coefficients() {
    let p = FpPolynomial::from_coefs(vec![s(1); 10]);
    assert_eq!(p.degree(), 9);
    assert!(!p.is_zero());
    let p = FpPolynomial::from_coefs(vec![s(0); 10]);
    assert_eq!(p.degree(), 0);
    assert!(p.is_zero());
}

#[test]
fn eval_is_the_sum_of_the_terms() {
    let p = poly(&[1, 2, 4]);
    assert_eq!(p.eval(&s(1)), s(7));
    assert_eq!(p.eval(&s(2)), s(21));
    assert_eq!(p.eval(&s(0)), s(1));
    assert_eq!(p.eval(&s(10)), s(421));
}

#[test]
fn add_keeps_the_longer_tail() {
    let poly1 = poly(&[0, 1, 2, 3]);
    let poly2 = poly(&[3, 2, 1, 0, 1]);
    let poly_add = poly1.add(&poly2);
    let poly_add2 = poly2.add(&poly1);
    assert_eq!(poly_add, poly_add2);
    assert_eq!(poly_add, poly(&[3, 3, 3, 3, 1]));
    let mut p = poly(&[0, 1, 2, 3]);
    p.add_assign(&poly2);
    assert_eq!(p, poly(&[3, 3, 3, 3, 1]));
}

#[test]
fn add_trims_a_cancelled_leading_coefficient() {
    let a = FpPolynomial::from_coefs(vec![s(1), s(2), s(3)]);
    let b = FpPolynomial::from_coefs(vec![s(1), s(2), s(3).neg()]);
    assert_eq!(a.add(&b), poly(&[2, 4]));
}

#[test]
fn sub_assign_in_three_shapes() {
    let zero = s(0);
    let one = s(1);
    let mut poly1 = poly(&[3, 3, 2, 1]);
    let poly2 = poly(&[3, 2, 1, 1]);
    poly1.sub_assign(&poly2);
    assert_eq!(poly1, poly(&[0, 1, 1]));
    let mut poly1 = poly(&[3, 3, 2, 1]);
    let poly2 = poly(&[3, 2, 1]);
    poly1.sub_assign(&poly2);
    assert_eq!(poly1, poly(&[0, 1, 1, 1]));
    let mut poly1 = poly(&[3, 3, 2]);
    let poly2 = poly(&[3, 2, 1, 1]);
    poly1.sub_assign(&poly2);
    let minus_one = one.neg();
    assert_eq!(poly1, FpPolynomial::from_coefs(vec![zero, one, one, minus_one]));
}

#[test]
fn sub_of_equal_polynomials_is_zero() {
    let poly1 = poly(&[3, 3, 2, 1]);
    let poly2 = poly(&[3, 2, 1, 1]);
    assert_eq!(poly1.sub(&poly2), poly(&[0, 1, 1]));
    assert!(poly1.sub(&poly1).is_zero());
    assert_eq!(poly1.sub(&poly1).get_coefs_ref().len(), 1);
}

#[test]
fn neg_negates_every_coefficient() {
    let minus_one = s(1).neg();
    let mut p = poly(&[0, 1]);
    p.neg_assign();
    assert_eq!(p, FpPolynomial::from_coefs(vec![s(0), minus_one]));
    let negated = poly(&[0, 1]).neg();
    assert_eq!(negated, FpPolynomial::from_coefs(vec![s(0), minus_one]));
    assert_eq!(negated.neg(), poly(&[0, 1]));
    assert!(FpPolynomial::zero().neg().is_zero());
}

#[test]
fn add_coef_assign_grows_and_trims() {
    let one = s(1);
    let mut p = poly(&[0, 1, 1]);
    p.add_coef_assign(&one, 1);
    assert_eq!(p, poly(&[0, 2, 1]));
    p.add_coef_assign(&one, 3);
    assert_eq!(p, poly(&[0, 2, 1, 1]));
    let minus_one = one.neg();
    p.add_coef_assign(&minus_one, 3);
    assert_eq!(p, poly(&[0, 2, 1]));
    p.add_coef_assign(&one, 6);
    assert_eq!(p, poly(&[0, 2, 1, 0, 0, 0, 1]));
}

#[test]
fn mul_scalar_scales_and_trims() {
    let mut p = poly(&[0, 1, 1]);
    p.mul_scalar_assign(&s(2));
    assert_eq!(p, poly(&[0, 2, 2]));
    p.mul_scalar_assign(&s(0));
    assert!(p.is_zero());
    assert_eq!(p.get_coefs_ref().len(), 1);
    let new = poly(&[0, 1, 1]).mul_scalar(&s(2));
    assert_eq!(new, poly(&[0, 2, 2]));
    assert_eq!(poly(&[0, 1, 1]).mul(&s(5)), poly(&[0, 5, 5]));
    let mut q = poly(&[1, 2, 3]);
    q.mul_assign(&s(3));
    assert_eq!(q, poly(&[3, 6, 9]));
}

#[test]
fn mul_var_scales_by_powers() {
    let mut p = poly(&[0, 1, 1]);
    p.mul_var_assign(&s(2));
    assert_eq!(p, poly(&[0, 2, 4]));
    let result = poly(&[0, 1, 1]).mul_var(&s(2));
    assert_eq!(result, poly(&[0, 2, 4]));
    assert_eq!(poly(&[1, 1, 1, 1]).mul_var(&s(3)), poly(&[1, 3, 9, 27]));
    assert_eq!(poly(&[5, 1, 1]).mul_var(&s(0)), poly(&[5]));
    let mut prng = test_rng();
    let p = random_poly(&mut prng, 7);
    let k = random_scalar(&mut prng);
    let z = random_scalar(&mut prng);
    assert_eq!(p.mul_var(&k).eval(&z), p.eval(&k.mul(&z)));
}

#[test]
fn div_rem_of_small_polynomials() {
    let p = poly(&[1, 1, 1]);
    let divisor = poly(&[1, 1]);
    let (q, r) = p.div_rem(&divisor);
    assert_eq!(q, poly(&[0, 1]));
    assert_eq!(r, poly(&[1]));
    // (X^3 + 2 X + 5) = (X^2 + 1) X + (X + 5)
    let (q, r) = poly(&[5, 2, 0, 1]).div_rem(&poly(&[1, 0, 1]));
    assert_eq!(q, poly(&[0, 1]));
    assert_eq!(r, poly(&[5, 1]));
    // 6 X^2 + 4 = (2 X)(3 X) + 4
    let (q, r) = poly(&[4, 0, 6]).div_rem(&poly(&[0, 2]));
    assert_eq!(q, poly(&[0, 3]));
    assert_eq!(r, poly(&[4]));
}

#[test]
fn div_rem_by_a_longer_divisor() {
    let p = poly(&[1, 2]);
    let (q, r) = p.div_rem(&poly(&[1, 2, 3]));
    assert!(q.is_zero());
    assert_eq!(r, p);
}

#[test]
fn div_rem_by_a_constant_leaves_zero() {
    let p = poly(&[2, 4, 6]);
    let (q, r) = p.div_rem(&poly(&[2]));
    assert_eq!(q, poly(&[1, 2, 3]));
    assert!(r.is_zero());
    assert_eq!(r.degree(), 0);
    let (q, r) = poly(&[1, 1]).div_rem(&poly(&[2]));
    assert_eq!(q.mul_scalar(&s(2)), poly(&[1, 1]));
    assert!(r.is_zero());
}

#[test]
fn div_rem_reconstructs_the_dividend() {
    let mut prng = test_rng();
    for (dp, dd) in [(12usize, 5usize), (7, 7), (9, 1), (20, 19), (3, 8)] {
        let p = random_poly(&mut prng, dp);
        let d = random_poly(&mut prng, dd);
        let (q, r) = p.div_rem(&d);
        assert!(r.degree() < d.degree() || (r.is_zero() && d.degree() == 0));
        for _ in 0..4 {
            let z = random_scalar(&mut prng);
            let lhs = q.eval(&z).mul(&d.eval(&z)).add(&r.eval(&z));
            assert_eq!(lhs, p.eval(&z));
        }
        if dp >= dd {
            assert_eq!(q.degree(), dp - dd);
        }
    }
}

#[test]
fn div_rem_by_a_root_factor_is_exact() {
    let roots = [s(4), s(9), s(11)];
    let p = FpPolynomial::from_zeroes(&roots);
    let (q, r) = p.div_rem(&FpPolynomial::from_zeroes(&roots[..1]));
    assert!(r.is_zero());
    assert_eq!(q, FpPolynomial::from_zeroes(&roots[1..]));
}

#[test]
fn fft_identity_on_eight_points() {
    let p = poly(&[2, 3, 6, 0, 1]);
    assert_eq!(p.degree(), 4);
    let v = p.fft(8).unwrap();
    assert_eq!(v.len(), 8);
    let domain = FpPolynomial::evaluation_domain(8).unwrap();
    assert_eq!(domain.size(), 8);
    assert_eq!(domain.kind(), DomainKind::Radix2);
    assert!(check_fft(&p, &domain.group_gen(), &v));
    assert_eq!(v[0], s(12));
    assert_eq!(FpPolynomial::ifft_with_domain(&domain, &v), p);
}

#[test]
fn mixed_radix_round_trips() {
    let p = poly(&[0, 1, 1]);
    let domain = FpPolynomial::quotient_evaluation_domain(3).unwrap();
    assert_eq!(domain.kind(), DomainKind::MixedRadix);
    assert_eq!(domain.size(), 3);
    let v = p.fft_with_domain(&domain);
    assert_eq!(v.len(), 3);
    assert_eq!(v[0], s(2));
    assert_eq!(FpPolynomial::ifft_with_domain(&domain, &v), p);

    let mut prng = test_rng();
    let p = random_poly(&mut prng, 47);
    let v = p.fft(48).unwrap();
    assert_eq!(v.len(), 48);
    let domain = FpPolynomial::quotient_evaluation_domain(48).unwrap();
    assert!(check_fft(&p, &domain.group_gen(), &v));
    assert_eq!(FpPolynomial::ifft_with_domain(&domain, &v), p);
}

#[test]
fn fft_round_trips_on_every_small_admissible_size() {
    let mut prng = test_rng();
    for n in [1usize, 2, 3, 4, 6, 8, 12, 16, 24, 32, 64, 96] {
        let p = random_poly(&mut prng, n - 1);
        let v = p.fft(n).unwrap();
        let domain = if is_power_of_two(n) {
            FpPolynomial::evaluation_domain(n).unwrap()
        } else {
            FpPolynomial::quotient_evaluation_domain(n).unwrap()
        };
        assert_eq!(FpPolynomial::ifft_with_domain(&domain, &v), p);
        let short = random_poly(&mut prng, n / 2);
        let v = short.fft(n).unwrap();
        assert_eq!(v.len(), n);
        assert_eq!(FpPolynomial::ifft_with_domain(&domain, &v), short);
    }
}

#[test]
fn generator_of_a_domain_has_the_order_of_the_domain() {
    for n in [2usize, 3, 8, 12, 48] {
        let domain = FpPolynomial::quotient_evaluation_domain(n).unwrap();
        let g = domain.group_gen();
        let mut power = Scalar::one();
        for i in 0..n {
            if i > 0 {
                assert_ne!(power, Scalar::one());
            }
            power = power.mul(&g);
        }
        assert_eq!(power, Scalar::one());
    }
    let radix2 = FpPolynomial::evaluation_domain(8).unwrap();
    let mixed = FpPolynomial::quotient_evaluation_domain(8).unwrap();
    assert_eq!(radix2.group_gen(), mixed.group_gen());
}

#[test]
fn ifft_pads_missing_values_with_zeros() {
    let domain = FpPolynomial::evaluation_domain(4).unwrap();
    let short = FpPolynomial::ifft_with_domain(&domain, &[s(1), s(2)]);
    let full = FpPolynomial::ifft_with_domain(&domain, &[s(1), s(2), s(0), s(0)]);
    assert_eq!(short, full);
    assert_eq!(short.fft_with_domain(&domain), vec![s(1), s(2), s(0), s(0)]);
}

#[test]
fn coset_fft_round_trips() {
    let mut prng = test_rng();
    let p = random_poly(&mut prng, 10);
    let k = s(5);
    let k_inv = k.inverse().unwrap();
    let domain = FpPolynomial::evaluation_domain(16).unwrap();
    let v = p.coset_fft_with_domain(&domain, &k);
    let g = domain.group_gen();
    let mut point = k;
    for value in v.iter() {
        assert_eq!(*value, p.eval(&point));
        point = point.mul(&g);
    }
    assert_eq!(FpPolynomial::coset_ifft_with_domain(&domain, &v, &k_inv), p);
}

#[test]
fn domains_exist_up_to_the_two_adicity() {
    assert!(FpPolynomial::evaluation_domain(1 << 28).is_some());
    assert!(FpPolynomial::evaluation_domain(1 << 29).is_none());
    assert!(FpPolynomial::quotient_evaluation_domain(3 << 28).is_some());
    assert!(FpPolynomial::quotient_evaluation_domain(1 << 29).is_none());
    assert!(FpPolynomial::quotient_evaluation_domain(1 << 28).is_some());
    assert!(poly(&[1, 2]).fft(1 << 29).is_none());
    if usize::BITS >= 64 {
        assert!(FpPolynomial::quotient_evaluation_domain(3 << 29).is_none());
        assert!(poly(&[1, 2]).fft(3 << 29).is_none());
    }
}

#[test]
fn admissible_sizes() {
    for n in [1usize, 2, 3, 4, 6, 8, 12, 48, 1 << 20, 3 << 20] {
        assert!(is_admissible_size(n));
    }
    for n in [0usize, 5, 7, 9, 10, 18, 27, 100] {
        assert!(!is_admissible_size(n));
    }
    assert!(is_power_of_two(1));
    assert!(is_power_of_two(1 << 31));
    assert!(!is_power_of_two(0));
    assert!(!is_power_of_two(6));
}

#[test]
fn field_size_is_the_modulus() {
    let bytes = poly(&[1]).get_field_size();
    assert_eq!(bytes.len(), 32);
    assert_eq!(&bytes[..8], &0x43e1f593f0000001u64.to_le_bytes());
    assert_eq!(&bytes[24..], &0x30644e72e131a029u64.to_le_bytes());
}

#[test]
fn clone_is_equal() {
    let p = poly(&[4, 5, 6]);
    let q = p.clone();
    assert_eq!(p, q);
    assert_eq!(q.get_coefs_ref(), &[s(4), s(5), s(6)][..]);
}

#[test]
fn ifft_cuts_values_beyond_the_domain() {
    let domain = FpPolynomial::evaluation_domain(2).unwrap();
    let long = FpPolynomial::ifft_with_domain(&domain, &[s(1), s(2), s(3)]);
    let exact = FpPolynomial::ifft_with_domain(&domain, &[s(1), s(2)]);
    assert_eq!(long, exact);
    assert_eq!(exact.fft_with_domain(&domain), vec![s(1), s(2)]);
    // the values 4 and 0 at 1 and -1 are those of 2 + 2 X
    assert_eq!(FpPolynomial::ifft_with_domain(&domain, &[s(4), s(0)]), poly(&[2, 2]));
}

#[test]
fn division_identity_holds_at_every_point() {
    let p = poly(&[7, 0, 3, 1, 9]);
    let d = poly(&[2, 5, 1]);
    let (q, r) = p.div_rem(&d);
    for x in 0..20u64 {
        let x = s(x);
        assert_eq!(q.eval(&x).mul(&d.eval(&x)).add(&r.eval(&x)), p.eval(&x));
    }
}

#[test]
fn remainder_theorem() {
    let p = poly(&[5, 4, 3, 2, 1]);
    let z = s(6);
    let y = p.eval(&z);
    let (q, r) = p.sub(&FpPolynomial::from_coefs(vec![y])).div_rem(&FpPolynomial::from_zeroes(&[z]));
    assert!(r.is_zero());
    for x in [s(0), s(1), s(6), s(100)] {
        assert_eq!(q.eval(&x).mul(&x.sub(&z)).add(&y), p.eval(&x));
    }
}

#[test]
fn evaluation_is_additive_and_homogeneous() {
    let a = poly(&[1, 2, 3]);
    let b = poly(&[4, 5, 6, 7]);
    for x in [s(0), s(2), s(9)] {
        assert_eq!(a.add(&b).eval(&x), a.eval(&x).add(&b.eval(&x)));
        assert_eq!(a.sub(&b).eval(&x), a.eval(&x).sub(&b.eval(&x)));
        assert_eq!(a.mul_scalar(&s(11)).eval(&x), a.eval(&x).mul(&s(11)));
        assert_eq!(a.neg().eval(&x), a.eval(&x).neg());
    }
}

#[test]
fn mixed_radix_domain_of_a_power_of_two_agrees_with_radix_two() {
    let mut prng = test_rng();
    for n in [1usize, 2, 4, 8, 16] {
        let p = random_poly(&mut prng, n - 1);
        let mixed = FpPolynomial::quotient_evaluation_domain(n).unwrap();
        let radix2 = FpPolynomial::evaluation_domain(n).unwrap();
        let v = p.fft_with_domain(&mixed);
        assert_eq!(v, p.fft_with_domain(&radix2));
        assert!(check_fft(&p, &mixed.group_gen(), &v));
        assert_eq!(FpPolynomial::ifft_with_domain(&mixed, &v), p);
    }
}

#[test]
fn transform_of_a_constant_is_constant() {
    let p = poly(&[9]);
    for n in [1usize, 2, 3, 6, 8] {
        let v = p.fft(n).unwrap();
        assert_eq!(v, vec![s(9); n]);
    }
    let zero = FpPolynomial::zero();
    assert_eq!(zero.fft(4).unwrap(), vec![s(0); 4]);
    let domain = FpPolynomial::evaluation_domain(4).unwrap();
    assert!(FpPolynomial::ifft_with_domain(&domain, &[s(0); 4]).is_zero());
    assert!(FpPolynomial::ifft_with_domain(&domain, &[]).is_zero());
}
