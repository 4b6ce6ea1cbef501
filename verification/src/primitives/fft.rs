//! Evaluation domains and the discrete Fourier transform.
//!
//! A domain is the subgroup of the scalar field generated by a root of unity
//! of order `2^k` or `3 * 2^k`. This module owns the choice of the domain and
//! the multiplications before and after a coset transform; the transforms
//! themselves are computed by `ark_poly`, and the contracts of the private
//! functions at the end of this file say what is relied upon.

use crate::primitives::algebra::{
    coef,
    eval,
    is_trimmed,
    mul_var_seq,
    normalize,
    reduced,
};
use crate::primitives::canonical::{
    lemma_normalize,
    lemma_normalize_unique,
};
use crate::primitives::evaluation::{
    lemma_eval_coef,
    lemma_eval_mul_var,
    lemma_eval_normalize,
};
use crate::primitives::field::{modulus, Scalar};
use crate::primitives::poly::{all_wf, lemma_values_reduced, values, FpPolynomial};
use ark_bn254::Fr;
use ark_ff::{BigInt, PrimeField};
use ark_poly::{EvaluationDomain as ArkDomain, MixedRadixEvaluationDomain, Radix2EvaluationDomain};
use vstd::arithmetic::power2::is_pow2;
use vstd::arithmetic::power::pow;
use vstd::prelude::*;

verus! {

/// The largest power of two for which the field has a root of unity: `2^28`.
pub const MAX_RADIX2_SIZE: usize = 0x1000_0000;

/// The largest mixed-radix size that this library asks for: `3 * 2^28`.
pub const MAX_MIXED_SIZE: usize = 0x3000_0000;

/// The root of unity that generates the domain of size `n`.
pub uninterp spec fn root_of_unity(n: nat) -> int;

/// The sizes on which a transform is computed: `2^k` or `3 * 2^k`.
pub open spec fn admissible_size(n: int) -> bool {
    is_pow2(n) || (n % 3 == 0 && is_pow2(n / 3))
}

/// Whether the field has a domain of the admissible size `n`: the power of
/// two in it is at most `2^28`.
pub open spec fn domain_exists(n: int) -> bool {
    if is_pow2(n) {
        n <= MAX_RADIX2_SIZE
    } else {
        n % 3 == 0 && is_pow2(n / 3) && n / 3 <= MAX_RADIX2_SIZE
    }
}

/// The sequence cut or extended with zeros to the length `n`.
pub open spec fn resize_seq(c: Seq<int>, n: nat) -> Seq<int> {
    Seq::new(n, |i: int| coef(c, i))
}

/// The discrete Fourier transform of length `n`: the values of the
/// polynomial with coefficients `c` at the powers `w^0, ..., w^(n-1)`.
pub open spec fn dft(c: Seq<int>, w: int, n: nat) -> Seq<int> {
    Seq::new(n, |i: int| eval(c, pow(w, i as nat)))
}

/// Whether `p` is a canonical polynomial with at most `n` coefficients whose
/// transform of length `n` gives the values, cut or extended to `n`.
pub open spec fn interpolates(p: Seq<int>, values: Seq<int>, w: int, n: nat) -> bool {
    reduced(p) && is_trimmed(p) && p.len() <= n && dft(p, w, n) == resize_seq(values, n)
}

/// The canonical polynomial with at most `n` coefficients that takes the
/// given values at the powers of `w`.
pub open spec fn interpolation(values: Seq<int>, w: int, n: nat) -> Seq<int> {
    choose|p: Seq<int>| interpolates(p, values, w, n)
}

/// The two families of domain sizes.
#[derive(Clone, Copy, Debug, PartialEq, Eq, Structural)]
pub enum DomainKind {
    /// Size `2^k`.
    Radix2,
    /// Size `2^k` or `3 * 2^k`.
    MixedRadix,
}

/// An evaluation domain: its size and the generator of its group.
#[derive(Clone, Copy, Debug, PartialEq, Eq)]
pub struct EvaluationDomain {
    size: usize,
    kind: DomainKind,
    group_gen: Scalar,
}

impl EvaluationDomain {
    /// The number of points, as a specification value.
    pub closed spec fn spec_size(self) -> nat {
        self.size as nat
    }

    /// The family of the domain, as a specification value.
    pub closed spec fn spec_kind(self) -> DomainKind {
        self.kind
    }

    /// The generator, as a specification value.
    pub closed spec fn spec_group_gen(self) -> Scalar {
        self.group_gen
    }

    /// The size is one that the family offers and the field has a domain
    /// for, and the generator is the root of unity of that order: its
    /// power by the size is one.
    pub open spec fn wf(self) -> bool {
        &&& self.spec_kind() == DomainKind::Radix2 ==> is_pow2(self.spec_size() as int)
        &&& admissible_size(self.spec_size() as int)
        &&& domain_exists(self.spec_size() as int)
        &&& self.spec_group_gen().wf()
        &&& self.spec_group_gen().value() == root_of_unity(self.spec_size())
        &&& pow(self.spec_group_gen().value(), self.spec_size()) % modulus() == 1
    }

    /// The number of points.
    pub fn size(&self) -> (n: usize)
        ensures
            n == self.spec_size(),
    {
        self.size
    }

    /// The family of the domain.
    pub fn kind(&self) -> (k: DomainKind)
        ensures
            k == self.spec_kind(),
    {
        self.kind
    }

    /// The generator of the group: the `i`-th point is its `i`-th power.
    pub fn group_gen(&self) -> (g: Scalar)
        ensures
            g == self.spec_group_gen(),
    {
        self.group_gen
    }
}

/// Whether `n` is a power of two.
pub fn is_power_of_two(n: usize) -> (r: bool)
    ensures
        r == is_pow2(n as int),
{
    if n == 0 {
        reveal(is_pow2);
        return false;
    }
    let mut m: usize = n;
    while m % 2 == 0
        invariant
            m >= 1,
            is_pow2(m as int) == is_pow2(n as int),
        decreases m,
    {
        proof {
            reveal(is_pow2);
        }
        m = m / 2;
    }
    proof {
        reveal(is_pow2);
    }
    m == 1
}

/// Whether `n` is a power of two or three times one.
pub fn is_admissible_size(n: usize) -> (r: bool)
    ensures
        r == admissible_size(n as int),
{
    is_power_of_two(n) || (n % 3 == 0 && is_power_of_two(n / 3))
}

impl FpPolynomial {
    /// The radix-2 domain of the size `num_coeffs`, which must be a power
    /// of two. There is one exactly up to `2^28`.
    pub fn evaluation_domain(num_coeffs: usize) -> (r: Option<EvaluationDomain>)
        requires
            is_pow2(num_coeffs as int),
        ensures
            r.is_some() <==> num_coeffs <= MAX_RADIX2_SIZE,
            r matches Some(d) ==> d.wf() && d.spec_size() == num_coeffs && d.spec_kind()
                == DomainKind::Radix2,
    {
        match radix2_generator(num_coeffs) {
            Some(group_gen) => Some(
                EvaluationDomain { size: num_coeffs, kind: DomainKind::Radix2, group_gen },
            ),
            None => None,
        }
    }

    /// The mixed-radix domain of the size `num_coeffs`, which must be a
    /// power of two or three times one. There is one exactly when that
    /// power of two is at most `2^28`.
    pub fn quotient_evaluation_domain(num_coeffs: usize) -> (r: Option<EvaluationDomain>)
        requires
            admissible_size(num_coeffs as int),
        ensures
            r.is_some() <==> domain_exists(num_coeffs as int),
            r matches Some(d) ==> d.wf() && d.spec_size() == num_coeffs && d.spec_kind()
                == DomainKind::MixedRadix,
    {
        let limit = if is_power_of_two(num_coeffs) {
            MAX_RADIX2_SIZE
        } else {
            MAX_MIXED_SIZE
        };
        if num_coeffs > limit {
            return None;
        }
        match mixed_radix_generator(num_coeffs) {
            Some(group_gen) => Some(
                EvaluationDomain { size: num_coeffs, kind: DomainKind::MixedRadix, group_gen },
            ),
            None => None,
        }
    }

    /// The values of the polynomial on the domain of size `num_coeffs`,
    /// which must be admissible and exceed the degree: the `i`-th value is
    /// the value at the `i`-th power of the domain's generator. `None` where
    /// the field has no domain of that size.
    pub fn fft(&self, num_coeffs: usize) -> (r: Option<Vec<Scalar>>)
        requires
            self.wf(),
            num_coeffs >= self@.len(),
            admissible_size(num_coeffs as int),
        ensures
            r.is_some() <==> domain_exists(num_coeffs as int),
            r matches Some(v) ==> all_wf(v@) && values(v@) == dft(
                self@,
                root_of_unity(num_coeffs as nat),
                num_coeffs as nat,
            ),
    {
        if is_power_of_two(num_coeffs) {
            match Self::evaluation_domain(num_coeffs) {
                Some(domain) => Some(self.fft_with_domain(&domain)),
                None => None,
            }
        } else {
            match Self::quotient_evaluation_domain(num_coeffs) {
                Some(domain) => Some(self.fft_with_domain(&domain)),
                None => None,
            }
        }
    }

    /// The values of the polynomial on the domain, whose size must exceed
    /// the degree.
    pub fn fft_with_domain(&self, domain: &EvaluationDomain) -> (r: Vec<Scalar>)
        requires
            self.wf(),
            domain.wf(),
            domain.spec_size() >= self@.len(),
        ensures
            all_wf(r@),
            values(r@) == dft(self@, domain.spec_group_gen().value(), domain.spec_size()),
    {
        match domain.kind() {
            DomainKind::Radix2 => radix2_fft(domain.size(), self.get_coefs_ref()),
            DomainKind::MixedRadix => mixed_radix_fft(domain.size(), self.get_coefs_ref()),
        }
    }

    /// The values of the polynomial on the coset `k * H` of the domain `H`:
    /// the `i`-th value is the value at `k` times the `i`-th power of the
    /// domain's generator. It is computed as the transform of `self(k * X)`.
    pub fn coset_fft_with_domain(&self, domain: &EvaluationDomain, k: &Scalar) -> (r: Vec<Scalar>)
        requires
            self.wf(),
            k.wf(),
            domain.wf(),
            domain.spec_size() >= self@.len(),
        ensures
            all_wf(r@),
            values(r@) == dft(
                normalize(mul_var_seq(self@, k.value())),
                domain.spec_group_gen().value(),
                domain.spec_size(),
            ),
            r@.len() == domain.spec_size(),
            forall|i: int|
                0 <= i < domain.spec_size() ==> (#[trigger] r@[i]).value() == eval(
                    self@,
                    k.value() * pow(domain.spec_group_gen().value(), i as nat),
                ),
    {
        let scaled = self.mul_var(k);
        proof {
            lemma_normalize(mul_var_seq(self@, k.value()));
        }
        let r = scaled.fft_with_domain(domain);
        proof {
            let w = domain.spec_group_gen().value();
            assert(values(r@).len() == domain.spec_size());
            assert forall|i: int| 0 <= i < domain.spec_size() implies (#[trigger] r@[i]).value()
                == eval(self@, k.value() * pow(w, i as nat)) by {
                let x = pow(w, i as nat);
                assert(values(r@)[i] == eval(scaled@, x));
                lemma_eval_normalize(mul_var_seq(self@, k.value()), x);
                lemma_eval_mul_var(self@, k.value(), x);
            }
        }
        r
    }

    /// The polynomial of degree below the domain's size that takes the given
    /// values on the domain; missing values count as zero.
    ///
    /// This inverts the forward transform: the result is the only canonical
    /// polynomial with at most as many coefficients as the domain has points
    /// that takes these values, so the values of such a polynomial give the
    /// polynomial back.
    pub fn ifft_with_domain(domain: &EvaluationDomain, evals: &[Scalar]) -> (r: Self)
        requires
            domain.wf(),
            all_wf(evals@),
        ensures
            r.wf(),
            interpolates(
                r@,
                values(evals@),
                domain.spec_group_gen().value(),
                domain.spec_size(),
            ),
            r@ == interpolation(
                values(evals@),
                domain.spec_group_gen().value(),
                domain.spec_size(),
            ),
            forall|p: Seq<int>|
                #[trigger] interpolates(
                    p,
                    values(evals@),
                    domain.spec_group_gen().value(),
                    domain.spec_size(),
                ) ==> r@ == p,
    {
        let coefs = match domain.kind() {
            DomainKind::Radix2 => radix2_ifft(domain.size(), evals),
            DomainKind::MixedRadix => mixed_radix_ifft(domain.size(), evals),
        };
        let ghost raw = values(coefs@);
        let ghost w = domain.spec_group_gen().value();
        let ghost n = domain.spec_size();
        let ghost target = resize_seq(values(evals@), n);
        let r = Self::from_coefs(coefs);
        proof {
            lemma_normalize(raw);
            assert(n >= 1) by {
                reveal(is_pow2);
            }
            assert(dft(r@, w, n) =~= dft(raw, w, n)) by {
                assert forall|i: int| 0 <= i < n implies dft(r@, w, n)[i] == dft(raw, w, n)[i] by {
                    lemma_eval_coef(r@, raw, pow(w, i as nat));
                }
            }
            lemma_values_reduced(r.coefs@);
            assert forall|p: Seq<int>| #[trigger]
                interpolates(p, values(evals@), w, n) implies r@
                == p by {
                let padded = resize_seq(p, n);
                assert(dft(padded, w, n) =~= dft(p, w, n)) by {
                    assert forall|i: int| 0 <= i < n implies dft(padded, w, n)[i] == dft(p, w, n)[i] by {
                        lemma_eval_coef(padded, p, pow(w, i as nat));
                    }
                }
                assert(reduced(padded));
                assert(raw == padded);
                lemma_normalize_unique(p, padded);
            }
            assert(interpolates(r@, values(evals@), w, n));
        }
        r
    }

    /// The polynomial that takes the given values on the coset `k * H` of
    /// the domain `H`, given the inverse of `k`: the inverse transform,
    /// followed by the substitution of `k_inv * X` for `X`.
    pub fn coset_ifft_with_domain(
        domain: &EvaluationDomain,
        evals: &[Scalar],
        k_inv: &Scalar,
    ) -> (r: Self)
        requires
            domain.wf(),
            all_wf(evals@),
            k_inv.wf(),
        ensures
            r.wf(),
            r@ == normalize(
                mul_var_seq(
                    interpolation(
                        values(evals@),
                        domain.spec_group_gen().value(),
                        domain.spec_size(),
                    ),
                    k_inv.value(),
                ),
            ),
    {
        Self::ifft_with_domain(domain, evals).mul_var(k_inv)
    }
}

/// Calls `EvaluationDomain::new` of `ark_poly::Radix2EvaluationDomain` over
/// `ark_bn254::Fr` and hands out the generator of the domain. For a power of
/// two the domain has that size, and it exists exactly up to `2^28`, the
/// two-adicity of the field. The generator is named [`root_of_unity`]; its
/// power by the size is one.
#[verifier::external_body]
fn radix2_generator(n: usize) -> (r: Option<Scalar>)
    requires
        is_pow2(n as int),
    ensures
        r.is_some() <==> n <= MAX_RADIX2_SIZE,
        r matches Some(g) ==> g.wf() && g.value() == root_of_unity(n as nat) && pow(
            g.value(),
            n as nat,
        ) % modulus() == 1,
{
    Radix2EvaluationDomain::<Fr>::new(n).map(|d| Scalar::from_reduced(d.group_gen.into_bigint().0))
}

/// Calls `EvaluationDomain::new` of `ark_poly::MixedRadixEvaluationDomain`
/// over `ark_bn254::Fr` and hands out the generator of the domain. For a
/// size `2^k` or `3 * 2^k` with `k` at most 28 there is a domain, and it has
/// that size. The generator is named [`root_of_unity`]; its power by the
/// size is one.
#[verifier::external_body]
fn mixed_radix_generator(n: usize) -> (r: Option<Scalar>)
    requires
        admissible_size(n as int),
        domain_exists(n as int),
    ensures
        r.is_some(),
        r matches Some(g) ==> g.wf() && g.value() == root_of_unity(n as nat) && pow(
            g.value(),
            n as nat,
        ) % modulus() == 1,
{
    MixedRadixEvaluationDomain::<Fr>::new(n).map(
        |d| Scalar::from_reduced(d.group_gen.into_bigint().0),
    )
}

/// Calls `EvaluationDomain::fft` of `ark_poly::Radix2EvaluationDomain` on
/// the domain of size `n`. The result lists the values of the polynomial at
/// the successive powers of the domain's generator.
#[verifier::external_body]
fn radix2_fft(n: usize, coefs: &[Scalar]) -> (r: Vec<Scalar>)
    requires
        is_pow2(n as int),
        n <= MAX_RADIX2_SIZE,
        coefs@.len() <= n,
        all_wf(coefs@),
    ensures
        all_wf(r@),
        values(r@) == dft(values(coefs@), root_of_unity(n as nat), n as nat),
{
    let c: Vec<Fr> = coefs.iter().map(|c| Fr::from(BigInt(c.to_limbs()))).collect();
    let v = Radix2EvaluationDomain::<Fr>::new(n).unwrap().fft(&c);
    v.iter().map(|x| Scalar::from_reduced(x.into_bigint().0)).collect()
}

/// Calls `EvaluationDomain::fft` of `ark_poly::MixedRadixEvaluationDomain`
/// on the domain of size `n`. The result lists the values of the polynomial
/// at the successive powers of the domain's generator.
#[verifier::external_body]
fn mixed_radix_fft(n: usize, coefs: &[Scalar]) -> (r: Vec<Scalar>)
    requires
        admissible_size(n as int),
        domain_exists(n as int),
        coefs@.len() <= n,
        all_wf(coefs@),
    ensures
        all_wf(r@),
        values(r@) == dft(values(coefs@), root_of_unity(n as nat), n as nat),
{
    let c: Vec<Fr> = coefs.iter().map(|c| Fr::from(BigInt(c.to_limbs()))).collect();
    let v = MixedRadixEvaluationDomain::<Fr>::new(n).unwrap().fft(&c);
    v.iter().map(|x| Scalar::from_reduced(x.into_bigint().0)).collect()
}

/// Calls `EvaluationDomain::ifft` of `ark_poly::Radix2EvaluationDomain` on
/// the domain of size `n`, which first cuts or extends the values with
/// zeros to `n`. The result is the one list of `n` coefficients whose
/// forward transform gives those values back.
#[verifier::external_body]
fn radix2_ifft(n: usize, evals: &[Scalar]) -> (r: Vec<Scalar>)
    requires
        is_pow2(n as int),
        n <= MAX_RADIX2_SIZE,
        all_wf(evals@),
    ensures
        all_wf(r@),
        r@.len() == n,
        dft(values(r@), root_of_unity(n as nat), n as nat) == resize_seq(values(evals@), n as nat),
        forall|c: Seq<int>|
            reduced(c) && c.len() == n && #[trigger] dft(c, root_of_unity(n as nat), n as nat)
                == resize_seq(values(evals@), n as nat) ==> values(r@) == c,
{
    let e: Vec<Fr> = evals.iter().map(|c| Fr::from(BigInt(c.to_limbs()))).collect();
    let v = Radix2EvaluationDomain::<Fr>::new(n).unwrap().ifft(&e);
    v.iter().map(|x| Scalar::from_reduced(x.into_bigint().0)).collect()
}

/// Calls `EvaluationDomain::ifft` of `ark_poly::MixedRadixEvaluationDomain`
/// on the domain of size `n`, which first cuts or extends the values with
/// zeros to `n`. The result is the one list of `n` coefficients whose
/// forward transform gives those values back.
#[verifier::external_body]
fn mixed_radix_ifft(n: usize, evals: &[Scalar]) -> (r: Vec<Scalar>)
    requires
        admissible_size(n as int),
        domain_exists(n as int),
        all_wf(evals@),
    ensures
        all_wf(r@),
        r@.len() == n,
        dft(values(r@), root_of_unity(n as nat), n as nat) == resize_seq(values(evals@), n as nat),
        forall|c: Seq<int>|
            reduced(c) && c.len() == n && #[trigger] dft(c, root_of_unity(n as nat), n as nat)
                == resize_seq(values(evals@), n as nat) ==> values(r@) == c,
{
    let e: Vec<Fr> = evals.iter().map(|c| Fr::from(BigInt(c.to_limbs()))).collect();
    let v = MixedRadixEvaluationDomain::<Fr>::new(n).unwrap().ifft(&e);
    v.iter().map(|x| Scalar::from_reduced(x.into_bigint().0)).collect()
}

} // verus!
