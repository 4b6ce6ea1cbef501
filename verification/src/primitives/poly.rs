//! Dense univariate polynomials over the scalar field.

use crate::primitives::algebra::{
    add_coef_seq,
    add_seq,
    coef,
    conv,
    eval,
    eval_sum,
    is_div_rem,
    is_trimmed,
    mul_linear,
    mul_var_seq,
    neg_seq,
    normalize,
    reduced,
    roots_poly,
    scale_seq,
    sub_seq,
    trim,
};
use crate::primitives::canonical::{
    lemma_normalize,
    lemma_trim_fixed,
};
use crate::primitives::division::{
    lemma_conv_sum_coef,
    lemma_conv_sum_update,
    lemma_conv_sum_zero,
};
use crate::primitives::evaluation::{
    lemma_eval_normalize,
    lemma_roots_poly_shape,
    lemma_roots_poly_vanishes,
};
use crate::primitives::field::{le_bytes_value, modulus, modulus_bytes, Scalar};
use crate::primitives::modular::{
    lemma_add_mod,
    lemma_mul_mod,
    lemma_pow_succ,
    lemma_reduced_mod,
    lemma_sub_mod,
};
use vstd::arithmetic::power::pow;
use vstd::prelude::*;

verus! {

/// The canonical representatives of a sequence of scalars.
pub open spec fn values(s: Seq<Scalar>) -> Seq<int> {
    Seq::new(s.len(), |i: int| s[i].value())
}

/// The canonical representatives of a sequence of borrowed scalars.
pub open spec fn ref_values(s: Seq<&Scalar>) -> Seq<int> {
    Seq::new(s.len(), |i: int| s[i].value())
}

/// Every scalar of the sequence is well formed.
pub open spec fn all_wf(s: Seq<Scalar>) -> bool {
    forall|i: int| 0 <= i < s.len() ==> (#[trigger] s[i]).wf()
}

/// Well-formed scalars have canonical residues as values.
pub proof fn lemma_values_reduced(s: Seq<Scalar>)
    requires
        all_wf(s),
    ensures
        reduced(values(s)),
{
    assert forall|i: int| 0 <= i < s.len() implies 0 <= #[trigger] values(s)[i] < modulus() by {
        assert(s[i].wf());
        s[i].lemma_value_range();
    }
}

/// A polynomial `a_0 + a_1 X + ... + a_k X^k`, stored as its coefficients
/// from the constant term upwards.
#[derive(Debug, PartialEq, Eq)]
pub struct FpPolynomial {
    /// Coefficients, low order first.
    pub coefs: Vec<Scalar>,
}

impl View for FpPolynomial {
    type V = Seq<int>;

    /// The coefficients as canonical residues.
    open spec fn view(&self) -> Seq<int> {
        values(self.coefs@)
    }
}

impl Clone for FpPolynomial {
    fn clone(&self) -> (r: Self)
        ensures
            r.coefs@ == self.coefs@,
    {
        let mut coefs: Vec<Scalar> = Vec::new();
        let n: usize = self.coefs.len();
        let mut i: usize = 0;
        while i < n
            invariant
                n == self.coefs.len(),
                i <= n,
                coefs@ == self.coefs@.subrange(0, i as int),
            decreases n - i,
        {
            coefs.push(self.coefs[i]);
            i += 1;
            assert(coefs@ =~= self.coefs@.subrange(0, i as int));
        }
        assert(coefs@ =~= self.coefs@);
        FpPolynomial { coefs }
    }
}

impl FpPolynomial {
    /// Canonical form: every coefficient is a field element, and either one
    /// coefficient is stored or the leading one is nonzero.
    pub open spec fn wf(&self) -> bool {
        all_wf(self.coefs@) && is_trimmed(self@)
    }

    /// The stored coefficients.
    pub fn get_coefs_ref(&self) -> (r: &[Scalar])
        ensures
            r@ == self.coefs@,
    {
        self.coefs.as_slice()
    }

    /// The modulus of the coefficient field in little-endian bytes.
    pub fn get_field_size(&self) -> (r: Vec<u8>)
        ensures
            r@.len() == 32,
            le_bytes_value(r@) == modulus(),
    {
        modulus_bytes()
    }

    /// The constant polynomial zero.
    pub fn zero() -> (r: Self)
        ensures
            r.wf(),
            r@ == seq![0int],
    {
        let mut coefs: Vec<Scalar> = Vec::new();
        coefs.push(Scalar::zero());
        let r = FpPolynomial { coefs };
        assert(r@ =~= seq![0int]);
        r
    }

    /// The constant polynomial one.
    pub fn one() -> (r: Self)
        ensures
            r.wf(),
            r@ == seq![1int],
    {
        let mut coefs: Vec<Scalar> = Vec::new();
        coefs.push(Scalar::one());
        let r = FpPolynomial { coefs };
        assert(r@ =~= seq![1int]);
        r
    }

    /// The polynomial with the given coefficients, low order first.
    /// High-order zeros are dropped; the empty list denotes zero.
    pub fn from_coefs(coefs: Vec<Scalar>) -> (r: Self)
        requires
            all_wf(coefs@),
        ensures
            r.wf(),
            r@ == normalize(values(coefs@)),
            forall|z: int| eval(r@, z) == eval(values(coefs@), z),
    {
        let mut p = FpPolynomial { coefs };
        p.trim_coefs();
        proof {
            assert forall|z: int| eval(p@, z) == eval(values(coefs@), z) by {
                lemma_eval_normalize(values(coefs@), z);
            }
        }
        p
    }

    /// The monic polynomial with the given roots: the product of `X - z`
    /// over all `z` in `zeroes`. It vanishes at each of them.
    pub fn from_zeroes(zeroes: &[Scalar]) -> (r: Self)
        requires
            all_wf(zeroes@),
        ensures
            r.wf(),
            r@ == roots_poly(values(zeroes@)),
            forall|j: int| 0 <= j < zeroes@.len() ==> eval(r@, (#[trigger] zeroes@[j]).value()) == 0,
    {
        let mut roots_ref: Vec<&Scalar> = Vec::new();
        let n: usize = zeroes.len();
        let mut i: usize = 0;
        while i < n
            invariant
                n == zeroes@.len(),
                i <= n,
                roots_ref@.len() == i,
                forall|j: int| 0 <= j < i ==> *(#[trigger] roots_ref@[j]) == zeroes@[j],
            decreases n - i,
        {
            roots_ref.push(&zeroes[i]);
            i += 1;
        }
        proof {
            assert(ref_values(roots_ref@) =~= values(zeroes@));
            assert forall|j: int| 0 <= j < roots_ref@.len() implies (#[trigger] roots_ref@[j]).wf() by {
                assert(zeroes@[j].wf());
            }
        }
        let r = Self::from_zeroes_ref(roots_ref.as_slice());
        proof {
            assert forall|j: int| 0 <= j < zeroes@.len() implies eval(
                r@,
                (#[trigger] zeroes@[j]).value(),
            ) == 0 by {
                assert(*roots_ref@[j] == zeroes@[j]);
            }
        }
        r
    }

    /// The monic polynomial with the given roots, taken by reference.
    pub fn from_zeroes_ref(zeroes: &[&Scalar]) -> (r: Self)
        requires
            forall|j: int| 0 <= j < zeroes@.len() ==> (#[trigger] zeroes@[j]).wf(),
        ensures
            r.wf(),
            r@ == roots_poly(ref_values(zeroes@)),
            forall|j: int| 0 <= j < zeroes@.len() ==> eval(r@, (#[trigger] zeroes@[j]).value()) == 0,
    {
        let mut r = Self::one();
        let n: usize = zeroes.len();
        let ghost zs = ref_values(zeroes@);
        let mut i: usize = 0;
        proof {
            assert(zs.take(0) =~= Seq::<int>::empty());
        }
        while i < n
            invariant
                n == zeroes@.len(),
                i <= n,
                zs == ref_values(zeroes@),
                forall|j: int| 0 <= j < zeroes@.len() ==> (#[trigger] zeroes@[j]).wf(),
                r.wf(),
                r@ == roots_poly(zs.take(i as int)),
            decreases n - i,
        {
            let root: &Scalar = zeroes[i];
            assert(zeroes@[i as int].wf());
            let ghost before = r@;
            let ghost z = root.value();
            let ghost before_coefs = r.coefs@;
            let mut p = r.clone();
            r.coefs.insert(0, Scalar::zero());
            let ghost shifted = r@;
            p.mul_scalar_assign(root);
            proof {
                lemma_roots_poly_shape(zs.take(i as int));
                assert(shifted.len() == before.len() + 1);
                assert forall|t: int| 0 <= t < shifted.len() implies shifted[t] == coef(
                    before,
                    t - 1,
                ) by {
                    if t > 0 {
                        assert(r.coefs@[t] == before_coefs[t - 1]);
                        assert(before[t - 1] == before_coefs[t - 1].value());
                    }
                }
                assert forall|t: int| 0 <= t < r.coefs@.len() implies (#[trigger] r.coefs@[t]).wf() by {
                    if t > 0 {
                        assert(r.coefs@[t] == before_coefs[t - 1]);
                        assert(before_coefs[t - 1].wf());
                    }
                }
                assert(shifted.last() == before.last());
            }
            r.sub_assign(&p);
            proof {
                let target = mul_linear(before, z);
                let scaled = scale_seq(before, z);
                lemma_normalize(scaled);
                let got = sub_seq(shifted, p@);
                assert(got.len() == target.len());
                assert forall|t: int| 0 <= t < target.len() implies got[t] == target[t] by {
                    assert(coef(p@, t) == coef(scaled, t));
                    if t < before.len() {
                        lemma_sub_mod(coef(before, t - 1), before[t] * z);
                        assert(before[t] * z == z * before[t]) by (nonlinear_arith);
                    } else {
                        assert(z * 0 == 0) by (nonlinear_arith);
                    }
                }
                assert(got =~= target);
                assert(zs.take(i + 1).drop_last() =~= zs.take(i as int));
                assert(zs.take(i + 1).last() == z);
                lemma_roots_poly_shape(zs.take(i + 1));
                lemma_trim_fixed(target);
            }
            i += 1;
        }
        r.trim_coefs();
        proof {
            assert(zs.take(n as int) =~= zs);
            lemma_roots_poly_shape(zs);
            lemma_trim_fixed(roots_poly(zs));
            assert forall|j: int| 0 <= j < zeroes@.len() implies eval(
                r@,
                (#[trigger] zeroes@[j]).value(),
            ) == 0 by {
                lemma_roots_poly_vanishes(zs, j);
            }
        }
        r
    }

    /// Drops high-order zero coefficients, keeping at least one coefficient.
    fn trim_coefs(&mut self)
        requires
            all_wf(old(self).coefs@),
        ensures
            final(self).wf(),
            final(self)@ == normalize(old(self)@),
    {
        if self.coefs.len() == 0 {
            self.coefs.push(Scalar::zero());
            assert(self@ =~= seq![0int]);
            return ;
        }
        let mut n: usize = self.coefs.len();
        while n > 1 && self.coefs[n - 1].is_zero()
            invariant
                n == self.coefs.len(),
                n >= 1,
                all_wf(self.coefs@),
                trim(self@) == trim(old(self)@),
            decreases n,
        {
            let ghost before = self@;
            self.coefs.pop();
            n -= 1;
            assert(self@ =~= before.drop_last());
        }
    }

    /// The degree: one less than the number of stored coefficients. The
    /// zero polynomial has degree zero like every other constant.
    pub fn degree(&self) -> (d: usize)
        ensures
            d == if self@.len() == 0 {
                0
            } else {
                self@.len() - 1
            },
    {
        if self.coefs.len() == 0 {
            0
        } else {
            self.coefs.len() - 1
        }
    }

    /// Whether this is the zero polynomial.
    pub fn is_zero(&self) -> (r: bool)
        requires
            self.wf(),
        ensures
            r == (self@ == seq![0int]),
    {
        let r = self.degree() == 0 && self.coefs[0].is_zero();
        proof {
            if r {
                assert(self@ =~= seq![0int]);
            } else if self@ == seq![0int] {
                assert(self@.len() == 1);
                assert(self@[0] == 0);
            }
        }
        r
    }

    /// The value at `point`: the sum of `a_i * point^i`.
    pub fn eval(&self, point: &Scalar) -> (r: Scalar)
        requires
            self.wf(),
            point.wf(),
        ensures
            r.wf(),
            r.value() == eval(self@, point.value()),
    {
        let mut result = Scalar::zero();
        let mut variable = Scalar::one();
        let n: usize = self.coefs.len();
        let ghost z = point.value();
        let mut i: usize = 0;
        proof {
            lemma_pow_succ(z, 0);
            lemma_reduced_mod(1);
            lemma_reduced_mod(0);
        }
        while i < n
            invariant
                n == self.coefs.len(),
                i <= n,
                all_wf(self.coefs@),
                point.wf(),
                z == point.value(),
                result.wf(),
                variable.wf(),
                result.value() == eval_sum(self@, z, i as nat) % modulus(),
                variable.value() == pow(z, i as nat) % modulus(),
            decreases n - i,
        {
            let c = self.coefs[i];
            assert(self.coefs@[i as int].wf());
            let a = variable.mul(&c);
            let next = result.add(&a);
            let next_variable = variable.mul(point);
            proof {
                let s = eval_sum(self@, z, i as nat);
                let w = pow(z, i as nat);
                assert(coef(self@, i as int) == c.value());
                lemma_mul_mod(w, c.value());
                lemma_add_mod(s, w * c.value());
                assert(w * c.value() == c.value() * w) by (nonlinear_arith);
                assert(next.value() == eval_sum(self@, z, (i + 1) as nat) % modulus());
                lemma_mul_mod(w, z);
                lemma_pow_succ(z, i as nat);
                assert(w * z == z * w) by (nonlinear_arith);
            }
            result = next;
            variable = next_variable;
            i += 1;
        }
        result
    }

    /// Adds `other` to `self`, coefficient by coefficient.
    pub fn add_assign(&mut self, other: &Self)
        requires
            old(self).wf(),
            other.wf(),
        ensures
            final(self).wf(),
            final(self)@ == normalize(add_seq(old(self)@, other@)),
    {
        let n: usize = self.coefs.len();
        let m: usize = other.coefs.len();
        let ghost a = self@;
        let ghost b = other@;
        proof {
            lemma_values_reduced(self.coefs@);
            lemma_values_reduced(other.coefs@);
        }
        let mut i: usize = 0;
        while i < n && i < m
            invariant
                self.coefs.len() == n,
                other.coefs.len() == m,
                a.len() == n,
                b == other@,
                i <= n,
                i <= m,
                all_wf(self.coefs@),
                all_wf(other.coefs@),
                forall|t: int| 0 <= t < i ==> (#[trigger] self.coefs@[t]).value() == (a[t] + b[t]) % modulus(),
                forall|t: int| i <= t < n ==> (#[trigger] self.coefs@[t]).value() == a[t],
            decreases n - i,
        {
            let ghost before = self.coefs@;
            assert(before[i as int].wf());
            assert(other.coefs@[i as int].wf());
            let v = self.coefs[i].add(&other.coefs[i]);
            self.coefs.set(i, v);
            proof {
                assert(b[i as int] == other.coefs@[i as int].value());
                assert forall|t: int| 0 <= t < n implies (#[trigger] self.coefs@[t]).wf() by {
                    if t != i {
                        assert(before[t].wf());
                    }
                }
                assert forall|t: int| 0 <= t < i + 1 implies (#[trigger] self.coefs@[t]).value() == (
                a[t] + b[t]) % modulus() by {
                    if t != i {
                        assert(self.coefs@[t] == before[t]);
                    }
                }
                assert forall|t: int| i + 1 <= t < n implies (#[trigger] self.coefs@[t]).value()
                    == a[t] by {
                    assert(self.coefs@[t] == before[t]);
                }
            }
            i += 1;
        }
        let mut j: usize = n;
        while j < m
            invariant
                n <= j,
                n <= m ==> j <= m,
                other.coefs.len() == m,
                a.len() == n,
                b == other@,
                self.coefs.len() == if n <= m {
                    j
                } else {
                    n
                },
                all_wf(self.coefs@),
                all_wf(other.coefs@),
                forall|t: int|
                    0 <= t < n && t < m ==> (#[trigger] self.coefs@[t]).value() == (a[t] + b[t])
                        % modulus(),
                forall|t: int| m <= t < n ==> (#[trigger] self.coefs@[t]).value() == a[t],
                forall|t: int| n <= t < j ==> (#[trigger] self.coefs@[t]).value() == b[t],
            decreases m - j,
        {
            let ghost before = self.coefs@;
            assert(other.coefs@[j as int].wf());
            self.coefs.push(other.coefs[j]);
            proof {
                assert(b[j as int] == other.coefs@[j as int].value());
                assert forall|t: int| 0 <= t < j + 1 implies (#[trigger] self.coefs@[t]).wf() by {
                    if t != j {
                        assert(before[t].wf());
                    }
                }
                assert forall|t: int| 0 <= t < n && t < m implies (#[trigger] self.coefs@[t]).value()
                    == (a[t] + b[t]) % modulus() by {
                    assert(self.coefs@[t] == before[t]);
                }
                assert forall|t: int| n <= t < j + 1 implies (#[trigger] self.coefs@[t]).value()
                    == b[t] by {
                    if t != j {
                        assert(self.coefs@[t] == before[t]);
                    }
                }
            }
            j += 1;
        }
        proof {
            let target = add_seq(a, b);
            assert(self@.len() == target.len());
            assert forall|t: int| 0 <= t < target.len() implies self@[t] == target[t] by {
                if t < n && t < m {
                } else if t < n {
                    lemma_reduced_mod(a[t]);
                } else {
                    lemma_reduced_mod(b[t]);
                }
            }
            assert(self@ =~= target);
        }
        self.trim_coefs();
    }

    /// The sum of two polynomials.
    pub fn add(&self, other: &Self) -> (r: Self)
        requires
            self.wf(),
            other.wf(),
        ensures
            r.wf(),
            r@ == normalize(add_seq(self@, other@)),
    {
        let mut new = self.clone();
        new.add_assign(other);
        new
    }

    /// Subtracts `other` from `self`, coefficient by coefficient.
    pub fn sub_assign(&mut self, other: &Self)
        requires
            old(self).wf(),
            other.wf(),
        ensures
            final(self).wf(),
            final(self)@ == normalize(sub_seq(old(self)@, other@)),
    {
        let n: usize = self.coefs.len();
        let m: usize = other.coefs.len();
        let ghost a = self@;
        let ghost b = other@;
        proof {
            lemma_values_reduced(self.coefs@);
            lemma_values_reduced(other.coefs@);
        }
        let mut i: usize = 0;
        while i < n && i < m
            invariant
                self.coefs.len() == n,
                other.coefs.len() == m,
                a.len() == n,
                b == other@,
                i <= n,
                i <= m,
                all_wf(self.coefs@),
                all_wf(other.coefs@),
                forall|t: int| 0 <= t < i ==> (#[trigger] self.coefs@[t]).value() == (a[t] - b[t]) % modulus(),
                forall|t: int| i <= t < n ==> (#[trigger] self.coefs@[t]).value() == a[t],
            decreases n - i,
        {
            let ghost before = self.coefs@;
            assert(before[i as int].wf());
            assert(other.coefs@[i as int].wf());
            let v = self.coefs[i].sub(&other.coefs[i]);
            self.coefs.set(i, v);
            proof {
                assert(b[i as int] == other.coefs@[i as int].value());
                assert forall|t: int| 0 <= t < n implies (#[trigger] self.coefs@[t]).wf() by {
                    if t != i {
                        assert(before[t].wf());
                    }
                }
                assert forall|t: int| 0 <= t < i + 1 implies (#[trigger] self.coefs@[t]).value() == (
                a[t] - b[t]) % modulus() by {
                    if t != i {
                        assert(self.coefs@[t] == before[t]);
                    }
                }
                assert forall|t: int| i + 1 <= t < n implies (#[trigger] self.coefs@[t]).value()
                    == a[t] by {
                    assert(self.coefs@[t] == before[t]);
                }
            }
            i += 1;
        }
        let mut j: usize = n;
        while j < m
            invariant
                n <= j,
                n <= m ==> j <= m,
                other.coefs.len() == m,
                a.len() == n,
                b == other@,
                self.coefs.len() == if n <= m {
                    j
                } else {
                    n
                },
                all_wf(self.coefs@),
                all_wf(other.coefs@),
                forall|t: int|
                    0 <= t < n && t < m ==> (#[trigger] self.coefs@[t]).value() == (a[t] - b[t])
                        % modulus(),
                forall|t: int| m <= t < n ==> (#[trigger] self.coefs@[t]).value() == a[t],
                forall|t: int| n <= t < j ==> (#[trigger] self.coefs@[t]).value() == (-b[t]) % modulus(),
            decreases m - j,
        {
            let ghost before = self.coefs@;
            assert(other.coefs@[j as int].wf());
            let v = other.coefs[j].neg();
            self.coefs.push(v);
            proof {
                assert(b[j as int] == other.coefs@[j as int].value());
                assert forall|t: int| 0 <= t < j + 1 implies (#[trigger] self.coefs@[t]).wf() by {
                    if t != j {
                        assert(before[t].wf());
                    }
                }
                assert forall|t: int| 0 <= t < n && t < m implies (#[trigger] self.coefs@[t]).value()
                    == (a[t] - b[t]) % modulus() by {
                    assert(self.coefs@[t] == before[t]);
                }
                assert forall|t: int| n <= t < j + 1 implies (#[trigger] self.coefs@[t]).value() == (
                -b[t]) % modulus() by {
                    if t != j {
                        assert(self.coefs@[t] == before[t]);
                    }
                }
            }
            j += 1;
        }
        proof {
            let target = sub_seq(a, b);
            assert(self@.len() == target.len());
            assert forall|t: int| 0 <= t < target.len() implies self@[t] == target[t] by {
                if t < n && t < m {
                } else if t < n {
                    lemma_reduced_mod(a[t]);
                } else {
                }
            }
            assert(self@ =~= target);
        }
        self.trim_coefs();
    }

    /// The difference of two polynomials.
    pub fn sub(&self, other: &Self) -> (r: Self)
        requires
            self.wf(),
            other.wf(),
        ensures
            r.wf(),
            r@ == normalize(sub_seq(self@, other@)),
    {
        let mut new = self.clone();
        new.sub_assign(other);
        new
    }

    /// Negates every coefficient.
    pub fn neg_assign(&mut self)
        requires
            old(self).wf(),
        ensures
            final(self).wf(),
            final(self)@ == normalize(neg_seq(old(self)@)),
    {
        let minus_one = Scalar::one().neg();
        let ghost a = self@;
        self.mul_scalar_assign(&minus_one);
        proof {
            assert(scale_seq(a, minus_one.value()) =~= neg_seq(a)) by {
                assert forall|t: int| 0 <= t < a.len() implies scale_seq(a, minus_one.value())[t]
                    == neg_seq(a)[t] by {
                    lemma_mul_mod(a[t], -1);
                    assert(a[t] * (-1) == -a[t]) by (nonlinear_arith);
                }
            }
        }
    }

    /// The polynomial with every coefficient negated.
    pub fn neg(&self) -> (r: Self)
        requires
            self.wf(),
        ensures
            r.wf(),
            r@ == normalize(neg_seq(self@)),
    {
        let mut new = self.clone();
        new.neg_assign();
        new
    }

    /// Adds `coef` to the coefficient of `X^order`, growing the polynomial
    /// with zeros where it is shorter.
    pub fn add_coef_assign(&mut self, coef: &Scalar, order: usize)
        requires
            old(self).wf(),
            coef.wf(),
            order < usize::MAX,
        ensures
            final(self).wf(),
            final(self)@ == normalize(add_coef_seq(old(self)@, coef.value(), order as int)),
    {
        let ghost a = self@;
        let ghost n = self.coefs.len();
        while self.degree() < order
            invariant
                self.coefs.len() >= n >= 1,
                a.len() == n,
                self.coefs.len() <= order + 1 || self.coefs.len() == n,
                order < usize::MAX,
                all_wf(self.coefs@),
                forall|t: int| 0 <= t < n ==> (#[trigger] self.coefs@[t]).value() == a[t],
                forall|t: int| n <= t < self.coefs.len() ==> (#[trigger] self.coefs@[t]).value() == 0,
            decreases order + 1 - self.coefs.len(),
        {
            let ghost before = self.coefs@;
            self.coefs.push(Scalar::zero());
            proof {
                assert forall|t: int| 0 <= t < self.coefs.len() implies (
                #[trigger] self.coefs@[t]).wf() by {
                    if t < before.len() {
                        assert(before[t].wf());
                    }
                }
                assert forall|t: int| 0 <= t < n implies (#[trigger] self.coefs@[t]).value()
                    == a[t] by {
                    assert(self.coefs@[t] == before[t]);
                }
                assert forall|t: int| n <= t < self.coefs.len() implies (
                #[trigger] self.coefs@[t]).value() == 0 by {
                    if t < before.len() {
                        assert(self.coefs@[t] == before[t]);
                    }
                }
            }
        }
        let ghost before = self.coefs@;
        assert(before[order as int].wf());
        let v = self.coefs[order].add(coef);
        self.coefs.set(order, v);
        proof {
            assert forall|t: int| 0 <= t < self.coefs.len() implies (#[trigger] self.coefs@[t]).wf() by {
                if t != order {
                    assert(before[t].wf());
                }
            }
            let target = add_coef_seq(a, coef.value(), order as int);
            assert(self@.len() == target.len());
            assert forall|t: int| 0 <= t < target.len() implies self@[t] == target[t] by {
                if t != order {
                    assert(self.coefs@[t] == before[t]);
                }
            }
            assert(self@ =~= target);
        }
        self.trim_coefs();
    }

    /// Multiplies every coefficient by `scalar`.
    pub fn mul_scalar_assign(&mut self, scalar: &Scalar)
        requires
            old(self).wf(),
            scalar.wf(),
        ensures
            final(self).wf(),
            final(self)@ == normalize(scale_seq(old(self)@, scalar.value())),
    {
        let n: usize = self.coefs.len();
        let ghost a = self@;
        let mut i: usize = 0;
        while i < n
            invariant
                self.coefs.len() == n,
                a.len() == n,
                i <= n,
                scalar.wf(),
                all_wf(self.coefs@),
                forall|t: int|
                    0 <= t < i ==> (#[trigger] self.coefs@[t]).value() == (a[t] * scalar.value())
                        % modulus(),
                forall|t: int| i <= t < n ==> (#[trigger] self.coefs@[t]).value() == a[t],
            decreases n - i,
        {
            let ghost before = self.coefs@;
            assert(before[i as int].wf());
            let v = self.coefs[i].mul(scalar);
            self.coefs.set(i, v);
            proof {
                assert forall|t: int| 0 <= t < n implies (#[trigger] self.coefs@[t]).wf() by {
                    if t != i {
                        assert(before[t].wf());
                    }
                }
                assert forall|t: int| 0 <= t < i + 1 implies (#[trigger] self.coefs@[t]).value() == (
                a[t] * scalar.value()) % modulus() by {
                    if t != i {
                        assert(self.coefs@[t] == before[t]);
                    }
                }
                assert forall|t: int| i + 1 <= t < n implies (#[trigger] self.coefs@[t]).value()
                    == a[t] by {
                    assert(self.coefs@[t] == before[t]);
                }
            }
            i += 1;
        }
        assert(self@ =~= scale_seq(a, scalar.value()));
        self.trim_coefs();
    }

    /// The polynomial with every coefficient multiplied by `scalar`.
    pub fn mul_scalar(&self, scalar: &Scalar) -> (r: Self)
        requires
            self.wf(),
            scalar.wf(),
        ensures
            r.wf(),
            r@ == normalize(scale_seq(self@, scalar.value())),
    {
        let mut new = self.clone();
        new.mul_scalar_assign(scalar);
        new
    }

    /// The scalar action on polynomials: every coefficient times `exp`.
    pub fn mul(&self, exp: &Scalar) -> (r: Self)
        requires
            self.wf(),
            exp.wf(),
        ensures
            r.wf(),
            r@ == normalize(scale_seq(self@, exp.value())),
    {
        self.mul_scalar(exp)
    }

    /// The scalar action on polynomials, in place.
    pub fn mul_assign(&mut self, exp: &Scalar)
        requires
            old(self).wf(),
            exp.wf(),
        ensures
            final(self).wf(),
            final(self)@ == normalize(scale_seq(old(self)@, exp.value())),
    {
        self.mul_scalar_assign(exp)
    }

    /// Replaces `X` by `scalar * X`: the coefficient of `X^i` is multiplied
    /// by `scalar^i`.
    pub fn mul_var_assign(&mut self, scalar: &Scalar)
        requires
            old(self).wf(),
            scalar.wf(),
        ensures
            final(self).wf(),
            final(self)@ == normalize(mul_var_seq(old(self)@, scalar.value())),
    {
        let n: usize = self.coefs.len();
        let ghost a = self@;
        let ghost s = scalar.value();
        let mut r = Scalar::one();
        let mut i: usize = 0;
        proof {
            lemma_pow_succ(s, 0);
            lemma_reduced_mod(1);
        }
        while i < n
            invariant
                self.coefs.len() == n,
                a.len() == n,
                i <= n,
                scalar.wf(),
                s == scalar.value(),
                r.wf(),
                r.value() == pow(s, i as nat) % modulus(),
                all_wf(self.coefs@),
                forall|t: int|
                    0 <= t < i ==> (#[trigger] self.coefs@[t]).value() == (a[t] * pow(s, t as nat))
                        % modulus(),
                forall|t: int| i <= t < n ==> (#[trigger] self.coefs@[t]).value() == a[t],
            decreases n - i,
        {
            let ghost before = self.coefs@;
            assert(before[i as int].wf());
            let v = self.coefs[i].mul(&r);
            self.coefs.set(i, v);
            let next = r.mul(scalar);
            proof {
                let w = pow(s, i as nat);
                lemma_mul_mod(a[i as int], w);
                lemma_mul_mod(w, s);
                lemma_pow_succ(s, i as nat);
                assert(w * s == s * w) by (nonlinear_arith);
                assert forall|t: int| 0 <= t < n implies (#[trigger] self.coefs@[t]).wf() by {
                    if t != i {
                        assert(before[t].wf());
                    }
                }
                assert forall|t: int| 0 <= t < i + 1 implies (#[trigger] self.coefs@[t]).value() == (
                a[t] * pow(s, t as nat)) % modulus() by {
                    if t != i {
                        assert(self.coefs@[t] == before[t]);
                    }
                }
                assert forall|t: int| i + 1 <= t < n implies (#[trigger] self.coefs@[t]).value()
                    == a[t] by {
                    assert(self.coefs@[t] == before[t]);
                }
            }
            r = next;
            i += 1;
        }
        assert(self@ =~= mul_var_seq(a, s));
        self.trim_coefs();
    }

    /// The polynomial `self(scalar * X)`.
    pub fn mul_var(&self, scalar: &Scalar) -> (r: Self)
        requires
            self.wf(),
            scalar.wf(),
        ensures
            r.wf(),
            r@ == normalize(mul_var_seq(self@, scalar.value())),
    {
        let mut new = self.clone();
        new.mul_var_assign(scalar);
        new
    }

    /// Long division: the quotient and the remainder of `self` by `divisor`.
    ///
    /// The divisor must not be the zero polynomial. Quotient and remainder
    /// are the unique canonical polynomials with `self = q * divisor + r`
    /// and `r` shorter than `divisor`.
    pub fn div_rem(&self, divisor: &Self) -> (res: (Self, Self))
        requires
            self.wf(),
            divisor.wf(),
            divisor@ != seq![0int],
        ensures
            res.0.wf(),
            res.1.wf(),
            self@.len() < divisor@.len() ==> res.0@ == seq![0int] && res.1@ == self@,
            self@.len() >= divisor@.len() ==> res.0@.len() + divisor@.len() <= self@.len() + 1,
            is_div_rem(self@, divisor@, res.0@, res.1@),
    {
        let k: usize = self.coefs.len();
        let l: usize = divisor.coefs.len();
        if l > k {
            let q = Self::zero();
            let r = self.clone();
            proof {
                assert forall|t: int| 0 <= t implies coef(self@, t) == (#[trigger] conv(
                    q@,
                    divisor@,
                    t,
                ) + coef(r@, t)) % modulus() by {
                    lemma_conv_sum_zero(q@, divisor@, t, (t + 1) as nat);
                    lemma_values_reduced(self.coefs@);
                    if t < k {
                        lemma_reduced_mod(self@[t]);
                    } else {
                        lemma_reduced_mod(0);
                    }
                }
            }
            return (q, r);
        }
        let m: usize = k - l + 1;
        let lead = divisor.coefs[l - 1];
        proof {
            assert(divisor.coefs@[l - 1].wf());
            assert(divisor@[l - 1] == lead.value());
            if l == 1 {
                if lead.value() == 0 {
                    assert(divisor@ =~= seq![0int]);
                }
            }
        }
        let bl_inv = lead.inverse().unwrap();
        let mut rem: Vec<Scalar> = self.clone().coefs;
        let mut quo: Vec<Scalar> = Vec::new();
        while quo.len() < m
            invariant
                quo.len() <= m,
                forall|t: int| 0 <= t < quo.len() ==> (#[trigger] quo@[t]).wf() && quo@[t].value() == 0,
            decreases m - quo.len(),
        {
            quo.push(Scalar::zero());
        }
        proof {
            lemma_values_reduced(self.coefs@);
            assert forall|t: int| 0 <= t < k implies self@[t] == (#[trigger] conv(
                values(quo@),
                divisor@,
                t,
            ) + rem@[t].value()) % modulus() by {
                lemma_conv_sum_zero(values(quo@), divisor@, t, (t + 1) as nat);
                lemma_reduced_mod(self@[t]);
            }
        }
        let mut i: usize = m;
        while i > 0
            invariant
                k == self.coefs.len(),
                l == divisor.coefs.len(),
                1 <= l <= k,
                m == k - l + 1,
                i <= m,
                rem.len() == k,
                quo.len() == m,
                all_wf(rem@),
                all_wf(quo@),
                all_wf(divisor.coefs@),
                bl_inv.wf(),
                (divisor@[l - 1] * bl_inv.value()) % modulus() == 1,
                forall|t: int| i + l - 1 <= t < k ==> (#[trigger] rem@[t]).value() == 0,
                forall|t: int| 0 <= t < i ==> (#[trigger] quo@[t]).value() == 0,
                forall|t: int|
                    0 <= t < k ==> self@[t] == (#[trigger] conv(values(quo@), divisor@, t)
                        + rem@[t].value()) % modulus(),
            decreases i,
        {
            i -= 1;
            let top = rem[i + l - 1];
            assert(rem@[i + l - 1].wf());
            let qi = bl_inv.mul(&top);
            let ghost rem0 = rem@;
            let ghost quo0 = quo@;
            let mut j: usize = 0;
            while j < l
                invariant
                    l == divisor.coefs.len(),
                    i + l <= k,
                    j <= l,
                    rem.len() == k,
                    rem0.len() == k,
                    all_wf(rem@),
                    all_wf(rem0),
                    all_wf(divisor.coefs@),
                    qi.wf(),
                    forall|t: int| 0 <= t < k && !(i <= t < i + j) ==> #[trigger] rem@[t] == rem0[t],
                    forall|t: int|
                        i <= t < i + j ==> (#[trigger] rem@[t]).value() == (rem0[t].value()
                            - qi.value() * divisor@[t - i]) % modulus(),
                decreases l - j,
            {
                assert(divisor.coefs@[j as int].wf());
                assert(rem@[i + j].wf());
                let a = qi.mul(&divisor.coefs[j]);
                let cur = rem[i + j];
                let nv = cur.sub(&a);
                rem.set(i + j, nv);
                proof {
                    assert(divisor@[j as int] == divisor.coefs@[j as int].value());
                    lemma_sub_mod(rem0[i + j].value(), qi.value() * divisor@[j as int]);
                    assert forall|t: int| 0 <= t < k implies (#[trigger] rem@[t]).wf() by {
                        if t != i + j {
                            assert(rem0[t].wf());
                        }
                    }
                }
                j += 1;
            }
            quo.set(i, qi);
            proof {
                let d = divisor@;
                let dl = d[l - 1];
                let tv = top.value();
                let qv = qi.value();
                let bv = bl_inv.value();
                assert(values(quo@) =~= values(quo0).update(i as int, qv));
                assert(values(quo0)[i as int] == quo0[i as int].value());
                assert forall|t: int| 0 <= t < m implies (#[trigger] quo@[t]).wf() by {
                    if t != i {
                        assert(quo0[t].wf());
                    }
                }
                // The coefficient that the step clears.
                assert(rem@[i + l - 1].value() == 0) by {
                    lemma_mul_mod(bv * tv, dl);
                    assert((bv * tv) * dl == tv * (dl * bv)) by (nonlinear_arith);
                    lemma_mul_mod(tv, dl * bv);
                    assert(tv * 1 == tv) by (nonlinear_arith);
                    assert(rem0[i + l - 1].wf());
                    top.lemma_value_range();
                    lemma_reduced_mod(tv);
                    assert((qv * dl) % modulus() == tv);
                    lemma_sub_mod(tv, qv * dl);
                    lemma_reduced_mod(0);
                }
                assert forall|t: int| i + l - 1 <= t < k implies (#[trigger] rem@[t]).value()
                    == 0 by {
                    if t > i + l - 1 {
                        assert(rem@[t] == rem0[t]);
                    }
                }
                assert forall|t: int| 0 <= t < i implies (#[trigger] quo@[t]).value() == 0 by {
                    assert(quo@[t] == quo0[t]);
                }
                assert forall|t: int| 0 <= t < k implies self@[t] == (#[trigger] conv(
                    values(quo@),
                    d,
                    t,
                ) + rem@[t].value()) % modulus() by {
                    let c0 = conv(values(quo0), d, t);
                    lemma_conv_sum_update(values(quo0), d, t, (t + 1) as nat, i as int, qv);
                    assert(self@[t] == (c0 + rem0[t].value()) % modulus());
                    if t < i {
                        assert(rem@[t] == rem0[t]);
                    } else if t < i + l {
                        let x = qv * d[t - i];
                        assert((qv - 0) * coef(d, t - i) == x);
                        lemma_add_mod(c0 + x, rem0[t].value() - x);
                    } else {
                        assert(rem@[t] == rem0[t]);
                        assert((qv - 0) * coef(d, t - i) == 0) by (nonlinear_arith)
                            requires
                                coef(d, t - i) == 0,
                        ;
                    }
                }
            }
        }
        let ghost full = rem@;
        let ghost quo_values = values(quo@);
        while rem.len() > l - 1
            invariant
                l >= 1,
                l - 1 <= rem.len() <= full.len(),
                rem@ == full.subrange(0, rem.len() as int),
            decreases rem.len(),
        {
            rem.pop();
            assert(rem@ =~= full.subrange(0, rem.len() as int));
        }
        if rem.len() == 0 {
            rem.push(Scalar::zero());
        }
        proof {
            assert forall|t: int| 0 <= t < rem.len() implies (#[trigger] rem@[t]).wf() by {
                if l > 1 {
                    assert(full[t].wf());
                }
            }
        }
        let ghost rem_values = values(rem@);
        let q = FpPolynomial::from_coefs(quo);
        let r = FpPolynomial::from_coefs(rem);
        proof {
            let d = divisor@;
            lemma_normalize(quo_values);
            lemma_normalize(rem_values);
            if l == 1 {
                assert(rem_values =~= seq![0int]);
            }
            assert forall|t: int| 0 <= t implies coef(self@, t) == (#[trigger] conv(q@, d, t)
                + coef(r@, t)) % modulus() by {
                lemma_conv_sum_coef(q@, quo_values, d, t, (t + 1) as nat);
                assert(coef(r@, t) == coef(rem_values, t));
                if t < k {
                    assert(self@[t] == (conv(quo_values, d, t) + full[t].value()) % modulus());
                    if t < l - 1 {
                        assert(rem_values[t] == full[t].value());
                    } else {
                        assert(full[t].value() == 0);
                    }
                } else {
                    lemma_conv_sum_zero(quo_values, d, t, (t + 1) as nat);
                    lemma_reduced_mod(0);
                }
            }
        }
        (q, r)
    }
}

} // verus!
