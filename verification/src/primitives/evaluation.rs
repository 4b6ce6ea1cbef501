//! Evaluation is a homomorphism: the value of a sum, a difference, a
//! multiple or a product with a linear factor is what the values give.

use crate::primitives::algebra::{
    add_seq,
    coef,
    eval,
    eval_sum,
    is_trimmed,
    mul_linear,
    mul_var_seq,
    normalize,
    reduced,
    roots_poly,
    scale_seq,
    sub_seq,
};
use crate::primitives::canonical::lemma_normalize;
use crate::primitives::field::modulus;
use crate::primitives::modular::{
    lemma_add_mod,
    lemma_mod_range,
    lemma_mul_mod,
    lemma_reduced_mod,
    lemma_sub_mod,
};
use vstd::arithmetic::power::{lemma_pow1, lemma_pow_adds, lemma_pow_distributes, pow};
use vstd::prelude::*;

verus! {

/// Two sequences with the same coefficients have the same partial sums.
pub proof fn lemma_eval_sum_coef(a: Seq<int>, b: Seq<int>, z: int, n: nat)
    requires
        forall|i: int| 0 <= i < n ==> coef(a, i) == coef(b, i),
    ensures
        eval_sum(a, z, n) == eval_sum(b, z, n),
    decreases n,
{
    if n > 0 {
        lemma_eval_sum_coef(a, b, z, (n - 1) as nat);
    }
}

/// Terms beyond the stored coefficients add nothing.
pub proof fn lemma_eval_sum_beyond(c: Seq<int>, z: int, n: nat)
    requires
        n >= c.len(),
    ensures
        eval_sum(c, z, n) == eval_sum(c, z, c.len()),
    decreases n,
{
    if n > c.len() {
        lemma_eval_sum_beyond(c, z, (n - 1) as nat);
        assert(coef(c, n - 1) * pow(z, (n - 1) as nat) == 0) by (nonlinear_arith)
            requires
                coef(c, n - 1) == 0,
        ;
    }
}

/// A sum of zero coefficients is zero.
pub proof fn lemma_eval_sum_zero(c: Seq<int>, x: int, n: nat)
    requires
        forall|i: int| 0 <= i < n ==> coef(c, i) == 0,
    ensures
        eval_sum(c, x, n) == 0,
    decreases n,
{
    if n > 0 {
        lemma_eval_sum_zero(c, x, (n - 1) as nat);
        assert(0 * pow(x, (n - 1) as nat) == 0) by (nonlinear_arith);
    }
}

/// Sequences whose coefficients are congruent have congruent partial sums.
pub proof fn lemma_eval_sum_congruent(a: Seq<int>, b: Seq<int>, x: int, n: nat)
    requires
        forall|i: int| 0 <= i < n ==> coef(a, i) % modulus() == coef(b, i) % modulus(),
    ensures
        eval_sum(a, x, n) % modulus() == eval_sum(b, x, n) % modulus(),
    decreases n,
{
    if n > 0 {
        lemma_eval_sum_congruent(a, b, x, (n - 1) as nat);
        let w = pow(x, (n - 1) as nat);
        let ca = coef(a, n - 1);
        let cb = coef(b, n - 1);
        lemma_mul_mod(ca, w);
        lemma_mul_mod(cb, w);
        lemma_add_mod(eval_sum(a, x, (n - 1) as nat), ca * w);
        lemma_add_mod(eval_sum(b, x, (n - 1) as nat), cb * w);
    }
}

/// The partial sums of a coefficient-wise sum are the sums of the partial sums.
pub proof fn lemma_eval_sum_add(a: Seq<int>, b: Seq<int>, c: Seq<int>, x: int, n: nat)
    requires
        forall|i: int| 0 <= i < n ==> coef(c, i) == coef(a, i) + coef(b, i),
    ensures
        eval_sum(c, x, n) == eval_sum(a, x, n) + eval_sum(b, x, n),
    decreases n,
{
    if n > 0 {
        lemma_eval_sum_add(a, b, c, x, (n - 1) as nat);
        let w = pow(x, (n - 1) as nat);
        let ca = coef(a, n - 1);
        let cb = coef(b, n - 1);
        assert((ca + cb) * w == ca * w + cb * w) by (nonlinear_arith);
    }
}

/// The partial sums of a coefficient-wise multiple are the multiples of the
/// partial sums.
pub proof fn lemma_eval_sum_scale(a: Seq<int>, c: Seq<int>, s: int, x: int, n: nat)
    requires
        forall|i: int| 0 <= i < n ==> coef(c, i) == s * coef(a, i),
    ensures
        eval_sum(c, x, n) == s * eval_sum(a, x, n),
    decreases n,
{
    if n > 0 {
        lemma_eval_sum_scale(a, c, s, x, (n - 1) as nat);
        let w = pow(x, (n - 1) as nat);
        let ca = coef(a, n - 1);
        let before = eval_sum(a, x, (n - 1) as nat);
        assert(s * before + (s * ca) * w == s * (before + ca * w)) by (nonlinear_arith);
    } else {
        assert(s * 0 == 0) by (nonlinear_arith);
    }
}

/// Moving every coefficient `j` places up multiplies the sum by `x^j`.
pub proof fn lemma_eval_sum_shift_by(b: Seq<int>, c: Seq<int>, x: int, j: nat, n: nat)
    requires
        forall|i: int| 0 <= i < n ==> coef(c, i) == coef(b, i - j),
        n >= j,
    ensures
        eval_sum(c, x, n) == pow(x, j) * eval_sum(b, x, (n - j) as nat),
    decreases n,
{
    if n == j {
        lemma_eval_sum_zero(c, x, n);
        assert(pow(x, j) * 0 == 0) by (nonlinear_arith);
    } else {
        lemma_eval_sum_shift_by(b, c, x, j, (n - 1) as nat);
        let e = (n - 1 - j) as nat;
        let t = coef(b, n - 1 - j);
        let before = eval_sum(b, x, e);
        lemma_pow_adds(x, j, e);
        assert(pow(x, (n - 1) as nat) == pow(x, j) * pow(x, e));
        assert(pow(x, j) * before + t * (pow(x, j) * pow(x, e)) == pow(x, j) * (before + t * pow(
            x,
            e,
        ))) by (nonlinear_arith);
    }
}

/// The partial sums of `a(s * X)` at `x` are congruent to those of `a` at
/// `s * x`.
pub proof fn lemma_eval_sum_mul_var(a: Seq<int>, s: int, x: int, n: nat)
    requires
        n <= a.len(),
    ensures
        eval_sum(mul_var_seq(a, s), x, n) % modulus() == eval_sum(a, s * x, n) % modulus(),
    decreases n,
{
    if n > 0 {
        lemma_eval_sum_mul_var(a, s, x, (n - 1) as nat);
        let c = mul_var_seq(a, s);
        let e = (n - 1) as nat;
        let ps = pow(s, e);
        let px = pow(x, e);
        lemma_pow_distributes(s, x, e);
        lemma_mul_mod(a[n - 1] * ps, px);
        assert((a[n - 1] * ps) * px == a[n - 1] * (ps * px)) by (nonlinear_arith);
        lemma_add_mod(eval_sum(c, x, e), c[n - 1] * px);
        lemma_add_mod(eval_sum(c, x, e), (a[n - 1] * ps) * px);
        lemma_add_mod(eval_sum(a, s * x, e), a[n - 1] * pow(s * x, e));
    }
}

/// Two sequences with the same coefficients take the same values.
pub proof fn lemma_eval_coef(a: Seq<int>, b: Seq<int>, z: int)
    requires
        forall|i: int| coef(a, i) == coef(b, i),
    ensures
        eval(a, z) == eval(b, z),
{
    let n = if a.len() >= b.len() {
        a.len()
    } else {
        b.len()
    };
    lemma_eval_sum_coef(a, b, z, n);
    lemma_eval_sum_beyond(a, z, n);
    lemma_eval_sum_beyond(b, z, n);
}

/// Normalizing does not change the value at any point.
pub proof fn lemma_eval_normalize(c: Seq<int>, z: int)
    ensures
        eval(normalize(c), z) == eval(c, z),
{
    lemma_normalize(c);
    lemma_eval_coef(normalize(c), c, z);
}

/// The value of a sum is the sum of the values.
pub proof fn lemma_eval_add(a: Seq<int>, b: Seq<int>, x: int)
    ensures
        eval(add_seq(a, b), x) == (eval(a, x) + eval(b, x)) % modulus(),
{
    let c = add_seq(a, b);
    let n = c.len();
    let raw = Seq::new(n, |i: int| coef(a, i) + coef(b, i));
    assert forall|i: int| 0 <= i < n implies coef(c, i) % modulus() == coef(raw, i) % modulus() by {
        lemma_mod_range(coef(a, i) + coef(b, i));
        lemma_reduced_mod(c[i]);
    }
    lemma_eval_sum_congruent(c, raw, x, n);
    lemma_eval_sum_add(a, b, raw, x, n);
    lemma_eval_sum_beyond(a, x, n);
    lemma_eval_sum_beyond(b, x, n);
    lemma_add_mod(eval_sum(a, x, a.len()), eval_sum(b, x, b.len()));
}

/// The value of a difference is the difference of the values.
pub proof fn lemma_eval_sub(a: Seq<int>, b: Seq<int>, x: int)
    ensures
        eval(sub_seq(a, b), x) == (eval(a, x) - eval(b, x)) % modulus(),
{
    let c = sub_seq(a, b);
    let n = c.len();
    let minus = Seq::new(n, |i: int| (-1) * coef(b, i));
    let raw = Seq::new(n, |i: int| coef(a, i) + coef(minus, i));
    assert forall|i: int| 0 <= i < n implies coef(c, i) % modulus() == coef(raw, i) % modulus() by {
        lemma_mod_range(coef(a, i) - coef(b, i));
        lemma_reduced_mod(c[i]);
    }
    lemma_eval_sum_congruent(c, raw, x, n);
    lemma_eval_sum_add(a, minus, raw, x, n);
    lemma_eval_sum_scale(b, minus, -1, x, n);
    lemma_eval_sum_beyond(a, x, n);
    lemma_eval_sum_beyond(b, x, n);
    lemma_sub_mod(eval_sum(a, x, a.len()), eval_sum(b, x, b.len()));
}

/// The value of a multiple is the multiple of the value.
pub proof fn lemma_eval_scale(a: Seq<int>, s: int, x: int)
    ensures
        eval(scale_seq(a, s), x) == (eval(a, x) * s) % modulus(),
{
    let c = scale_seq(a, s);
    let n = c.len();
    let raw = Seq::new(n, |i: int| s * coef(a, i));
    assert forall|i: int| 0 <= i < n implies coef(c, i) % modulus() == coef(raw, i) % modulus() by {
        lemma_mod_range(a[i] * s);
        lemma_reduced_mod(c[i]);
        assert(a[i] * s == s * a[i]) by (nonlinear_arith);
    }
    lemma_eval_sum_congruent(c, raw, x, n);
    lemma_eval_sum_scale(a, raw, s, x, n);
    let total = eval_sum(a, x, n);
    lemma_mul_mod(total, s);
    assert(s * total == total * s) by (nonlinear_arith);
}

/// Substituting `s * X` for `X` evaluates at `s * x`.
pub proof fn lemma_eval_mul_var(a: Seq<int>, s: int, x: int)
    ensures
        eval(mul_var_seq(a, s), x) == eval(a, s * x),
{
    lemma_eval_sum_mul_var(a, s, x, a.len());
}

/// The value of `c * (X - z)` is the value of `c` times `x - z`.
pub proof fn lemma_eval_mul_linear(c: Seq<int>, z: int, x: int)
    ensures
        eval(mul_linear(c, z), x) == (eval(c, x) * (x - z)) % modulus(),
{
    let m = mul_linear(c, z);
    let n = c.len();
    let shifted = Seq::new(n + 1, |i: int| coef(c, i - 1));
    let scaled = Seq::new(n + 1, |i: int| (-z) * coef(c, i));
    let raw = Seq::new(n + 1, |i: int| coef(shifted, i) + coef(scaled, i));
    assert forall|i: int| 0 <= i < n + 1 implies coef(m, i) % modulus() == coef(raw, i)
        % modulus() by {
        lemma_mod_range(coef(c, i - 1) - z * coef(c, i));
        lemma_reduced_mod(m[i]);
        assert((-z) * coef(c, i) == -(z * coef(c, i))) by (nonlinear_arith);
    }
    lemma_eval_sum_congruent(m, raw, x, n + 1);
    lemma_eval_sum_add(shifted, scaled, raw, x, n + 1);
    lemma_eval_sum_shift_by(c, shifted, x, 1, n + 1);
    lemma_pow1(x);
    lemma_eval_sum_scale(c, scaled, -z, x, n + 1);
    lemma_eval_sum_beyond(c, x, n + 1);
    let total = eval_sum(c, x, n);
    assert(x * total + (-z) * total == total * (x - z)) by (nonlinear_arith);
    lemma_mul_mod(total, x - z);
}

/// The product of the linear factors is monic of degree `zs.len()`, with
/// canonical coefficients.
pub proof fn lemma_roots_poly_shape(zs: Seq<int>)
    ensures
        roots_poly(zs).len() == zs.len() + 1,
        roots_poly(zs).last() == 1,
        reduced(roots_poly(zs)),
        is_trimmed(roots_poly(zs)),
    decreases zs.len(),
{
    if zs.len() > 0 {
        let front = roots_poly(zs.drop_last());
        lemma_roots_poly_shape(zs.drop_last());
        let m = mul_linear(front, zs.last());
        assert(zs.last() * 0 == 0) by (nonlinear_arith);
        lemma_reduced_mod(1);
        assert(m.last() == 1);
        assert forall|i: int| 0 <= i < m.len() implies 0 <= #[trigger] m[i] < modulus() by {
            lemma_mod_range(coef(front, i - 1) - zs.last() * coef(front, i));
        }
    }
}

/// The product of the linear factors vanishes at each of the roots.
pub proof fn lemma_roots_poly_vanishes(zs: Seq<int>, j: int)
    requires
        0 <= j < zs.len(),
    ensures
        eval(roots_poly(zs), zs[j]) == 0,
    decreases zs.len(),
{
    let front = zs.drop_last();
    let x = zs[j];
    lemma_eval_mul_linear(roots_poly(front), zs.last(), x);
    let before = eval(roots_poly(front), x);
    if j == zs.len() - 1 {
        assert(before * (x - zs.last()) == 0) by (nonlinear_arith)
            requires
                x - zs.last() == 0,
        ;
    } else {
        assert(front[j] == zs[j]);
        lemma_roots_poly_vanishes(front, j);
        assert(before * (x - zs.last()) == 0) by (nonlinear_arith)
            requires
                before == 0,
        ;
    }
    lemma_reduced_mod(0);
}

} // verus!
