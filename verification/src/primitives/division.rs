//! Products, division with remainder, and division by a linear factor.

use crate::primitives::algebra::{
    add_seq,
    coef,
    conv,
    conv_sum,
    eval,
    eval_sum,
    horner,
    is_div_rem,
    is_trimmed,
    linear_factor,
    linear_quotient,
    mul_linear,
    normalize,
    reduced,
    sub_seq,
};
use crate::primitives::canonical::{
    lemma_normalize,
    lemma_normalize_unique,
};
use crate::primitives::evaluation::{
    lemma_eval_add,
    lemma_eval_coef,
    lemma_eval_mul_linear,
    lemma_eval_normalize,
    lemma_eval_sub,
    lemma_eval_sum_add,
    lemma_eval_sum_beyond,
    lemma_eval_sum_coef,
    lemma_eval_sum_congruent,
    lemma_eval_sum_scale,
    lemma_eval_sum_shift_by,
    lemma_eval_sum_zero,
};
use crate::primitives::field::modulus;
use crate::primitives::modular::{
    lemma_add_mod,
    lemma_mod_range,
    lemma_mul_mod,
    lemma_pow_succ,
    lemma_reduced_mod,
    lemma_sub_mod,
};
use vstd::arithmetic::power::pow;
use vstd::prelude::*;

verus! {

/// A product coefficient depends on the coefficients of the first factor only.
pub proof fn lemma_conv_sum_coef(a: Seq<int>, a2: Seq<int>, b: Seq<int>, k: int, n: nat)
    requires
        forall|i: int| 0 <= i < n ==> coef(a, i) == coef(a2, i),
    ensures
        conv_sum(a, b, k, n) == conv_sum(a2, b, k, n),
    decreases n,
{
    if n > 0 {
        lemma_conv_sum_coef(a, a2, b, k, (n - 1) as nat);
    }
}

/// A sum whose every term has a zero factor is zero.
pub proof fn lemma_conv_sum_zero(a: Seq<int>, b: Seq<int>, k: int, n: nat)
    requires
        forall|i: int| 0 <= i < n ==> coef(a, i) == 0 || coef(b, k - i) == 0,
    ensures
        conv_sum(a, b, k, n) == 0,
    decreases n,
{
    if n > 0 {
        lemma_conv_sum_zero(a, b, k, (n - 1) as nat);
        let x = coef(a, n - 1);
        let y = coef(b, k - (n - 1));
        assert(x * y == 0) by (nonlinear_arith)
            requires
                x == 0 || y == 0,
        ;
    }
}

/// Changing one coefficient of the first factor changes the sum by that
/// change times the matching coefficient of the second factor.
pub proof fn lemma_conv_sum_update(a: Seq<int>, b: Seq<int>, k: int, n: nat, i: int, v: int)
    requires
        0 <= i < a.len(),
    ensures
        conv_sum(a.update(i, v), b, k, n) == conv_sum(a, b, k, n) + if i < n {
            (v - a[i]) * coef(b, k - i)
        } else {
            0
        },
    decreases n,
{
    if n > 0 {
        lemma_conv_sum_update(a, b, k, (n - 1) as nat, i, v);
        if i == n - 1 {
            let c = coef(b, k - i);
            let x = a[i];
            assert(v * c == x * c + (v - x) * c) by (nonlinear_arith);
        } else {
            assert(coef(a.update(i, v), n - 1) == coef(a, n - 1));
        }
    }
}

/// The sum of the product coefficients is the product of the sums: with
/// enough terms, `sum_k conv(a, b, k) x^k = a(x) * b(x)` over the integers.
pub proof fn lemma_eval_sum_conv(a: Seq<int>, b: Seq<int>, x: int, n: nat)
    requires
        n + 1 >= a.len() + b.len(),
    ensures
        eval_sum(Seq::new(n, |k: int| conv(a, b, k)), x, n) == eval_sum(a, x, a.len()) * eval_sum(
            b,
            x,
            b.len(),
        ),
    decreases a.len(),
{
    let prod = Seq::new(n, |k: int| conv(a, b, k));
    let eb = eval_sum(b, x, b.len());
    if a.len() == 0 {
        assert forall|k: int| 0 <= k < n implies coef(prod, k) == 0 by {
            lemma_conv_sum_zero(a, b, k, (k + 1) as nat);
        }
        lemma_eval_sum_zero(prod, x, n);
        assert(0 * eb == 0) by (nonlinear_arith);
    } else {
        let m = (a.len() - 1) as nat;
        let front = a.drop_last();
        let t = a[m as int];
        lemma_eval_sum_conv(front, b, x, n);
        let prod_front = Seq::new(n, |k: int| conv(front, b, k));
        let shifted = Seq::new(n, |k: int| coef(b, k - m));
        let scaled = Seq::new(n, |k: int| t * coef(shifted, k));
        assert forall|k: int| 0 <= k < n implies coef(prod, k) == coef(prod_front, k) + coef(
            scaled,
            k,
        ) by {
            let cleared = a.update(m as int, 0);
            lemma_conv_sum_coef(cleared, front, b, k, (k + 1) as nat);
            lemma_conv_sum_update(cleared, b, k, (k + 1) as nat, m as int, t);
            assert(cleared.update(m as int, t) =~= a);
            if m < k + 1 {
                assert((t - 0) * coef(b, k - m) == t * coef(b, k - m));
            } else {
                assert(t * coef(b, k - m) == 0) by (nonlinear_arith)
                    requires
                        coef(b, k - m) == 0,
                ;
            }
        }
        lemma_eval_sum_add(prod_front, scaled, prod, x, n);
        lemma_eval_sum_scale(shifted, scaled, t, x, n);
        lemma_eval_sum_shift_by(b, shifted, x, m, n);
        lemma_eval_sum_beyond(b, x, (n - m) as nat);
        let ef = eval_sum(front, x, m);
        let w = pow(x, m);
        lemma_eval_sum_coef(a, front, x, m);
        assert(eval_sum(a, x, a.len()) == ef + t * w);
        assert(ef * eb + t * (w * eb) == (ef + t * w) * eb) by (nonlinear_arith);
    }
}

/// Division with remainder, read at a point: where `p = q * d + r`
/// coefficient by coefficient, `p(x) = q(x) * d(x) + r(x)` for every `x`.
pub proof fn lemma_div_rem_eval(p: Seq<int>, d: Seq<int>, q: Seq<int>, r: Seq<int>, x: int)
    requires
        reduced(p),
        is_div_rem(p, d, q, r),
    ensures
        eval(p, x) == (eval(q, x) * eval(d, x) + eval(r, x)) % modulus(),
{
    let n = p.len() + q.len() + d.len() + r.len();
    let prod = Seq::new(n, |k: int| conv(q, d, k));
    let raw = Seq::new(n, |k: int| coef(prod, k) + coef(r, k));
    assert forall|k: int| 0 <= k < n implies coef(p, k) % modulus() == coef(raw, k) % modulus() by {
        assert(coef(p, k) == (conv(q, d, k) + coef(r, k)) % modulus());
        lemma_mod_range(conv(q, d, k) + coef(r, k));
        lemma_reduced_mod(coef(p, k));
    }
    lemma_eval_sum_congruent(p, raw, x, n);
    lemma_eval_sum_add(prod, r, raw, x, n);
    lemma_eval_sum_conv(q, d, x, n);
    lemma_eval_sum_beyond(p, x, n);
    lemma_eval_sum_beyond(r, x, n);
    let eq = eval_sum(q, x, q.len());
    let ed = eval_sum(d, x, d.len());
    let er = eval_sum(r, x, r.len());
    lemma_mul_mod(eq, ed);
    lemma_add_mod(eq * ed, er);
    lemma_add_mod(eval(q, x) * eval(d, x), er);
}

/// The product with a linear factor has two terms in each coefficient.
pub proof fn lemma_conv_linear(q: Seq<int>, z: int, k: int)
    requires
        0 <= k,
    ensures
        conv(q, linear_factor(z), k) == coef(q, k - 1) + coef(q, k) * ((-z) % modulus()),
{
    let d = linear_factor(z);
    if k >= 1 {
        lemma_conv_sum_zero(q, d, k, (k - 1) as nat);
        assert(conv_sum(q, d, k, k as nat) == conv_sum(q, d, k, (k - 1) as nat) + coef(q, k - 1)
            * coef(d, 1));
        assert(coef(q, k - 1) * 1 == coef(q, k - 1)) by (nonlinear_arith);
    }
    assert(conv_sum(q, d, k, (k + 1) as nat) == conv_sum(q, d, k, k as nat) + coef(q, k) * coef(
        d,
        0,
    ));
}

/// The quotient by a linear factor has canonical residues as coefficients.
pub proof fn lemma_linear_quotient_reduced(p: Seq<int>, z: int)
    ensures
        reduced(linear_quotient(p, z)),
{
    let q = linear_quotient(p, z);
    assert forall|i: int| 0 <= i < q.len() implies 0 <= #[trigger] q[i] < modulus() by {
        lemma_mod_range(p[i + 1] + z * horner(p, z, i + 1));
    }
}

/// A sequence that satisfies Horner's recurrence and is zero from the top
/// on is the quotient that Horner's rule gives.
pub proof fn lemma_quotient_is_horner(p: Seq<int>, z: int, q: Seq<int>, k: int)
    requires
        0 <= k,
        forall|j: int| 1 <= j ==> coef(q, j - 1) == (coef(p, j) + z * coef(q, j)) % modulus(),
        forall|j: int| j + 1 >= p.len() && 0 <= j ==> coef(q, j) == 0,
    ensures
        coef(q, k) == horner(p, z, k),
    decreases p.len() - k,
{
    if k + 1 < p.len() {
        lemma_quotient_is_horner(p, z, q, k + 1);
        assert(coef(q, (k + 1) - 1) == (coef(p, k + 1) + z * coef(q, k + 1)) % modulus());
    }
}

/// Dividing `p - p(z)` by `X - z` leaves no remainder, and the quotient is
/// the one that Horner's rule gives.
pub proof fn lemma_linear_division(p: Seq<int>, z: int, q: Seq<int>, r: Seq<int>)
    requires
        reduced(p),
        is_trimmed(p),
        reduced(q),
        is_trimmed(q),
        reduced(r),
        is_trimmed(r),
        is_div_rem(normalize(sub_seq(p, seq![eval(p, z)])), linear_factor(z), q, r),
        q.len() < p.len() || q == seq![0int],
    ensures
        r == seq![0int],
        q == normalize(linear_quotient(p, z)),
{
    let y = eval(p, z);
    let d = linear_factor(z);
    let raw = sub_seq(p, seq![y]);
    let top = normalize(raw);
    let nz = (-z) % modulus();
    lemma_normalize(raw);
    lemma_mod_range(eval_sum(p, z, p.len()));
    assert(r.len() == 1);
    let r0 = r[0];
    // The coefficients of the dividend, through the division identity.
    assert forall|k: int| 0 <= k implies coef(top, k) == (coef(q, k - 1) + coef(q, k) * nz + coef(
        r,
        k,
    )) % modulus() by {
        lemma_conv_linear(q, z, k);
        assert(coef(top, k) == (conv(q, d, k) + coef(r, k)) % modulus());
    }
    // The remainder is the value of the dividend at `z`, which is zero.
    let m = mul_linear(q, z);
    let sum = add_seq(m, r);
    assert forall|k: int| coef(top, k) == coef(sum, k) by {
        if 0 <= k {
            let a = coef(q, k - 1);
            let b = coef(q, k);
            if k <= q.len() {
                lemma_mul_mod(b, -z);
                assert(b * (-z) == -(z * b)) by (nonlinear_arith);
                lemma_add_mod(a, b * nz);
                lemma_add_mod(a, b * (-z));
                assert((a + b * nz) % modulus() == (a - z * b) % modulus());
                lemma_add_mod(a + b * nz, coef(r, k));
                lemma_add_mod(a - z * b, coef(r, k));
                if k < sum.len() {
                } else {
                    assert(coef(r, k) == 0);
                    lemma_mod_range(a - z * b);
                    lemma_reduced_mod(m[k]);
                }
            } else {
                assert(0 * nz == 0) by (nonlinear_arith);
                lemma_reduced_mod(0);
            }
        }
    }
    lemma_eval_coef(top, sum, z);
    lemma_eval_add(m, r, z);
    lemma_eval_mul_linear(q, z, z);
    assert(eval(q, z) * (z - z) == 0) by (nonlinear_arith);
    lemma_reduced_mod(0);
    assert(eval(m, z) == 0);
    assert(eval(r, z) == r0) by {
        lemma_pow_succ(z, 0);
        assert(eval_sum(r, z, 1) == eval_sum(r, z, 0) + coef(r, 0) * pow(z, 0));
        assert(r0 * 1 == r0) by (nonlinear_arith);
        lemma_reduced_mod(r0);
    }
    lemma_reduced_mod(r0);
    assert(eval(top, z) == r0);
    lemma_eval_normalize(raw, z);
    lemma_eval_sub(p, seq![y], z);
    assert(eval(seq![y], z) == y) by {
        lemma_pow_succ(z, 0);
        assert(eval_sum(seq![y], z, 1) == eval_sum(seq![y], z, 0) + coef(seq![y], 0) * pow(z, 0));
        assert(y * 1 == y) by (nonlinear_arith);
        lemma_reduced_mod(y);
    }
    assert(r0 == 0);
    assert(r =~= seq![0int]);
    // The quotient, coefficient by coefficient from the top.
    assert forall|k: int| 1 <= k implies coef(q, k - 1) == (coef(p, k) + z * coef(q, k))
        % modulus() by {
        let a = coef(q, k - 1);
        let b = coef(q, k);
        assert(coef(top, k) == coef(raw, k));
        if k < p.len() {
            lemma_reduced_mod(p[k]);
            assert(coef(raw, k) == p[k]);
        }
        assert(coef(top, k) == coef(p, k));
        assert(coef(r, k) == 0);
        lemma_mul_mod(b, -z);
        assert(b * (-z) + z * b == 0) by (nonlinear_arith);
        lemma_add_mod(a, b * nz);
        lemma_add_mod(a, b * (-z));
        lemma_add_mod(a + b * nz, z * b);
        lemma_add_mod(a + b * (-z), z * b);
        if 0 <= k - 1 < q.len() {
            lemma_reduced_mod(a);
        } else {
            lemma_reduced_mod(0);
        }
    }
    lemma_quotient_is_horner(p, z, q, 0);
    assert forall|k: int| coef(q, k) == coef(linear_quotient(p, z), k) by {
        if 0 <= k {
            lemma_quotient_is_horner(p, z, q, k);
        }
    }
    lemma_normalize_unique(q, linear_quotient(p, z));
}

/// Horner's rule evaluates: up to a multiple of the modulus, the whole sum
/// is the sum of the first `k` terms plus `z^k * (p_k + z * q_k)`.
pub proof fn lemma_horner_partial(p: Seq<int>, z: int, k: int)
    requires
        0 <= k < p.len(),
    ensures
        eval_sum(p, z, p.len()) % modulus() == (eval_sum(p, z, k as nat) + pow(z, k as nat) * (p[k]
            + z * horner(p, z, k))) % modulus(),
    decreases p.len() - k,
{
    let w = pow(z, k as nat);
    if k + 1 == p.len() {
        assert(z * 0 == 0) by (nonlinear_arith);
        assert(w * p[k] == p[k] * w) by (nonlinear_arith);
    } else {
        lemma_horner_partial(p, z, k + 1);
        let next = horner(p, z, k + 1);
        let inner = p[k + 1] + z * next;
        let h = horner(p, z, k);
        let before = eval_sum(p, z, k as nat);
        lemma_pow_succ(z, k as nat);
        assert(eval_sum(p, z, (k + 1) as nat) == before + p[k] * w);
        // replace `inner` by its remainder `h`
        lemma_mul_mod(z * w, inner);
        lemma_add_mod(before + p[k] * w, (z * w) * inner);
        lemma_add_mod(before + p[k] * w, (z * w) * h);
        assert(before + p[k] * w + (z * w) * h == before + w * (p[k] + z * h)) by (nonlinear_arith);
    }
}

/// The remainder theorem: for every `x`, the value `p(x)` is
/// `q(x) * (x - z) + p(z)`, where `q` is the quotient of `p` by `X - z`.
/// An opening at `z` commits to this `q`; the identity at the secret of the
/// reference string is what the pairing equation of a verifier tests.
pub proof fn lemma_opening_identity(p: Seq<int>, z: int, x: int)
    requires
        reduced(p),
        p.len() >= 1,
    ensures
        eval(p, x) == (eval(normalize(linear_quotient(p, z)), x) * (x - z) + eval(p, z))
            % modulus(),
{
    let q = linear_quotient(p, z);
    let y = eval(p, z);
    let m = mul_linear(q, z);
    let sum = add_seq(m, seq![y]);
    lemma_mod_range(eval_sum(p, z, p.len()));
    assert forall|k: int| coef(p, k) == coef(sum, k) by {
        if 0 <= k < p.len() {
            let h = horner(p, z, k);
            assert(coef(q, k) == h);
            lemma_reduced_mod(p[k]);
            if k == 0 {
                lemma_horner_partial(p, z, 0);
                lemma_pow_succ(z, 0);
                assert(pow(z, 0) * (p[0] + z * h) == p[0] + z * h) by (nonlinear_arith)
                    requires
                        pow(z, 0) == 1,
                ;
                // y = (p_0 + z h) mod r, hence p_0 = (-z h + y) mod r
                lemma_add_mod(0 - z * h, p[0] + z * h);
                lemma_add_mod(0 - z * h, y);
            } else {
                let above = coef(q, k - 1);
                assert(above == (p[k] + z * h) % modulus());
                lemma_sub_mod(p[k] + z * h, z * h);
            }
        }
    }
    lemma_eval_coef(p, sum, x);
    lemma_eval_add(m, seq![y], x);
    lemma_eval_mul_linear(q, z, x);
    lemma_eval_normalize(q, x);
    assert(eval(seq![y], x) == y) by {
        lemma_pow_succ(x, 0);
        assert(eval_sum(seq![y], x, 1) == eval_sum(seq![y], x, 0) + coef(seq![y], 0) * pow(x, 0));
        assert(y * 1 == y) by (nonlinear_arith);
        lemma_reduced_mod(y);
    }
    lemma_add_mod(eval(q, x) * (x - z), y);
}

} // verus!
