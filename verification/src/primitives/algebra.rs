//! Coefficient sequences over the scalar field.
//!
//! A polynomial is modelled by the sequence of its coefficients, low order
//! first, each an integer in `[0, r)`. This module defines what evaluation,
//! canonical form, the coefficient-wise operations, products and division
//! mean on such sequences. The facts about them are proved in the modules
//! `modular`, `canonical`, `evaluation` and `division`.

use crate::primitives::field::modulus;
use vstd::arithmetic::power::pow;
use vstd::prelude::*;

verus! {

/// The coefficient of `X^i`, zero outside the stored range.
pub open spec fn coef(c: Seq<int>, i: int) -> int {
    if 0 <= i < c.len() {
        c[i]
    } else {
        0
    }
}

/// Every entry is a canonical residue.
pub open spec fn reduced(c: Seq<int>) -> bool {
    forall|i: int| 0 <= i < c.len() ==> 0 <= #[trigger] c[i] < modulus()
}

/// The sum of the first `n` terms `c[i] * z^i`, over the integers.
pub open spec fn eval_sum(c: Seq<int>, z: int, n: nat) -> int
    decreases n,
{
    if n == 0 {
        0
    } else {
        eval_sum(c, z, (n - 1) as nat) + coef(c, n - 1) * pow(z, (n - 1) as nat)
    }
}

/// The value of the polynomial at `z`, as a canonical residue.
pub open spec fn eval(c: Seq<int>, z: int) -> int {
    eval_sum(c, z, c.len()) % modulus()
}

/// Either a single coefficient, or the leading coefficient is nonzero.
pub open spec fn is_trimmed(c: Seq<int>) -> bool {
    c.len() == 1 || (c.len() > 1 && c.last() != 0)
}

/// Drops high-order zero coefficients while more than one remains.
pub open spec fn trim(c: Seq<int>) -> Seq<int>
    decreases c.len(),
{
    if c.len() > 1 && c.last() == 0 {
        trim(c.drop_last())
    } else {
        c
    }
}

/// The canonical coefficient sequence of the polynomial that `c` denotes:
/// trimmed, and a single zero for the empty sequence.
pub open spec fn normalize(c: Seq<int>) -> Seq<int> {
    if c.len() == 0 {
        seq![0int]
    } else {
        trim(c)
    }
}

/// Coefficient-wise sum, as long as the longer argument.
pub open spec fn add_seq(a: Seq<int>, b: Seq<int>) -> Seq<int> {
    Seq::new(
        if a.len() >= b.len() {
            a.len()
        } else {
            b.len()
        },
        |i: int| (coef(a, i) + coef(b, i)) % modulus(),
    )
}

/// Coefficient-wise difference, as long as the longer argument.
pub open spec fn sub_seq(a: Seq<int>, b: Seq<int>) -> Seq<int> {
    Seq::new(
        if a.len() >= b.len() {
            a.len()
        } else {
            b.len()
        },
        |i: int| (coef(a, i) - coef(b, i)) % modulus(),
    )
}

/// Every coefficient negated.
pub open spec fn neg_seq(a: Seq<int>) -> Seq<int> {
    Seq::new(a.len(), |i: int| (-a[i]) % modulus())
}

/// Every coefficient multiplied by `s`.
pub open spec fn scale_seq(a: Seq<int>, s: int) -> Seq<int> {
    Seq::new(a.len(), |i: int| (a[i] * s) % modulus())
}

/// The coefficients of `a(s * X)`: the `i`-th is multiplied by `s^i`.
pub open spec fn mul_var_seq(a: Seq<int>, s: int) -> Seq<int> {
    Seq::new(a.len(), |i: int| (a[i] * pow(s, i as nat)) % modulus())
}

/// `a` extended with zeros to reach position `k`, with `c` added there.
pub open spec fn add_coef_seq(a: Seq<int>, c: int, k: int) -> Seq<int> {
    Seq::new(
        if a.len() > k {
            a.len()
        } else {
            (k + 1) as nat
        },
        |i: int|
            if i == k {
                (coef(a, i) + c) % modulus()
            } else {
                coef(a, i)
            },
    )
}

/// The coefficients of `c * (X - z)`.
pub open spec fn mul_linear(c: Seq<int>, z: int) -> Seq<int> {
    Seq::new(c.len() + 1, |i: int| (coef(c, i - 1) - z * coef(c, i)) % modulus())
}

/// The coefficients of the product of `X - z` over all `z` in `zs`.
pub open spec fn roots_poly(zs: Seq<int>) -> Seq<int>
    decreases zs.len(),
{
    if zs.len() == 0 {
        seq![1int]
    } else {
        mul_linear(roots_poly(zs.drop_last()), zs.last())
    }
}

/// The sum of the first `n` terms `a[i] * b[k - i]` of the `k`-th
/// coefficient of a product, over the integers.
pub open spec fn conv_sum(a: Seq<int>, b: Seq<int>, k: int, n: nat) -> int
    decreases n,
{
    if n == 0 {
        0
    } else {
        conv_sum(a, b, k, (n - 1) as nat) + coef(a, n - 1) * coef(b, k - (n - 1))
    }
}

/// The `k`-th coefficient of the product `a * b`, over the integers.
pub open spec fn conv(a: Seq<int>, b: Seq<int>, k: int) -> int {
    conv_sum(a, b, k, (k + 1) as nat)
}

/// `q` and `r` are quotient and remainder of `p` by `d`: coefficient by
/// coefficient `p = q * d + r`, and the remainder is shorter than the
/// divisor. For a constant divisor the remainder is zero, which the
/// one-coefficient convention stores with the divisor's own length.
pub open spec fn is_div_rem(p: Seq<int>, d: Seq<int>, q: Seq<int>, r: Seq<int>) -> bool {
    &&& d.len() > 1 ==> r.len() < d.len()
    &&& d.len() == 1 ==> r == seq![0int]
    &&& forall|k: int| 0 <= k ==> coef(p, k) == (#[trigger] conv(q, d, k) + coef(r, k)) % modulus()
}

/// The coefficients of `X - z`.
pub open spec fn linear_factor(z: int) -> Seq<int> {
    seq![(-z) % modulus(), 1int]
}

/// The coefficient of `X^k` in the quotient of `p` by `X - z`, by Horner's
/// rule from the leading coefficient down: `q_k = p_{k+1} + z * q_{k+1}`.
pub open spec fn horner(p: Seq<int>, z: int, k: int) -> int
    decreases p.len() - k,
{
    if k < 0 || k + 1 >= p.len() {
        0
    } else {
        (p[k + 1] + z * horner(p, z, k + 1)) % modulus()
    }
}

/// The coefficients of the quotient of `p` by `X - z`, one fewer than `p` has.
pub open spec fn linear_quotient(p: Seq<int>, z: int) -> Seq<int> {
    Seq::new((p.len() - 1) as nat, |k: int| horner(p, z, k))
}

} // verus!
