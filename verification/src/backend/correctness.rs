//! Why honest openings verify.
//!
//! The arithmetic of the two groups and of the pairing is carried out by the
//! curve library and is not verified in this crate. What a commitment scheme
//! needs of it are the laws of a cyclic group of prime order and of a
//! bilinear pairing. [`curve_laws`] writes them down for the multiples of
//! the two generators, and every statement of this module has them as a
//! hypothesis. From there on the statements are proved: a commitment is
//! the generator times the value of the polynomial at the secret, commitments
//! add and scale with their polynomials, an honest opening satisfies the
//! pairing equation, and a wrong value does not.

use crate::backend::arkworks_bn254::KZGCommitmentScheme;
use crate::backend::points::{
    g1_add,
    g1_msm,
    g1_mul,
    g1_sub,
    g2_mul,
    g2_sub,
    pairing_value,
    G1Point,
    G2Point,
};
use crate::primitives::algebra::{
    add_seq,
    coef,
    eval,
    eval_sum,
    linear_quotient,
    normalize,
    reduced,
    scale_seq,
};
use crate::primitives::canonical::lemma_normalize;
use crate::primitives::division::{lemma_linear_quotient_reduced, lemma_opening_identity};
use crate::primitives::evaluation::{
    lemma_eval_add,
    lemma_eval_normalize,
    lemma_eval_scale,
};
use crate::primitives::field::modulus;
use crate::primitives::modular::{
    lemma_add_mod,
    lemma_mod_range,
    lemma_mul_mod,
    lemma_pow_succ,
    lemma_reduced_mod,
    lemma_sub_mod,
};
use vstd::arithmetic::power::pow;
use vstd::prelude::*;

verus! {

/// A canonical residue.
pub open spec fn is_residue(a: int) -> bool {
    0 <= a < modulus()
}

/// The multiples of `g` by the entries of `t`.
pub open spec fn multiples(g: G1Point, t: Seq<int>) -> Seq<G1Point> {
    Seq::new(t.len(), |i: int| g1_mul(g, t[i]))
}

/// The sum of the first `n` products `t[i] * c[i]`, over the integers.
pub open spec fn dot(t: Seq<int>, c: Seq<int>, n: nat) -> int
    decreases n,
{
    if n == 0 {
        0
    } else {
        dot(t, c, (n - 1) as nat) + t[n - 1] * c[n - 1]
    }
}

/// The residues of the first `n` powers of `s`.
pub open spec fn powers(s: int, n: nat) -> Seq<int> {
    Seq::new(n, |i: int| pow(s, i as nat) % modulus())
}

/// Marks a pair of scalars at which a law is used.
pub open spec fn at(a: int, b: int) -> bool {
    true
}

/// Marks a pair of sequences at which a law is used.
pub open spec fn at_seqs(t: Seq<int>, c: Seq<int>) -> bool {
    true
}

/// The laws of the curve arithmetic on the multiples of a generator `g` of
/// G1 and a generator `h` of G2, for scalars given as canonical residues:
///
/// - multiples add, subtract and compose like their scalars modulo the
///   group order, and the multiple by one is the point itself;
/// - a multi-scalar product of multiples of `g` is the multiple of `g` by
///   the sum of the products of the scalars;
/// - the pairing is defined on the multiples, a scalar moves from the
///   second argument to the first, and different multiples of `g` pair
///   differently with `h`.
pub open spec fn curve_laws(g: G1Point, h: G2Point) -> bool {
    &&& g1_mul(g, 1) == g
    &&& forall|a: int, b: int|
        #[trigger] at(a, b) && is_residue(a) && is_residue(b) ==> g1_add(g1_mul(g, a), g1_mul(g, b))
            == g1_mul(g, (a + b) % modulus())
    &&& forall|a: int, b: int|
        #[trigger] at(a, b) && is_residue(a) && is_residue(b) ==> g1_sub(g1_mul(g, a), g1_mul(g, b))
            == g1_mul(g, (a - b) % modulus())
    &&& forall|a: int, b: int|
        #[trigger] at(a, b) && is_residue(a) && is_residue(b) ==> g1_mul(g1_mul(g, a), b) == g1_mul(
            g,
            (a * b) % modulus(),
        )
    &&& forall|t: Seq<int>, c: Seq<int>|
        #[trigger] at_seqs(t, c) && t.len() == c.len() && reduced(t) && reduced(c) ==> g1_msm(
            multiples(g, t),
            c,
        ) == g1_mul(g, dot(t, c, c.len()) % modulus())
    &&& forall|a: int, b: int|
        #[trigger] at(a, b) && is_residue(a) && is_residue(b) ==> g2_sub(g2_mul(h, a), g2_mul(h, b))
            == g2_mul(h, (a - b) % modulus())
    &&& forall|a: int, b: int|
        #[trigger] at(a, b) && is_residue(a) && is_residue(b) ==> pairing_value(
            g1_mul(g, a),
            g2_mul(h, b),
        ) == pairing_value(g1_mul(g, (a * b) % modulus()), h)
    &&& forall|a: int, b: int|
        #[trigger] at(a, b) && is_residue(a) ==> pairing_value(g1_mul(g, a), h).is_some()
    &&& forall|a: int, b: int|
        #[trigger] at(a, b) && is_residue(a) && is_residue(b) && pairing_value(g1_mul(g, a), h)
            == pairing_value(g1_mul(g, b), h) ==> a == b
}

/// The reference string `scheme` was made from the secret `s`, and the curve
/// laws hold for its two generators.
pub open spec fn honest_setup(scheme: KZGCommitmentScheme, s: int) -> bool {
    &&& is_residue(s)
    &&& scheme.is_powers_of(s)
    &&& curve_laws(scheme.public_parameter_group_1@[0], scheme.public_parameter_group_2@[0])
}

/// The sum of products with the powers of `s` is the value at `s`, up to a
/// multiple of the modulus.
pub proof fn lemma_dot_powers(c: Seq<int>, s: int, n: nat)
    requires
        n <= c.len(),
    ensures
        dot(powers(s, c.len()), c, n) % modulus() == eval_sum(c, s, n) % modulus(),
    decreases n,
{
    if n > 0 {
        lemma_dot_powers(c, s, (n - 1) as nat);
        let t = powers(s, c.len());
        let w = pow(s, (n - 1) as nat);
        let x = c[n - 1];
        lemma_mul_mod(w, x);
        assert(w * x == x * w) by (nonlinear_arith);
        lemma_add_mod(dot(t, c, (n - 1) as nat), t[n - 1] * x);
        lemma_add_mod(eval_sum(c, s, (n - 1) as nat), x * w);
    }
}

/// Every point of G1 in an honest string is the generator times a power of
/// the secret.
pub proof fn lemma_string_points(scheme: KZGCommitmentScheme, s: int, i: int)
    requires
        honest_setup(scheme, s),
        0 <= i < scheme.public_parameter_group_1@.len(),
    ensures
        scheme.public_parameter_group_1@[i] == g1_mul(
            scheme.public_parameter_group_1@[0],
            pow(s, i as nat) % modulus(),
        ),
    decreases i,
{
    let tau = scheme.public_parameter_group_1@;
    let g = tau[0];
    if i == 0 {
        lemma_pow_succ(s, 0);
        lemma_reduced_mod(1);
    } else {
        lemma_string_points(scheme, s, i - 1);
        let before = pow(s, (i - 1) as nat);
        lemma_mod_range(before);
        assert(tau[(i - 1) + 1] == g1_mul(tau[i - 1], s));
        assert(at(before % modulus(), s));
        lemma_mul_mod(before, s);
        lemma_pow_succ(s, (i - 1) as nat);
        assert(before * s == s * before) by (nonlinear_arith);
    }
}

/// A commitment is the generator times the value of the polynomial at the
/// secret.
pub proof fn lemma_commitment_value(scheme: KZGCommitmentScheme, s: int, c: Seq<int>)
    requires
        honest_setup(scheme, s),
        reduced(c),
        c.len() <= scheme.public_parameter_group_1@.len(),
    ensures
        scheme.commit_spec(c) == g1_mul(scheme.public_parameter_group_1@[0], eval(c, s)),
{
    let tau = scheme.public_parameter_group_1@;
    let g = tau[0];
    let t = powers(s, c.len());
    assert forall|i: int| 0 <= i < c.len() implies tau.subrange(0, c.len() as int)[i] == multiples(
        g,
        t,
    )[i] by {
        lemma_string_points(scheme, s, i);
    }
    assert(tau.subrange(0, c.len() as int) =~= multiples(g, t));
    assert forall|i: int| 0 <= i < t.len() implies 0 <= #[trigger] t[i] < modulus() by {
        lemma_mod_range(pow(s, i as nat));
    }
    assert(at_seqs(t, c));
    lemma_dot_powers(c, s, c.len());
}

/// Commitments are additive: the commitment to a sum of polynomials is the
/// sum of their commitments.
pub proof fn lemma_commit_additive(scheme: KZGCommitmentScheme, s: int, p: Seq<int>, q: Seq<int>)
    requires
        honest_setup(scheme, s),
        reduced(p),
        reduced(q),
        1 <= p.len() <= scheme.public_parameter_group_1@.len(),
        1 <= q.len() <= scheme.public_parameter_group_1@.len(),
    ensures
        scheme.commit_spec(normalize(add_seq(p, q))) == g1_add(
            scheme.commit_spec(p),
            scheme.commit_spec(q),
        ),
{
    let sum = add_seq(p, q);
    assert forall|i: int| 0 <= i < sum.len() implies 0 <= #[trigger] sum[i] < modulus() by {
        lemma_mod_range(coef(p, i) + coef(q, i));
    }
    lemma_normalize(sum);
    lemma_commitment_value(scheme, s, p);
    lemma_commitment_value(scheme, s, q);
    lemma_commitment_value(scheme, s, normalize(sum));
    lemma_eval_normalize(sum, s);
    lemma_eval_add(p, q, s);
    lemma_mod_range(eval_sum(p, s, p.len()));
    lemma_mod_range(eval_sum(q, s, q.len()));
    assert(at(eval(p, s), eval(q, s)));
}

/// Commitments are compatible with the scalar action: the commitment to a
/// multiple of a polynomial is that multiple of its commitment.
pub proof fn lemma_commit_scales(scheme: KZGCommitmentScheme, s: int, p: Seq<int>, lambda: int)
    requires
        honest_setup(scheme, s),
        reduced(p),
        is_residue(lambda),
        1 <= p.len() <= scheme.public_parameter_group_1@.len(),
    ensures
        scheme.commit_spec(normalize(scale_seq(p, lambda))) == g1_mul(
            scheme.commit_spec(p),
            lambda,
        ),
{
    let scaled = scale_seq(p, lambda);
    assert forall|i: int| 0 <= i < scaled.len() implies 0 <= #[trigger] scaled[i] < modulus() by {
        lemma_mod_range(p[i] * lambda);
    }
    lemma_normalize(scaled);
    lemma_commitment_value(scheme, s, p);
    lemma_commitment_value(scheme, s, normalize(scaled));
    lemma_eval_normalize(scaled, s);
    lemma_eval_scale(p, lambda, s);
    lemma_mod_range(eval_sum(p, s, p.len()));
    assert(at(eval(p, s), lambda));
}

/// The two sides of the pairing equation for the commitment to `p`, a
/// claimed value `y` at `z`, and the honest proof: both are pairings of a
/// multiple of the generator of G1 with the generator of G2, the left one by
/// `p(s) - y` and the right one by `p(s) - p(z)`.
pub proof fn lemma_pairing_sides(scheme: KZGCommitmentScheme, s: int, p: Seq<int>, z: int, y: int)
    requires
        honest_setup(scheme, s),
        reduced(p),
        1 <= p.len() <= scheme.public_parameter_group_1@.len(),
        is_residue(z),
        is_residue(y),
    ensures
        scheme.verify_spec(
            scheme.commit_spec(p),
            z,
            y,
            scheme.commit_spec(KZGCommitmentScheme::opening_quotient(p, z)),
        ) == (pairing_value(
            g1_mul(scheme.public_parameter_group_1@[0], (eval(p, s) - y) % modulus()),
            scheme.public_parameter_group_2@[0],
        ) == pairing_value(
            g1_mul(scheme.public_parameter_group_1@[0], (eval(p, s) - eval(p, z)) % modulus()),
            scheme.public_parameter_group_2@[0],
        )),
{
    let g = scheme.public_parameter_group_1@[0];
    let h = scheme.public_parameter_group_2@[0];
    let q = KZGCommitmentScheme::opening_quotient(p, z);
    let at_s = eval(p, s);
    let q_at_s = eval(q, s);
    let at_z = eval(p, z);
    lemma_linear_quotient_reduced(p, z);
    lemma_normalize(linear_quotient(p, z));
    lemma_commitment_value(scheme, s, p);
    lemma_commitment_value(scheme, s, q);
    lemma_mod_range(eval_sum(p, s, p.len()));
    lemma_mod_range(eval_sum(q, s, q.len()));
    lemma_mod_range(eval_sum(p, z, p.len()));
    // the right side
    let shift = (s - z) % modulus();
    lemma_mod_range(s - z);
    assert(at(s, z));
    assert(at(q_at_s, shift));
    lemma_opening_identity(p, z, s);
    lemma_mul_mod(q_at_s, s - z);
    lemma_sub_mod(q_at_s * (s - z) + at_z, at_z);
    assert((q_at_s * shift) % modulus() == (at_s - at_z) % modulus());
    // the left side
    if y == 0 {
        lemma_reduced_mod(at_s);
    } else {
        assert(at(at_s, y));
    }
    lemma_mod_range(at_s - y);
    assert(at((at_s - y) % modulus(), 0));
}

/// An honest opening is accepted: for a polynomial that the string can
/// commit to, the commitment, the value at `z` and the proof satisfy the
/// pairing equation.
pub proof fn lemma_honest_opening_verifies(scheme: KZGCommitmentScheme, s: int, p: Seq<int>, z: int)
    requires
        honest_setup(scheme, s),
        reduced(p),
        1 <= p.len() <= scheme.public_parameter_group_1@.len(),
        is_residue(z),
    ensures
        scheme.verify_spec(
            scheme.commit_spec(p),
            z,
            eval(p, z),
            scheme.commit_spec(KZGCommitmentScheme::opening_quotient(p, z)),
        ),
{
    lemma_mod_range(eval_sum(p, z, p.len()));
    lemma_pairing_sides(scheme, s, p, z, eval(p, z));
}

/// A wrong value is rejected: with the honest commitment and proof, no value
/// other than the value of the polynomial at `z` satisfies the pairing
/// equation.
pub proof fn lemma_wrong_value_rejected(
    scheme: KZGCommitmentScheme,
    s: int,
    p: Seq<int>,
    z: int,
    y: int,
)
    requires
        honest_setup(scheme, s),
        reduced(p),
        1 <= p.len() <= scheme.public_parameter_group_1@.len(),
        is_residue(z),
        is_residue(y),
        y != eval(p, z),
    ensures
        !scheme.verify_spec(
            scheme.commit_spec(p),
            z,
            y,
            scheme.commit_spec(KZGCommitmentScheme::opening_quotient(p, z)),
        ),
{
    let at_s = eval(p, s);
    let at_z = eval(p, z);
    lemma_mod_range(eval_sum(p, z, p.len()));
    lemma_mod_range(eval_sum(p, s, p.len()));
    lemma_pairing_sides(scheme, s, p, z, y);
    let a = (at_s - y) % modulus();
    let b = (at_s - at_z) % modulus();
    lemma_mod_range(at_s - y);
    lemma_mod_range(at_s - at_z);
    assert(at(a, b));
    if a == b {
        // then y and p(z) are congruent residues, hence equal
        lemma_sub_mod(at_s, at_s - y);
        lemma_sub_mod(at_s, at_s - at_z);
        lemma_reduced_mod(y);
        lemma_reduced_mod(at_z);
        assert(at_s - (at_s - y) == y);
        assert(at_s - (at_s - at_z) == at_z);
    }
}

/// The points of an honest string are consistent: pairing the next power in
/// G1 with the generator of G2 is pairing the power before with the secret
/// multiple in G2.
pub proof fn lemma_string_consistent(scheme: KZGCommitmentScheme, s: int, i: int)
    requires
        honest_setup(scheme, s),
        0 <= i < scheme.public_parameter_group_1@.len() - 1,
    ensures
        pairing_value(scheme.public_parameter_group_1@[i + 1], scheme.public_parameter_group_2@[0])
            == pairing_value(
            scheme.public_parameter_group_1@[i],
            scheme.public_parameter_group_2@[1],
        ),
{
    let g = scheme.public_parameter_group_1@[0];
    let h = scheme.public_parameter_group_2@[0];
    let t = pow(s, i as nat) % modulus();
    lemma_string_points(scheme, s, i);
    lemma_string_points(scheme, s, i + 1);
    lemma_mod_range(pow(s, i as nat));
    assert(at(t, s));
    lemma_mul_mod(pow(s, i as nat), s);
    lemma_pow_succ(s, i as nat);
    assert(pow(s, i as nat) * s == s * pow(s, i as nat)) by (nonlinear_arith);
}

} // verus!
