//! The BN254 scalar field.
//!
//! A [`Scalar`] stores the canonical representative of a residue modulo the
//! group order `r` as four little-endian 64-bit limbs. Arithmetic is carried
//! out by `ark_bn254::Fr`; the contracts of the private `fr_*` functions say
//! what is relied upon.

use ark_ff::{BigInt, BigInteger, Field, PrimeField};
use vstd::prelude::*;

verus! {

/// The order `r` of the BN254 groups, the modulus of the scalar field.
pub open spec fn modulus() -> int {
    21888242871839275222246405745257275088548364400416034343698204186575808495617int
}

/// The integer written by four little-endian 64-bit limbs.
pub open spec fn limbs_value(l0: u64, l1: u64, l2: u64, l3: u64) -> int {
    l0 as int + (l1 as int) * 0x1_0000_0000_0000_0000int + (l2 as int)
        * 0x1_0000_0000_0000_0000_0000_0000_0000_0000int + (l3 as int)
        * 0x1_0000_0000_0000_0000_0000_0000_0000_0000_0000_0000_0000_0000int
}

/// Two integers below `2^64` that differ by a multiple of `2^64` are equal,
/// and so are the multipliers.
proof fn lemma_split(lo_a: int, hi_a: int, lo_b: int, hi_b: int)
    requires
        0 <= lo_a < 0x1_0000_0000_0000_0000,
        0 <= lo_b < 0x1_0000_0000_0000_0000,
        lo_a + hi_a * 0x1_0000_0000_0000_0000 == lo_b + hi_b * 0x1_0000_0000_0000_0000,
    ensures
        lo_a == lo_b,
        hi_a == hi_b,
{
    if hi_a > hi_b {
        assert((hi_a - hi_b) * 0x1_0000_0000_0000_0000 >= 0x1_0000_0000_0000_0000);
    } else if hi_a < hi_b {
        assert((hi_b - hi_a) * 0x1_0000_0000_0000_0000 >= 0x1_0000_0000_0000_0000);
    }
}

/// Four-limb integers with the same value have the same limbs.
pub proof fn lemma_limbs_injective(
    a0: u64,
    a1: u64,
    a2: u64,
    a3: u64,
    b0: u64,
    b1: u64,
    b2: u64,
    b3: u64,
)
    requires
        limbs_value(a0, a1, a2, a3) == limbs_value(b0, b1, b2, b3),
    ensures
        a0 == b0,
        a1 == b1,
        a2 == b2,
        a3 == b3,
{
    let w = 0x1_0000_0000_0000_0000int;
    let ha2 = a2 as int + (a3 as int) * w;
    let hb2 = b2 as int + (b3 as int) * w;
    let ha1 = a1 as int + ha2 * w;
    let hb1 = b1 as int + hb2 * w;
    assert(limbs_value(a0, a1, a2, a3) == a0 as int + ha1 * w);
    assert(limbs_value(b0, b1, b2, b3) == b0 as int + hb1 * w);
    lemma_split(a0 as int, ha1, b0 as int, hb1);
    lemma_split(a1 as int, ha2, b1 as int, hb2);
    lemma_split(a2 as int, a3 as int, b2 as int, b3 as int);
}

/// Compares two four-limb integers.
pub fn limbs_less(a: &[u64; 4], b: &[u64; 4]) -> (r: bool)
    ensures
        r == (limbs_value(a[0], a[1], a[2], a[3]) < limbs_value(b[0], b[1], b[2], b[3])),
{
    if a[3] != b[3] {
        a[3] < b[3]
    } else if a[2] != b[2] {
        a[2] < b[2]
    } else if a[1] != b[1] {
        a[1] < b[1]
    } else {
        a[0] < b[0]
    }
}

/// The limbs of [`modulus`].
pub fn modulus_limbs() -> (m: [u64; 4])
    ensures
        limbs_value(m[0], m[1], m[2], m[3]) == modulus(),
{
    [0x43e1f593f0000001u64, 0x2833e84879b97091u64, 0xb85045b68181585du64, 0x30644e72e131a029u64]
}

/// The integer written by little-endian bytes.
pub open spec fn le_bytes_value(bytes: Seq<u8>) -> int
    decreases bytes.len(),
{
    if bytes.len() == 0 {
        0
    } else {
        bytes[0] as int + 256 * le_bytes_value(bytes.skip(1))
    }
}

/// The modulus in 32 little-endian bytes.
pub fn modulus_bytes() -> (r: Vec<u8>)
    ensures
        r@.len() == 32,
        le_bytes_value(r@) == modulus(),
{
    fr_modulus_bytes()
}

/// An element of the scalar field.
#[derive(Clone, Copy, Debug, PartialEq, Eq, Structural)]
pub struct Scalar {
    l0: u64,
    l1: u64,
    l2: u64,
    l3: u64,
}

impl Scalar {
    /// The canonical representative, an integer in `[0, r)` when [`Self::wf`] holds.
    pub closed spec fn value(self) -> int {
        limbs_value(self.l0, self.l1, self.l2, self.l3)
    }

    /// The limbs denote a residue below the modulus.
    pub closed spec fn wf(self) -> bool {
        self.value() < modulus()
    }

    /// A well-formed scalar lies in `[0, r)`.
    pub proof fn lemma_value_range(self)
        ensures
            0 <= self.value(),
            self.wf() <==> self.value() < modulus(),
    {
    }

    /// Two scalars with the same value are the same scalar.
    pub proof fn lemma_value_injective(a: Scalar, b: Scalar)
        requires
            a.value() == b.value(),
        ensures
            a == b,
    {
        lemma_limbs_injective(a.l0, a.l1, a.l2, a.l3, b.l0, b.l1, b.l2, b.l3);
    }

    /// The additive identity.
    pub fn zero() -> (r: Scalar)
        ensures
            r.wf(),
            r.value() == 0,
    {
        Scalar { l0: 0, l1: 0, l2: 0, l3: 0 }
    }

    /// The multiplicative identity.
    pub fn one() -> (r: Scalar)
        ensures
            r.wf(),
            r.value() == 1,
    {
        Scalar { l0: 1, l1: 0, l2: 0, l3: 0 }
    }

    /// The scalar of a small integer.
    pub fn from_u64(x: u64) -> (r: Scalar)
        ensures
            r.wf(),
            r.value() == x,
    {
        Scalar { l0: x, l1: 0, l2: 0, l3: 0 }
    }

    /// The scalar with the given little-endian limbs, if they denote an
    /// integer below the modulus.
    pub fn from_limbs(limbs: [u64; 4]) -> (r: Option<Scalar>)
        ensures
            r.is_some() <==> limbs_value(limbs[0], limbs[1], limbs[2], limbs[3]) < modulus(),
            r matches Some(s) ==> s.wf() && s.value() == limbs_value(
                limbs[0],
                limbs[1],
                limbs[2],
                limbs[3],
            ),
    {
        let m = modulus_limbs();
        if limbs_less(&limbs, &m) {
            Some(Scalar { l0: limbs[0], l1: limbs[1], l2: limbs[2], l3: limbs[3] })
        } else {
            None
        }
    }

    /// The scalar with the given limbs, which denote an integer below the
    /// modulus.
    pub(crate) fn from_reduced(limbs: [u64; 4]) -> (r: Scalar)
        requires
            limbs_value(limbs[0], limbs[1], limbs[2], limbs[3]) < modulus(),
        ensures
            r.wf(),
            r.value() == limbs_value(limbs[0], limbs[1], limbs[2], limbs[3]),
    {
        Scalar { l0: limbs[0], l1: limbs[1], l2: limbs[2], l3: limbs[3] }
    }

    /// The little-endian limbs of the canonical representative.
    pub fn to_limbs(&self) -> (limbs: [u64; 4])
        ensures
            limbs_value(limbs[0], limbs[1], limbs[2], limbs[3]) == self.value(),
    {
        [self.l0, self.l1, self.l2, self.l3]
    }

    /// Whether this is the additive identity.
    pub fn is_zero(&self) -> (r: bool)
        ensures
            r == (self.value() == 0),
    {
        self.l0 == 0 && self.l1 == 0 && self.l2 == 0 && self.l3 == 0
    }

    /// Field addition.
    pub fn add(&self, other: &Scalar) -> (r: Scalar)
        requires
            self.wf(),
            other.wf(),
        ensures
            r.wf(),
            r.value() == (self.value() + other.value()) % modulus(),
    {
        fr_add(self, other)
    }

    /// Field subtraction.
    pub fn sub(&self, other: &Scalar) -> (r: Scalar)
        requires
            self.wf(),
            other.wf(),
        ensures
            r.wf(),
            r.value() == (self.value() - other.value()) % modulus(),
    {
        fr_sub(self, other)
    }

    /// Field multiplication.
    pub fn mul(&self, other: &Scalar) -> (r: Scalar)
        requires
            self.wf(),
            other.wf(),
        ensures
            r.wf(),
            r.value() == (self.value() * other.value()) % modulus(),
    {
        fr_mul(self, other)
    }

    /// The additive inverse.
    pub fn neg(&self) -> (r: Scalar)
        requires
            self.wf(),
        ensures
            r.wf(),
            r.value() == (-self.value()) % modulus(),
    {
        fr_neg(self)
    }

    /// The multiplicative inverse, which exists exactly for nonzero scalars.
    pub fn inverse(&self) -> (r: Option<Scalar>)
        requires
            self.wf(),
        ensures
            r.is_some() <==> self.value() != 0,
            r matches Some(inv) ==> inv.wf() && (self.value() * inv.value()) % modulus() == 1,
    {
        fr_inverse(self)
    }
}

/// Calls `BigInteger::to_bytes_le` on the constant `PrimeField::MODULUS` of
/// `ark_bn254::Fr`: the four limbs of the modulus, least significant byte
/// first.
#[verifier::external_body]
fn fr_modulus_bytes() -> (r: Vec<u8>)
    ensures
        r@.len() == 32,
        le_bytes_value(r@) == modulus(),
{
    <ark_bn254::Fr as PrimeField>::MODULUS.to_bytes_le()
}

/// Calls `+` of `ark_bn254::Fr`. The sum of two field elements is the
/// canonical representative of the sum of theirs, reduced modulo `r`.
#[verifier::external_body]
fn fr_add(a: &Scalar, b: &Scalar) -> (r: Scalar)
    requires
        a.wf(),
        b.wf(),
    ensures
        r.wf(),
        r.value() == (a.value() + b.value()) % modulus(),
{
    let x = ark_bn254::Fr::from(BigInt([a.l0, a.l1, a.l2, a.l3]));
    let y = ark_bn254::Fr::from(BigInt([b.l0, b.l1, b.l2, b.l3]));
    let l = (x + y).into_bigint().0;
    Scalar { l0: l[0], l1: l[1], l2: l[2], l3: l[3] }
}

/// Calls `-` of `ark_bn254::Fr`. The difference of two field elements is the
/// canonical representative of the difference of theirs, reduced modulo `r`.
#[verifier::external_body]
fn fr_sub(a: &Scalar, b: &Scalar) -> (r: Scalar)
    requires
        a.wf(),
        b.wf(),
    ensures
        r.wf(),
        r.value() == (a.value() - b.value()) % modulus(),
{
    let x = ark_bn254::Fr::from(BigInt([a.l0, a.l1, a.l2, a.l3]));
    let y = ark_bn254::Fr::from(BigInt([b.l0, b.l1, b.l2, b.l3]));
    let l = (x - y).into_bigint().0;
    Scalar { l0: l[0], l1: l[1], l2: l[2], l3: l[3] }
}

/// Calls `*` of `ark_bn254::Fr`. The product of two field elements is the
/// canonical representative of the product of theirs, reduced modulo `r`.
#[verifier::external_body]
fn fr_mul(a: &Scalar, b: &Scalar) -> (r: Scalar)
    requires
        a.wf(),
        b.wf(),
    ensures
        r.wf(),
        r.value() == (a.value() * b.value()) % modulus(),
{
    let x = ark_bn254::Fr::from(BigInt([a.l0, a.l1, a.l2, a.l3]));
    let y = ark_bn254::Fr::from(BigInt([b.l0, b.l1, b.l2, b.l3]));
    let l = (x * y).into_bigint().0;
    Scalar { l0: l[0], l1: l[1], l2: l[2], l3: l[3] }
}

/// Calls unary `-` of `ark_bn254::Fr`. The negation of a field element is
/// the canonical representative of the negated integer, reduced modulo `r`.
#[verifier::external_body]
fn fr_neg(a: &Scalar) -> (r: Scalar)
    requires
        a.wf(),
    ensures
        r.wf(),
        r.value() == (-a.value()) % modulus(),
{
    let x = ark_bn254::Fr::from(BigInt([a.l0, a.l1, a.l2, a.l3]));
    let l = (-x).into_bigint().0;
    Scalar { l0: l[0], l1: l[1], l2: l[2], l3: l[3] }
}

/// Calls `ark_ff::Field::inverse` on `ark_bn254::Fr`. It returns `None` for
/// zero and otherwise the element whose product with the argument is one.
#[verifier::external_body]
fn fr_inverse(a: &Scalar) -> (r: Option<Scalar>)
    requires
        a.wf(),
    ensures
        r.is_some() <==> a.value() != 0,
        r matches Some(inv) ==> inv.wf() && (a.value() * inv.value()) % modulus() == 1,
{
    let x = ark_bn254::Fr::from(BigInt([a.l0, a.l1, a.l2, a.l3]));
    x.inverse().map(|v| v.into_bigint().0).map(|l| Scalar { l0: l[0], l1: l[1], l2: l[2], l3: l[3] })
}

} // verus!
