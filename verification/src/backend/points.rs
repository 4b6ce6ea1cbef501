//! Points of the BN254 groups and what is assumed of their arithmetic.
//!
//! A point is stored in affine form, each base-field coordinate as four
//! little-endian 64-bit limbs of its canonical representative. Two values of
//! [`G1Point`] or [`G2Point`] are equal exactly when they denote the same
//! point. All arithmetic is carried out by `ark_bn254`; the result of each
//! operation is given a name here, and the contracts of the private
//! functions at the end of this file say which call each name stands for.

use crate::primitives::field::{limbs_less, limbs_value, Scalar};
use crate::primitives::poly::{all_wf, values};
use ark_bn254::{Bn254, Fq, Fq2, Fr, G1Affine, G1Projective, G2Affine, G2Projective};
use ark_ec::{AffineRepr, CurveGroup, VariableBaseMSM};
use ark_ec::pairing::Pairing;
use ark_ff::{BigInt, Field, PrimeField};
use ark_serialize::{CanonicalDeserialize, CanonicalSerialize};
use vstd::prelude::*;

verus! {

/// The modulus `q` of the base field of BN254.
pub open spec fn base_modulus() -> int {
    21888242871839275222246405745257275088696311157297823662689037894645226208583int
}

/// The integer that a coordinate's limbs denote.
pub open spec fn coord_value(c: [u64; 4]) -> int {
    limbs_value(c[0], c[1], c[2], c[3])
}

/// The limbs of [`base_modulus`].
pub fn base_modulus_limbs() -> (m: [u64; 4])
    ensures
        coord_value(m) == base_modulus(),
{
    [0x3c208c16d87cfd47u64, 0x97816a916871ca8du64, 0xb85045b68181585du64, 0x30644e72e131a029u64]
}

/// Byte length of the uncompressed encoding of a point of G1.
pub const G1_UNCOMPRESSED_SIZE: usize = 64;

/// Byte length of the uncompressed encoding of a point of G2.
pub const G2_UNCOMPRESSED_SIZE: usize = 128;

/// A point of G1 in affine form.
#[derive(Clone, Copy, Debug, PartialEq, Eq)]
pub struct G1Point {
    x: [u64; 4],
    y: [u64; 4],
    infinity: bool,
}

/// A point of G2 in affine form; each coordinate lies in the quadratic
/// extension of the base field and has two components.
#[derive(Clone, Copy, Debug, PartialEq, Eq)]
pub struct G2Point {
    x: [[u64; 4]; 2],
    y: [[u64; 4]; 2],
    infinity: bool,
}

/// The sum of two points of G1.
pub uninterp spec fn g1_add(a: G1Point, b: G1Point) -> G1Point;

/// The difference of two points of G1.
pub uninterp spec fn g1_sub(a: G1Point, b: G1Point) -> G1Point;

/// The multiple of a point of G1 by the scalar with representative `k`.
pub uninterp spec fn g1_mul(a: G1Point, k: int) -> G1Point;

/// The sum of the multiples `scalars[i] * bases[i]` in G1.
pub uninterp spec fn g1_msm(bases: Seq<G1Point>, scalars: Seq<int>) -> G1Point;

/// The difference of two points of G2.
pub uninterp spec fn g2_sub(a: G2Point, b: G2Point) -> G2Point;

/// The multiple of a point of G2 by the scalar with representative `k`.
pub uninterp spec fn g2_mul(a: G2Point, k: int) -> G2Point;

/// The pairing of a point of G1 with a point of G2: the limbs of the twelve
/// base-field components of the target-group element, or `None` where the
/// final exponentiation has no result.
pub uninterp spec fn pairing_value(p: G1Point, q: G2Point) -> Option<Seq<u64>>;

/// The canonical compressed encoding of a point of G1.
pub uninterp spec fn g1_compressed(p: G1Point) -> Seq<u8>;

/// The canonical uncompressed encoding of a point of G1.
pub uninterp spec fn g1_uncompressed(p: G1Point) -> Seq<u8>;

/// The canonical uncompressed encoding of a point of G2.
pub uninterp spec fn g2_uncompressed(p: G2Point) -> Seq<u8>;

/// The point of G1 that the bytes encode in uncompressed form, read without
/// a curve or subgroup check; `None` where they do not decode.
pub uninterp spec fn g1_decoded(bytes: Seq<u8>) -> Option<G1Point>;

/// The point of G2 that the bytes encode in uncompressed form, read without
/// a curve or subgroup check; `None` where they do not decode.
pub uninterp spec fn g2_decoded(bytes: Seq<u8>) -> Option<G2Point>;

/// Every point of the sequence is well formed.
pub open spec fn all_g1_wf(s: Seq<G1Point>) -> bool {
    forall|i: int| 0 <= i < s.len() ==> (#[trigger] s[i]).wf()
}

/// Every point of the sequence is well formed.
pub open spec fn all_g2_wf(s: Seq<G2Point>) -> bool {
    forall|i: int| 0 <= i < s.len() ==> (#[trigger] s[i]).wf()
}

impl G1Point {
    /// Both coordinates are canonical residues, and the point at infinity
    /// is stored with zero coordinates.
    pub closed spec fn wf(self) -> bool {
        &&& coord_value(self.x) < base_modulus()
        &&& coord_value(self.y) < base_modulus()
        &&& self.infinity ==> coord_value(self.x) == 0 && coord_value(self.y) == 0
    }

    /// The first coordinate as an integer.
    pub closed spec fn x_value(self) -> int {
        coord_value(self.x)
    }

    /// The second coordinate as an integer.
    pub closed spec fn y_value(self) -> int {
        coord_value(self.y)
    }

    /// Whether this is the point at infinity.
    pub closed spec fn is_infinity(self) -> bool {
        self.infinity
    }

    /// Whether this is the fixed generator of G1, the point `(1, 2)`.
    pub open spec fn is_generator(self) -> bool {
        !self.is_infinity() && self.x_value() == 1 && self.y_value() == 2
    }

    /// The neutral element of G1, the point at infinity.
    pub fn identity() -> (r: G1Point)
        ensures
            r.wf(),
            r.is_infinity(),
    {
        G1Point { x: [0, 0, 0, 0], y: [0, 0, 0, 0], infinity: true }
    }

    /// The fixed generator of G1, the point `(1, 2)`.
    pub fn generator() -> (r: G1Point)
        ensures
            r.wf(),
            r.is_generator(),
    {
        g1_generator()
    }

    /// The finite point with the given coordinates, if both are canonical
    /// residues. Whether the point lies on the curve is not examined.
    pub fn from_coordinates(x: [u64; 4], y: [u64; 4]) -> (r: Option<G1Point>)
        ensures
            r.is_some() <==> coord_value(x) < base_modulus() && coord_value(y) < base_modulus(),
            r matches Some(p) ==> p.wf() && !p.is_infinity() && p.x_value() == coord_value(x)
                && p.y_value() == coord_value(y),
    {
        let m = base_modulus_limbs();
        if limbs_less(&x, &m) && limbs_less(&y, &m) {
            Some(G1Point { x, y, infinity: false })
        } else {
            None
        }
    }

    /// The limbs of the first coordinate.
    pub fn x_limbs(&self) -> (r: [u64; 4])
        ensures
            coord_value(r) == self.x_value(),
    {
        self.x
    }

    /// The limbs of the second coordinate.
    pub fn y_limbs(&self) -> (r: [u64; 4])
        ensures
            coord_value(r) == self.y_value(),
    {
        self.y
    }

    /// Whether this is the point at infinity.
    pub fn is_identity(&self) -> (r: bool)
        ensures
            r == self.is_infinity(),
    {
        self.infinity
    }

    /// The pairing with a point of G2, as the limbs of the twelve base-field
    /// components of the target-group element.
    pub fn pairing_with(&self, q: &G2Point) -> (r: Option<Vec<u64>>)
        requires
            self.wf(),
            q.wf(),
        ensures
            r.is_some() == pairing_value(*self, *q).is_some(),
            r matches Some(v) ==> pairing_value(*self, *q) == Some(v@),
    {
        pairing(self, q)
    }

    /// The group law.
    pub fn add(&self, other: &G1Point) -> (r: G1Point)
        requires
            self.wf(),
            other.wf(),
        ensures
            r.wf(),
            r == g1_add(*self, *other),
    {
        g1_point_add(self, other)
    }

    /// The group law with the inverse of `other`.
    pub fn sub(&self, other: &G1Point) -> (r: G1Point)
        requires
            self.wf(),
            other.wf(),
        ensures
            r.wf(),
            r == g1_sub(*self, *other),
    {
        g1_point_sub(self, other)
    }

    /// The scalar action.
    pub fn mul(&self, k: &Scalar) -> (r: G1Point)
        requires
            self.wf(),
            k.wf(),
        ensures
            r.wf(),
            r == g1_mul(*self, k.value()),
    {
        g1_point_mul(self, k)
    }

    /// The canonical compressed encoding.
    pub fn to_bytes(&self) -> (r: Vec<u8>)
        requires
            self.wf(),
        ensures
            r@ == g1_compressed(*self),
    {
        g1_point_compressed(self)
    }
}

impl G2Point {
    /// All four coordinate components are canonical residues, and the point
    /// at infinity is stored with zero coordinates.
    pub closed spec fn wf(self) -> bool {
        &&& coord_value(self.x[0]) < base_modulus()
        &&& coord_value(self.x[1]) < base_modulus()
        &&& coord_value(self.y[0]) < base_modulus()
        &&& coord_value(self.y[1]) < base_modulus()
        &&& self.infinity ==> coord_value(self.x[0]) == 0 && coord_value(self.x[1]) == 0
            && coord_value(self.y[0]) == 0 && coord_value(self.y[1]) == 0
    }

    /// The four coordinate components `(x0, x1, y0, y1)` as integers.
    pub closed spec fn coordinates(self) -> (int, int, int, int) {
        (
            coord_value(self.x[0]),
            coord_value(self.x[1]),
            coord_value(self.y[0]),
            coord_value(self.y[1]),
        )
    }

    /// Whether this is the point at infinity.
    pub closed spec fn is_infinity(self) -> bool {
        self.infinity
    }

    /// Whether this is the fixed generator of G2.
    pub open spec fn is_generator(self) -> bool {
        !self.is_infinity() && self.coordinates() == (
            10857046999023057135944570762232829481370756359578518086990519993285655852781int,
            11559732032986387107991004021392285783925812861821192530917403151452391805634int,
            8495653923123431417604973247489272438418190587263600148770280649306958101930int,
            4082367875863433681332203403145435568316851327593401208105741076214120093531int,
        )
    }

    /// The neutral element of G2, the point at infinity.
    pub fn identity() -> (r: G2Point)
        ensures
            r.wf(),
            r.is_infinity(),
    {
        G2Point { x: [[0, 0, 0, 0], [0, 0, 0, 0]], y: [[0, 0, 0, 0], [0, 0, 0, 0]], infinity: true }
    }

    /// The finite point with the given coordinates, if all four components
    /// are canonical residues. Whether the point lies on the curve is not
    /// examined.
    pub fn from_coordinates(x: [[u64; 4]; 2], y: [[u64; 4]; 2]) -> (r: Option<G2Point>)
        ensures
            r.is_some() <==> coord_value(x[0]) < base_modulus() && coord_value(x[1])
                < base_modulus() && coord_value(y[0]) < base_modulus() && coord_value(y[1])
                < base_modulus(),
            r matches Some(p) ==> p.wf() && !p.is_infinity() && p.coordinates() == (
                coord_value(x[0]),
                coord_value(x[1]),
                coord_value(y[0]),
                coord_value(y[1]),
            ),
    {
        let m = base_modulus_limbs();
        if limbs_less(&x[0], &m) && limbs_less(&x[1], &m) && limbs_less(&y[0], &m) && limbs_less(
            &y[1],
            &m,
        ) {
            Some(G2Point { x, y, infinity: false })
        } else {
            None
        }
    }

    /// The limbs of the two components of the first coordinate.
    pub fn x_limbs(&self) -> (r: [[u64; 4]; 2])
        ensures
            coord_value(r[0]) == self.coordinates().0,
            coord_value(r[1]) == self.coordinates().1,
    {
        self.x
    }

    /// The limbs of the two components of the second coordinate.
    pub fn y_limbs(&self) -> (r: [[u64; 4]; 2])
        ensures
            coord_value(r[0]) == self.coordinates().2,
            coord_value(r[1]) == self.coordinates().3,
    {
        self.y
    }

    /// Whether this is the point at infinity.
    pub fn is_identity(&self) -> (r: bool)
        ensures
            r == self.is_infinity(),
    {
        self.infinity
    }

    /// The fixed generator of G2.
    pub fn generator() -> (r: G2Point)
        ensures
            r.wf(),
            r.is_generator(),
    {
        g2_generator()
    }

    /// The group law with the inverse of `other`.
    pub fn sub(&self, other: &G2Point) -> (r: G2Point)
        requires
            self.wf(),
            other.wf(),
        ensures
            r.wf(),
            r == g2_sub(*self, *other),
    {
        g2_point_sub(self, other)
    }

    /// The scalar action.
    pub fn mul(&self, k: &Scalar) -> (r: G2Point)
        requires
            self.wf(),
            k.wf(),
        ensures
            r.wf(),
            r == g2_mul(*self, k.value()),
    {
        g2_point_mul(self, k)
    }
}

/// Calls `AffineRepr::generator` on `ark_bn254::G1Affine`, which returns the
/// constant `(1, 2)` that the curve's configuration declares.
#[verifier::external_body]
fn g1_generator() -> (r: G1Point)
    ensures
        r.wf(),
        !r.is_infinity(),
        r.x_value() == 1,
        r.y_value() == 2,
{
    let p = G1Affine::generator();
    G1Point { x: p.x.into_bigint().0, y: p.y.into_bigint().0, infinity: p.infinity }
}

/// Calls `AffineRepr::generator` on `ark_bn254::G2Affine`, which returns the
/// constant that the curve's configuration declares; the coordinates are
/// those written there in decimal.
#[verifier::external_body]
fn g2_generator() -> (r: G2Point)
    ensures
        r.wf(),
        !r.is_infinity(),
        r.coordinates() == (
            10857046999023057135944570762232829481370756359578518086990519993285655852781int,
            11559732032986387107991004021392285783925812861821192530917403151452391805634int,
            8495653923123431417604973247489272438418190587263600148770280649306958101930int,
            4082367875863433681332203403145435568316851327593401208105741076214120093531int,
        ),
{
    let g = |c: Fq2| [c.c0.into_bigint().0, c.c1.into_bigint().0];
    let p = G2Affine::generator();
    G2Point { x: g(p.x), y: g(p.y), infinity: p.infinity }
}

/// Calls `+` on two `ark_bn254::G1Affine` points and brings the sum back to
/// affine form. The result is named [`g1_add`].
#[verifier::external_body]
fn g1_point_add(a: &G1Point, b: &G1Point) -> (r: G1Point)
    requires
        a.wf(),
        b.wf(),
    ensures
        r.wf(),
        r == g1_add(*a, *b),
{
    let p = G1Affine { x: Fq::from(BigInt(a.x)), y: Fq::from(BigInt(a.y)), infinity: a.infinity };
    let q = G1Affine { x: Fq::from(BigInt(b.x)), y: Fq::from(BigInt(b.y)), infinity: b.infinity };
    let s = (p + q).into_affine();
    G1Point { x: s.x.into_bigint().0, y: s.y.into_bigint().0, infinity: s.infinity }
}

/// Calls `-` on two `ark_bn254::G1Projective` points and brings the
/// difference back to affine form. The result is named [`g1_sub`].
#[verifier::external_body]
fn g1_point_sub(a: &G1Point, b: &G1Point) -> (r: G1Point)
    requires
        a.wf(),
        b.wf(),
    ensures
        r.wf(),
        r == g1_sub(*a, *b),
{
    let p = G1Affine { x: Fq::from(BigInt(a.x)), y: Fq::from(BigInt(a.y)), infinity: a.infinity };
    let q = G1Affine { x: Fq::from(BigInt(b.x)), y: Fq::from(BigInt(b.y)), infinity: b.infinity };
    let s = (G1Projective::from(p) - q).into_affine();
    G1Point { x: s.x.into_bigint().0, y: s.y.into_bigint().0, infinity: s.infinity }
}

/// Calls `*` on an `ark_bn254::G1Affine` point and an `ark_bn254::Fr`
/// scalar and brings the multiple back to affine form. The result is named
/// [`g1_mul`].
#[verifier::external_body]
fn g1_point_mul(a: &G1Point, k: &Scalar) -> (r: G1Point)
    requires
        a.wf(),
        k.wf(),
    ensures
        r.wf(),
        r == g1_mul(*a, k.value()),
{
    let p = G1Affine { x: Fq::from(BigInt(a.x)), y: Fq::from(BigInt(a.y)), infinity: a.infinity };
    let s = (p * Fr::from(BigInt(k.to_limbs()))).into_affine();
    G1Point { x: s.x.into_bigint().0, y: s.y.into_bigint().0, infinity: s.infinity }
}

/// Calls `VariableBaseMSM::msm` of `ark_bn254::G1Projective` on as many
/// bases as scalars, at least one, and brings the result back to affine
/// form. The result is named [`g1_msm`].
#[verifier::external_body]
pub(crate) fn g1_points_msm(bases: &[G1Point], scalars: &[Scalar]) -> (r: G1Point)
    requires
        bases@.len() == scalars@.len(),
        bases@.len() >= 1,
        all_g1_wf(bases@),
        all_wf(scalars@),
    ensures
        r.wf(),
        r == g1_msm(bases@, values(scalars@)),
{
    let b: Vec<G1Affine> = bases.iter().map(
        |p| G1Affine { x: Fq::from(BigInt(p.x)), y: Fq::from(BigInt(p.y)), infinity: p.infinity },
    ).collect();
    let k: Vec<Fr> = scalars.iter().map(|c| Fr::from(BigInt(c.to_limbs()))).collect();
    let s = G1Projective::msm(&b, &k).unwrap().into_affine();
    G1Point { x: s.x.into_bigint().0, y: s.y.into_bigint().0, infinity: s.infinity }
}

/// Calls `-` on two `ark_bn254::G2Projective` points and brings the
/// difference back to affine form. The result is named [`g2_sub`].
#[verifier::external_body]
fn g2_point_sub(a: &G2Point, b: &G2Point) -> (r: G2Point)
    requires
        a.wf(),
        b.wf(),
    ensures
        r.wf(),
        r == g2_sub(*a, *b),
{
    let f = |c: [[u64; 4]; 2]| Fq2::new(Fq::from(BigInt(c[0])), Fq::from(BigInt(c[1])));
    let g = |c: Fq2| [c.c0.into_bigint().0, c.c1.into_bigint().0];
    let p = G2Affine { x: f(a.x), y: f(a.y), infinity: a.infinity };
    let q = G2Affine { x: f(b.x), y: f(b.y), infinity: b.infinity };
    let s = (G2Projective::from(p) - q).into_affine();
    G2Point { x: g(s.x), y: g(s.y), infinity: s.infinity }
}

/// Calls `*` on an `ark_bn254::G2Affine` point and an `ark_bn254::Fr`
/// scalar and brings the multiple back to affine form. The result is named
/// [`g2_mul`].
#[verifier::external_body]
fn g2_point_mul(a: &G2Point, k: &Scalar) -> (r: G2Point)
    requires
        a.wf(),
        k.wf(),
    ensures
        r.wf(),
        r == g2_mul(*a, k.value()),
{
    let f = |c: [[u64; 4]; 2]| Fq2::new(Fq::from(BigInt(c[0])), Fq::from(BigInt(c[1])));
    let g = |c: Fq2| [c.c0.into_bigint().0, c.c1.into_bigint().0];
    let p = G2Affine { x: f(a.x), y: f(a.y), infinity: a.infinity };
    let s = (p * Fr::from(BigInt(k.to_limbs()))).into_affine();
    G2Point { x: g(s.x), y: g(s.y), infinity: s.infinity }
}

/// Calls `Pairing::miller_loop` and `Pairing::final_exponentiation` of
/// `ark_bn254::Bn254`, the two steps of its `pairing`, and lists the limbs
/// of the twelve base-field components of the result. The result is named
/// [`pairing_value`].
#[verifier::external_body]
pub(crate) fn pairing(p: &G1Point, q: &G2Point) -> (r: Option<Vec<u64>>)
    requires
        p.wf(),
        q.wf(),
    ensures
        r.is_some() == pairing_value(*p, *q).is_some(),
        r matches Some(v) ==> pairing_value(*p, *q) == Some(v@),
{
    let f = |c: [u64; 4]| Fq::from(BigInt(c));
    let a = G1Affine { x: f(p.x), y: f(p.y), infinity: p.infinity };
    let b = G2Affine {
        x: Fq2::new(f(q.x[0]), f(q.x[1])),
        y: Fq2::new(f(q.y[0]), f(q.y[1])),
        infinity: q.infinity,
    };
    Bn254::final_exponentiation(Bn254::miller_loop(a, b)).map(
        |t| t.0.to_base_prime_field_elements().flat_map(|c| c.into_bigint().0).collect(),
    )
}

/// Calls `CanonicalSerialize::serialize_compressed` on an
/// `ark_bn254::G1Affine` point. The bytes written are named
/// [`g1_compressed`].
#[verifier::external_body]
fn g1_point_compressed(p: &G1Point) -> (r: Vec<u8>)
    requires
        p.wf(),
    ensures
        r@ == g1_compressed(*p),
{
    let a = G1Affine { x: Fq::from(BigInt(p.x)), y: Fq::from(BigInt(p.y)), infinity: p.infinity };
    let mut buf = Vec::new();
    a.serialize_compressed(&mut buf).unwrap();
    buf
}

/// Calls `CanonicalSerialize::serialize_uncompressed` on an
/// `ark_bn254::G1Affine` point. The bytes written are named
/// [`g1_uncompressed`]: two coordinates of 32 bytes each, from which
/// unchecked decoding gives the point back.
#[verifier::external_body]
pub(crate) fn g1_point_uncompressed(p: &G1Point) -> (r: Vec<u8>)
    requires
        p.wf(),
    ensures
        r@ == g1_uncompressed(*p),
        r@.len() == G1_UNCOMPRESSED_SIZE,
        g1_decoded(r@) == Some(*p),
{
    let a = G1Affine { x: Fq::from(BigInt(p.x)), y: Fq::from(BigInt(p.y)), infinity: p.infinity };
    let mut buf = Vec::new();
    a.serialize_uncompressed(&mut buf).unwrap();
    buf
}

/// Calls `CanonicalSerialize::serialize_uncompressed` on an
/// `ark_bn254::G2Affine` point. The bytes written are named
/// [`g2_uncompressed`]: four coordinate components of 32 bytes each, from
/// which unchecked decoding gives the point back.
#[verifier::external_body]
pub(crate) fn g2_point_uncompressed(p: &G2Point) -> (r: Vec<u8>)
    requires
        p.wf(),
    ensures
        r@ == g2_uncompressed(*p),
        r@.len() == G2_UNCOMPRESSED_SIZE,
        g2_decoded(r@) == Some(*p),
{
    let f = |c: [[u64; 4]; 2]| Fq2::new(Fq::from(BigInt(c[0])), Fq::from(BigInt(c[1])));
    let a = G2Affine { x: f(p.x), y: f(p.y), infinity: p.infinity };
    let mut buf = Vec::new();
    a.serialize_uncompressed(&mut buf).unwrap();
    buf
}

/// Calls `CanonicalDeserialize::deserialize_uncompressed_unchecked` of
/// `ark_bn254::G1Affine` on the bytes. What it reads is named
/// [`g1_decoded`]; a point that it returns has canonical coordinates.
#[verifier::external_body]
pub(crate) fn g1_point_decode(bytes: &[u8]) -> (r: Option<G1Point>)
    ensures
        r == g1_decoded(bytes@),
        r matches Some(p) ==> p.wf(),
{
    G1Affine::deserialize_uncompressed_unchecked(bytes).ok().map(
        |p| G1Point { x: p.x.into_bigint().0, y: p.y.into_bigint().0, infinity: p.infinity },
    )
}

/// Calls `CanonicalDeserialize::deserialize_uncompressed_unchecked` of
/// `ark_bn254::G2Affine` on the bytes. What it reads is named
/// [`g2_decoded`]; a point that it returns has canonical coordinates.
#[verifier::external_body]
pub(crate) fn g2_point_decode(bytes: &[u8]) -> (r: Option<G2Point>)
    ensures
        r == g2_decoded(bytes@),
        r matches Some(p) ==> p.wf(),
{
    let g = |c: Fq2| [c.c0.into_bigint().0, c.c1.into_bigint().0];
    G2Affine::deserialize_uncompressed_unchecked(bytes).ok().map(
        |p| G2Point { x: g(p.x), y: g(p.y), infinity: p.infinity },
    )
}

} // verus!
