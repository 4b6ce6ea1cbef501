//! KZG commitments over BN254: the commitment as a group element, the
//! structured reference string, and commit, open and verify.

use crate::backend::points::{
    all_g1_wf,
    all_g2_wf,
    g1_add,
    g1_compressed,
    g1_decoded,
    g1_msm,
    g1_mul,
    g1_point_decode,
    g1_point_uncompressed,
    g1_points_msm,
    g1_sub,
    g1_uncompressed,
    g2_decoded,
    g2_mul,
    g2_point_decode,
    g2_point_uncompressed,
    g2_sub,
    g2_uncompressed,
    pairing,
    pairing_value,
    G1Point,
    G2Point,
    G1_UNCOMPRESSED_SIZE,
    G2_UNCOMPRESSED_SIZE,
};
use crate::errs::KZGError;
use crate::primitives::algebra::{
    eval,
    linear_factor,
    linear_quotient,
    normalize,
    sub_seq,
};
use crate::primitives::canonical::{
    lemma_normalize,
    lemma_trim_fixed,
};
use crate::primitives::division::lemma_linear_division;
use crate::primitives::field::{modulus, Scalar};
use crate::primitives::poly::{all_wf, lemma_values_reduced, values, FpPolynomial};
use vstd::bytes::{
    lemma_auto_spec_u32_to_from_le_bytes,
    spec_u32_from_le_bytes,
    spec_u32_to_le_bytes,
    u32_from_le_bytes,
    u32_to_le_bytes,
};
use vstd::prelude::*;
use vstd::slice::slice_subrange;

verus! {

/// A commitment: one point of G1, with the group law and the scalar action.
#[derive(Clone, Copy, Debug, PartialEq, Eq)]
pub struct KZGCommitment(pub G1Point);

/// An opening proof: one point of G1.
#[derive(Clone, Copy, Debug, PartialEq, Eq)]
pub struct KZGOpenProof(pub G1Point);

impl KZGCommitment {
    /// The point is well formed.
    pub open spec fn wf(self) -> bool {
        self.0.wf()
    }

    /// The commitment that is the generator of G1.
    pub fn get_base() -> (r: Self)
        ensures
            r.wf(),
            r.0.is_generator(),
    {
        KZGCommitment(G1Point::generator())
    }

    /// The commitment that is the neutral element of G1.
    pub fn get_identity() -> (r: Self)
        ensures
            r.wf(),
            r.0.is_infinity(),
    {
        KZGCommitment(G1Point::identity())
    }

    /// The sum of two commitments.
    pub fn add(&self, other: &Self) -> (r: Self)
        requires
            self.wf(),
            other.wf(),
        ensures
            r.wf(),
            r.0 == g1_add(self.0, other.0),
    {
        KZGCommitment(self.0.add(&other.0))
    }

    /// Adds `other` to this commitment.
    pub fn add_assign(&mut self, other: &Self)
        requires
            old(self).wf(),
            other.wf(),
        ensures
            final(self).wf(),
            final(self).0 == g1_add(old(self).0, other.0),
    {
        self.0 = self.0.add(&other.0);
    }

    /// The difference of two commitments.
    pub fn sub(&self, other: &Self) -> (r: Self)
        requires
            self.wf(),
            other.wf(),
        ensures
            r.wf(),
            r.0 == g1_sub(self.0, other.0),
    {
        KZGCommitment(self.0.sub(&other.0))
    }

    /// Subtracts `other` from this commitment.
    pub fn sub_assign(&mut self, other: &Self)
        requires
            old(self).wf(),
            other.wf(),
        ensures
            final(self).wf(),
            final(self).0 == g1_sub(old(self).0, other.0),
    {
        self.0 = self.0.sub(&other.0);
    }

    /// The multiple of this commitment by a scalar.
    pub fn mul(&self, exp: &Scalar) -> (r: Self)
        requires
            self.wf(),
            exp.wf(),
        ensures
            r.wf(),
            r.0 == g1_mul(self.0, exp.value()),
    {
        KZGCommitment(self.0.mul(exp))
    }

    /// Multiplies this commitment by a scalar.
    pub fn mul_assign(&mut self, exp: &Scalar)
        requires
            old(self).wf(),
            exp.wf(),
        ensures
            final(self).wf(),
            final(self).0 == g1_mul(old(self).0, exp.value()),
    {
        self.0 = self.0.mul(exp);
    }

    /// The canonical compressed encoding of the point.
    pub fn to_bytes(&self) -> (r: Vec<u8>)
        requires
            self.wf(),
        ensures
            r@ == g1_compressed(self.0),
    {
        self.0.to_bytes()
    }
}

impl Default for KZGCommitment {
    /// The neutral element.
    fn default() -> (r: Self)
        ensures
            r.wf(),
            r.0.is_infinity(),
    {
        KZGCommitment(G1Point::identity())
    }
}

impl KZGOpenProof {
    /// The point is well formed.
    pub open spec fn wf(self) -> bool {
        self.0.wf()
    }

    /// The canonical compressed encoding of the point.
    pub fn to_bytes(&self) -> (r: Vec<u8>)
        requires
            self.wf(),
        ensures
            r@ == g1_compressed(self.0),
    {
        self.0.to_bytes()
    }
}

/// The way a point of G1 is written in the unchecked format.
pub open spec fn g1_encoder() -> spec_fn(G1Point) -> Seq<u8> {
    |p: G1Point| g1_uncompressed(p)
}

/// The way a point of G2 is written in the unchecked format.
pub open spec fn g2_encoder() -> spec_fn(G2Point) -> Seq<u8> {
    |p: G2Point| g2_uncompressed(p)
}

/// The way a point of G1 is read in the unchecked format.
pub open spec fn g1_decoder() -> spec_fn(Seq<u8>) -> Option<G1Point> {
    |bytes: Seq<u8>| g1_decoded(bytes)
}

/// The way a point of G2 is read in the unchecked format.
pub open spec fn g2_decoder() -> spec_fn(Seq<u8>) -> Option<G2Point> {
    |bytes: Seq<u8>| g2_decoded(bytes)
}

/// The concatenated encodings of a sequence of points.
pub open spec fn points_bytes<T>(points: Seq<T>, encode: spec_fn(T) -> Seq<u8>) -> Seq<u8>
    decreases points.len(),
{
    if points.len() == 0 {
        Seq::empty()
    } else {
        points_bytes(points.drop_last(), encode) + encode(points.last())
    }
}

/// The first `count` points that `bytes` hold, `size` bytes each; `None`
/// where the bytes run out or one of the points does not decode.
pub open spec fn points_parsed<T>(
    bytes: Seq<u8>,
    count: nat,
    size: nat,
    decode: spec_fn(Seq<u8>) -> Option<T>,
) -> Option<Seq<T>>
    decreases count,
{
    if count == 0 {
        Some(Seq::empty())
    } else {
        match points_parsed(bytes, (count - 1) as nat, size, decode) {
            None => None,
            Some(points) => if bytes.len() < size * count {
                None
            } else {
                match decode(bytes.subrange(size * (count - 1), size * (count as int))) {
                    None => None,
                    Some(p) => Some(points.push(p)),
                }
            },
        }
    }
}

/// Once the bytes fail to hold `count` points, they fail for every larger
/// count.
pub proof fn lemma_parsed_none<T>(
    bytes: Seq<u8>,
    count: nat,
    more: nat,
    size: nat,
    decode: spec_fn(Seq<u8>) -> Option<T>,
)
    requires
        points_parsed(bytes, count, size, decode).is_none(),
        count <= more,
    ensures
        points_parsed(bytes, more, size, decode).is_none(),
    decreases more,
{
    if more > count {
        lemma_parsed_none(bytes, count, (more - 1) as nat, size, decode);
    }
}

/// Where every point is written in `size` bytes, the bytes of a sequence
/// are `size` times as many, and the `j`-th chunk is the `j`-th point.
pub proof fn lemma_points_bytes_chunk<T>(
    points: Seq<T>,
    encode: spec_fn(T) -> Seq<u8>,
    size: nat,
    j: int,
)
    requires
        forall|i: int| 0 <= i < points.len() ==> (#[trigger] encode(points[i])).len() == size,
        0 <= j < points.len(),
    ensures
        points_bytes(points, encode).len() == size * points.len(),
        points_bytes(points, encode).subrange(size * j, size * j + size) == encode(points[j]),
    decreases points.len(),
{
    let n = points.len();
    let front = points.drop_last();
    lemma_points_bytes_len(front, encode, size);
    assert(size * n == size * (n - 1) + size) by (nonlinear_arith);
    assert(encode(points[n - 1]).len() == size);
    if j == n - 1 {
        assert(points_bytes(points, encode).subrange(size * j, size * j + size) =~= encode(
            points[j],
        ));
    } else {
        lemma_points_bytes_chunk(front, encode, size, j);
        assert(size * j + size <= size * (n - 1)) by (nonlinear_arith)
            requires
                j + 1 <= n - 1,
                size >= 0,
        ;
        assert(front[j] == points[j]);
        assert(points_bytes(points, encode).subrange(size * j, size * j + size)
            =~= points_bytes(front, encode).subrange(size * j, size * j + size));
    }
}

/// Where every point is written in `size` bytes, the bytes of a sequence
/// are `size` times as many.
pub proof fn lemma_points_bytes_len<T>(points: Seq<T>, encode: spec_fn(T) -> Seq<u8>, size: nat)
    requires
        forall|i: int| 0 <= i < points.len() ==> (#[trigger] encode(points[i])).len() == size,
    ensures
        points_bytes(points, encode).len() == size * points.len(),
    decreases points.len(),
{
    let n = points.len();
    if n > 0 {
        let front = points.drop_last();
        assert forall|i: int| 0 <= i < front.len() implies (#[trigger] encode(front[i])).len()
            == size by {
            assert(front[i] == points[i]);
        }
        lemma_points_bytes_len(front, encode, size);
        assert(encode(points[n - 1]).len() == size);
        assert(size * n == size * (n - 1) + size) by (nonlinear_arith);
    } else {
        assert(size * 0 == 0) by (nonlinear_arith);
    }
}

/// What was written is read back: the bytes of a sequence of points,
/// followed by anything, hold the first `count` of them.
pub proof fn lemma_points_round_trip<T>(
    points: Seq<T>,
    rest: Seq<u8>,
    count: nat,
    size: nat,
    encode: spec_fn(T) -> Seq<u8>,
    decode: spec_fn(Seq<u8>) -> Option<T>,
)
    requires
        forall|i: int| 0 <= i < points.len() ==> (#[trigger] encode(points[i])).len() == size,
        forall|i: int| 0 <= i < points.len() ==> decode(#[trigger] encode(points[i])) == Some(points[i]),
        count <= points.len(),
    ensures
        points_parsed(points_bytes(points, encode) + rest, count, size, decode) == Some(
            points.take(count as int),
        ),
    decreases count,
{
    let bytes = points_bytes(points, encode) + rest;
    if count == 0 {
        assert(points.take(0) =~= Seq::<T>::empty());
    } else {
        lemma_points_round_trip(points, rest, (count - 1) as nat, size, encode, decode);
        let j = count - 1;
        lemma_points_bytes_chunk(points, encode, size, j);
        assert(size * count == size * j + size) by (nonlinear_arith)
            requires
                j == count - 1,
        ;
        assert(size * count <= size * points.len()) by (nonlinear_arith)
            requires
                count <= points.len(),
                size >= 0,
        ;
        assert(bytes.subrange(size * j, size * (count as int)) =~= points_bytes(points, encode).subrange(
            size * j,
            size * j + size,
        ));
        assert(points.take(j).push(points[j]) =~= points.take(count as int));
    }
}

/// The two point sequences that `bytes` hold in the unchecked format: two
/// little-endian 32-bit counts, then that many points of G1, then that many
/// points of G2. Bytes after the last point are ignored.
pub open spec fn srs_parsed(bytes: Seq<u8>) -> Option<(Seq<G1Point>, Seq<G2Point>)> {
    if bytes.len() < 8 {
        None
    } else {
        let len_1 = spec_u32_from_le_bytes(bytes.subrange(0, 4)) as nat;
        let len_2 = spec_u32_from_le_bytes(bytes.subrange(4, 8)) as nat;
        match points_parsed(bytes.skip(8), len_1, 64, g1_decoder()) {
            None => None,
            Some(group_1) => match points_parsed(
                bytes.skip(8 + 64 * (len_1 as int)),
                len_2,
                128,
                g2_decoder(),
            ) {
                None => None,
                Some(group_2) => Some((group_1, group_2)),
            },
        }
    }
}

/// The commitment after `count` blinding steps: step `i` adds
/// `blinds[i] * tau[i]` and subtracts `blinds[i] * tau[n + i]`.
pub open spec fn blinded(
    tau: Seq<G1Point>,
    commitment: G1Point,
    blinds: Seq<int>,
    n: int,
    count: nat,
) -> G1Point
    decreases count,
{
    if count == 0 {
        commitment
    } else {
        let i = count - 1;
        let before = blinded(tau, commitment, blinds, n, i as nat);
        g1_add(
            g1_add(before, g1_mul(tau[i], blinds[i])),
            g1_mul(tau[n + i], (-blinds[i]) % modulus()),
        )
    }
}

/// A structured reference string: the powers of a secret scalar in G1, and
/// the generator of G2 with its multiple by the same scalar.
#[derive(Debug, PartialEq, Eq)]
pub struct KZGCommitmentScheme {
    /// Public parameters in G1: the generator and its multiples by the
    /// powers of the secret.
    pub public_parameter_group_1: Vec<G1Point>,
    /// Public parameters in G2: the generator and its multiple by the secret.
    pub public_parameter_group_2: Vec<G2Point>,
}

impl Clone for KZGCommitmentScheme {
    fn clone(&self) -> (r: Self)
        ensures
            r.public_parameter_group_1@ == self.public_parameter_group_1@,
            r.public_parameter_group_2@ == self.public_parameter_group_2@,
    {
        let mut public_parameter_group_1: Vec<G1Point> = Vec::new();
        let n_1: usize = self.public_parameter_group_1.len();
        let mut i: usize = 0;
        while i < n_1
            invariant
                n_1 == self.public_parameter_group_1@.len(),
                i <= n_1,
                public_parameter_group_1@ == self.public_parameter_group_1@.take(i as int),
            decreases n_1 - i,
        {
            public_parameter_group_1.push(self.public_parameter_group_1[i]);
            i += 1;
            assert(public_parameter_group_1@ =~= self.public_parameter_group_1@.take(i as int));
        }
        let mut public_parameter_group_2: Vec<G2Point> = Vec::new();
        let n_2: usize = self.public_parameter_group_2.len();
        let mut k: usize = 0;
        while k < n_2
            invariant
                n_2 == self.public_parameter_group_2@.len(),
                k <= n_2,
                public_parameter_group_2@ == self.public_parameter_group_2@.take(k as int),
            decreases n_2 - k,
        {
            public_parameter_group_2.push(self.public_parameter_group_2[k]);
            k += 1;
            assert(public_parameter_group_2@ =~= self.public_parameter_group_2@.take(k as int));
        }
        assert(public_parameter_group_1@ =~= self.public_parameter_group_1@);
        assert(public_parameter_group_2@ =~= self.public_parameter_group_2@);
        KZGCommitmentScheme { public_parameter_group_1, public_parameter_group_2 }
    }
}

/// The scheme over the BN254 curve.
pub type KZGCommitmentSchemeBN254 = KZGCommitmentScheme;

impl KZGCommitmentScheme {
    /// Every stored point is well formed.
    pub open spec fn points_wf(&self) -> bool {
        all_g1_wf(self.public_parameter_group_1@) && all_g2_wf(self.public_parameter_group_2@)
    }

    /// The points are well formed, and there are enough of them to verify an
    /// opening: one in G1 and two in G2.
    pub open spec fn wf(&self) -> bool {
        &&& self.points_wf()
        &&& self.public_parameter_group_1@.len() >= 1
        &&& self.public_parameter_group_2@.len() >= 2
    }

    /// The string is made of the powers of the scalar with representative
    /// `s`: `tau_1[i] = s^i * G1` and `tau_2 = [G2, s * G2]`.
    pub open spec fn is_powers_of(&self, s: int) -> bool {
        let tau_1 = self.public_parameter_group_1@;
        let tau_2 = self.public_parameter_group_2@;
        &&& tau_1.len() >= 1
        &&& tau_1[0].is_generator()
        &&& forall|i: int| 0 <= i < tau_1.len() - 1 ==> #[trigger] tau_1[i + 1] == g1_mul(tau_1[i], s)
        &&& tau_2.len() == 2
        &&& tau_2[0].is_generator()
        &&& tau_2[1] == g2_mul(tau_2[0], s)
    }

    /// The commitment to the polynomial with the given coefficients: the
    /// multi-scalar product of the coefficients with as many leading points
    /// of G1.
    pub open spec fn commit_spec(&self, coefs: Seq<int>) -> G1Point {
        g1_msm(self.public_parameter_group_1@.subrange(0, coefs.len() as int), coefs)
    }

    /// Whether the pairing equation of an opening holds: with
    /// `V = tau_2[1] - point * tau_2[0]`, the pairing of
    /// `cm - eval * tau_1[0]` with `tau_2[0]` equals that of `proof` with `V`.
    /// For `eval = 0` the commitment itself is paired.
    pub open spec fn verify_spec(&self, cm: G1Point, point: int, eval: int, proof: G1Point) -> bool {
        let g1_0 = self.public_parameter_group_1@[0];
        let g2_0 = self.public_parameter_group_2@[0];
        let g2_1 = self.public_parameter_group_2@[1];
        let v = g2_sub(g2_1, g2_mul(g2_0, point));
        let left = if eval == 0 {
            pairing_value(cm, g2_0)
        } else {
            pairing_value(g1_sub(cm, g1_mul(g1_0, eval)), g2_0)
        };
        let right = pairing_value(proof, v);
        left.is_some() && left == right
    }

    /// The verifier-only string: the first point of G1 and the first two of G2.
    pub open spec fn shrink_spec(&self) -> (Seq<G1Point>, Seq<G2Point>) {
        (
            seq![self.public_parameter_group_1@[0]],
            seq![self.public_parameter_group_2@[0], self.public_parameter_group_2@[1]],
        )
    }

    /// The bytes of the unchecked format: both counts as little-endian
    /// 32-bit integers, then the uncompressed points of G1, then those of G2.
    pub open spec fn unchecked_bytes_spec(&self) -> Seq<u8> {
        spec_u32_to_le_bytes(self.public_parameter_group_1@.len() as u32) + spec_u32_to_le_bytes(
            self.public_parameter_group_2@.len() as u32,
        ) + points_bytes(self.public_parameter_group_1@, g1_encoder()) + points_bytes(
            self.public_parameter_group_2@,
            g2_encoder(),
        )
    }

    /// The reference string for polynomials up to `max_degree`, made from
    /// the secret scalar `s`. For tests only: whoever knows `s` can forge
    /// openings.
    pub fn new(max_degree: usize, s: &Scalar) -> (r: Self)
        requires
            s.wf(),
            max_degree < usize::MAX,
        ensures
            r.wf(),
            r.public_parameter_group_1@.len() == max_degree + 1,
            r.is_powers_of(s.value()),
    {
        let mut public_parameter_group_1: Vec<G1Point> = Vec::new();
        let mut elem_g1 = G1Point::generator();
        let mut i: usize = 0;
        while i <= max_degree
            invariant
                max_degree < usize::MAX,
                i <= max_degree + 1,
                s.wf(),
                elem_g1.wf(),
                public_parameter_group_1@.len() == i,
                all_g1_wf(public_parameter_group_1@),
                i == 0 ==> elem_g1.is_generator(),
                i > 0 ==> public_parameter_group_1@[0].is_generator() && elem_g1 == g1_mul(
                    public_parameter_group_1@[i - 1],
                    s.value(),
                ),
                forall|j: int|
                    0 <= j < i - 1 ==> #[trigger] public_parameter_group_1@[j + 1] == g1_mul(
                        public_parameter_group_1@[j],
                        s.value(),
                    ),
            decreases max_degree + 1 - i,
        {
            public_parameter_group_1.push(elem_g1);
            elem_g1 = elem_g1.mul(s);
            i += 1;
        }
        let mut public_parameter_group_2: Vec<G2Point> = Vec::new();
        let elem_g2 = G2Point::generator();
        public_parameter_group_2.push(elem_g2);
        public_parameter_group_2.push(elem_g2.mul(s));
        KZGCommitmentScheme { public_parameter_group_1, public_parameter_group_2 }
    }

    /// Writes the string in the unchecked format. The bytes read back to
    /// the same string as long as both counts fit in 32 bits.
    pub fn to_unchecked_bytes(&self) -> (res: Result<Vec<u8>, KZGError>)
        requires
            self.points_wf(),
        ensures
            res matches Ok(bytes) && bytes@ == self.unchecked_bytes_spec() && (
            self.public_parameter_group_1@.len() <= u32::MAX
                && self.public_parameter_group_2@.len() <= u32::MAX ==> srs_parsed(bytes@) == Some(
                (self.public_parameter_group_1@, self.public_parameter_group_2@),
            )),
    {
        let n_1: usize = self.public_parameter_group_1.len();
        let n_2: usize = self.public_parameter_group_2.len();
        let len_1 = #[verifier::truncate]
        (n_1 as u32);
        let len_2 = #[verifier::truncate]
        (n_2 as u32);
        let mut bytes: Vec<u8> = u32_to_le_bytes(len_1);
        let mut second = u32_to_le_bytes(len_2);
        bytes.append(&mut second);
        let ghost header = bytes@;
        let ghost tau_1 = self.public_parameter_group_1@;
        let ghost tau_2 = self.public_parameter_group_2@;
        let mut i: usize = 0;
        while i < n_1
            invariant
                n_1 == self.public_parameter_group_1@.len(),
                tau_1 == self.public_parameter_group_1@,
                i <= n_1,
                all_g1_wf(tau_1),
                bytes@ == header + points_bytes(tau_1.take(i as int), g1_encoder()),
                forall|j: int|
                    0 <= j < i ==> (#[trigger] g1_encoder()(tau_1[j])).len() == 64 && g1_decoder()(
                        g1_encoder()(tau_1[j]),
                    ) == Some(tau_1[j]),
            decreases n_1 - i,
        {
            assert(tau_1[i as int].wf());
            let mut buf = g1_point_uncompressed(&self.public_parameter_group_1[i]);
            bytes.append(&mut buf);
            proof {
                assert(tau_1.take(i + 1).drop_last() =~= tau_1.take(i as int));
                assert(bytes@ =~= header + points_bytes(tau_1.take(i + 1), g1_encoder()));
            }
            i += 1;
        }
        let ghost first = bytes@;
        let mut k: usize = 0;
        while k < n_2
            invariant
                n_2 == self.public_parameter_group_2@.len(),
                tau_2 == self.public_parameter_group_2@,
                k <= n_2,
                all_g2_wf(tau_2),
                bytes@ == first + points_bytes(tau_2.take(k as int), g2_encoder()),
                forall|j: int|
                    0 <= j < k ==> (#[trigger] g2_encoder()(tau_2[j])).len() == 128 && g2_decoder()(
                        g2_encoder()(tau_2[j]),
                    ) == Some(tau_2[j]),
            decreases n_2 - k,
        {
            assert(tau_2[k as int].wf());
            let mut buf = g2_point_uncompressed(&self.public_parameter_group_2[k]);
            bytes.append(&mut buf);
            proof {
                assert(tau_2.take(k + 1).drop_last() =~= tau_2.take(k as int));
                assert(bytes@ =~= first + points_bytes(tau_2.take(k + 1), g2_encoder()));
            }
            k += 1;
        }
        proof {
            assert(tau_1.take(n_1 as int) =~= tau_1);
            assert(tau_2.take(n_2 as int) =~= tau_2);
            let b_1 = points_bytes(tau_1, g1_encoder());
            let b_2 = points_bytes(tau_2, g2_encoder());
            assert(bytes@ == header + b_1 + b_2);
            if n_1 <= u32::MAX && n_2 <= u32::MAX {
                lemma_auto_spec_u32_to_from_le_bytes();
                assert(bytes@.subrange(0, 4) =~= spec_u32_to_le_bytes(len_1));
                assert(bytes@.subrange(4, 8) =~= spec_u32_to_le_bytes(len_2));
                lemma_points_bytes_len(tau_1, g1_encoder(), 64);
                assert(bytes@.skip(8) =~= b_1 + b_2);
                lemma_points_round_trip(tau_1, b_2, n_1 as nat, 64, g1_encoder(), g1_decoder());
                assert(bytes@.skip(8 + 64 * (n_1 as int)) =~= b_2 + Seq::<u8>::empty());
                lemma_points_round_trip(
                    tau_2,
                    Seq::<u8>::empty(),
                    n_2 as nat,
                    128,
                    g2_encoder(),
                    g2_decoder(),
                );
            }
        }
        Ok(bytes)
    }

    /// Reads a string in the unchecked format, without checking that the
    /// points lie on the curve. Fails exactly when there are fewer than
    /// eight bytes, or the bytes run out before the announced number of
    /// points, or one of the points does not decode.
    pub fn from_unchecked_bytes(bytes: &[u8]) -> (res: Result<Self, KZGError>)
        ensures
            res.is_ok() <==> srs_parsed(bytes@).is_some(),
            res matches Ok(s) ==> s.points_wf() && srs_parsed(bytes@) == Some(
                (s.public_parameter_group_1@, s.public_parameter_group_2@),
            ),
            res matches Err(e) ==> e == KZGError::DeserializationError,
    {
        let total: usize = bytes.len();
        if total < 8 {
            return Err(KZGError::DeserializationError);
        }
        let len_1 = u32_from_le_bytes(slice_subrange(bytes, 0, 4)) as usize;
        let len_2 = u32_from_le_bytes(slice_subrange(bytes, 4, 8)) as usize;
        let n_1: usize = G1_UNCOMPRESSED_SIZE;
        let n_2: usize = G2_UNCOMPRESSED_SIZE;
        let bytes_1 = slice_subrange(bytes, 8, total);
        assert(bytes_1@ =~= bytes@.skip(8));
        let mut group_1: Vec<G1Point> = Vec::new();
        let mut offset: usize = 0;
        let mut i: usize = 0;
        while i < len_1
            invariant
                n_1 == 64,
                i <= len_1,
                offset == 64 * i,
                offset <= bytes_1@.len(),
                bytes_1@.len() == total - 8,
                bytes@.len() >= 8,
                bytes_1@ == bytes@.skip(8),
                len_1 == spec_u32_from_le_bytes(bytes@.subrange(0, 4)),
                all_g1_wf(group_1@),
                points_parsed(bytes_1@, i as nat, 64, g1_decoder()) == Some(group_1@),
            decreases len_1 - i,
        {
            if bytes_1.len() - offset < n_1 {
                proof {
                    lemma_parsed_none(bytes_1@, (i + 1) as nat, len_1 as nat, 64, g1_decoder());
                }
                return Err(KZGError::DeserializationError);
            }
            let reader = slice_subrange(bytes_1, offset, offset + n_1);
            match g1_point_decode(reader) {
                Some(g1) => {
                    group_1.push(g1);
                },
                None => {
                    proof {
                        lemma_parsed_none(bytes_1@, (i + 1) as nat, len_1 as nat, 64, g1_decoder());
                    }
                    return Err(KZGError::DeserializationError);
                },
            }
            offset += n_1;
            i += 1;
        }
        let bytes_2 = slice_subrange(bytes_1, offset, bytes_1.len());
        assert(bytes_2@ =~= bytes@.skip(8 + 64 * (len_1 as int)));
        let mut group_2: Vec<G2Point> = Vec::new();
        let mut offset_2: usize = 0;
        let mut k: usize = 0;
        while k < len_2
            invariant
                n_2 == 128,
                k <= len_2,
                offset_2 == 128 * k,
                offset_2 <= bytes_2@.len(),
                bytes_2@.len() <= total,
                bytes@.len() >= 8,
                len_1 == spec_u32_from_le_bytes(bytes@.subrange(0, 4)),
                len_2 == spec_u32_from_le_bytes(bytes@.subrange(4, 8)),
                points_parsed(bytes@.skip(8), len_1 as nat, 64, g1_decoder()) == Some(group_1@),
                bytes_2@ == bytes@.skip(8 + 64 * (len_1 as int)),
                all_g2_wf(group_2@),
                points_parsed(bytes_2@, k as nat, 128, g2_decoder()) == Some(group_2@),
            decreases len_2 - k,
        {
            if bytes_2.len() - offset_2 < n_2 {
                proof {
                    lemma_parsed_none(bytes_2@, (k + 1) as nat, len_2 as nat, 128, g2_decoder());
                }
                return Err(KZGError::DeserializationError);
            }
            let reader = slice_subrange(bytes_2, offset_2, offset_2 + n_2);
            match g2_point_decode(reader) {
                Some(g2) => {
                    group_2.push(g2);
                },
                None => {
                    proof {
                        lemma_parsed_none(bytes_2@, (k + 1) as nat, len_2 as nat, 128, g2_decoder());
                    }
                    return Err(KZGError::DeserializationError);
                },
            }
            offset_2 += n_2;
            k += 1;
        }
        Ok(KZGCommitmentScheme { public_parameter_group_1: group_1, public_parameter_group_2: group_2 })
    }

    /// The largest degree that can be committed to.
    pub fn max_degree(&self) -> (d: usize)
        requires
            self.public_parameter_group_1@.len() >= 1,
        ensures
            d == self.public_parameter_group_1@.len() - 1,
    {
        self.public_parameter_group_1.len() - 1
    }

    /// Commits to a polynomial. Fails with a degree error exactly when the
    /// polynomial has more coefficients than the string has points of G1.
    pub fn commit(&self, polynomial: &FpPolynomial) -> (res: Result<KZGCommitment, KZGError>)
        requires
            self.points_wf(),
            polynomial.wf(),
        ensures
            res.is_ok() <==> polynomial@.len() <= self.public_parameter_group_1@.len(),
            res matches Ok(c) ==> c.wf() && c.0 == self.commit_spec(polynomial@),
            res matches Err(e) ==> e == KZGError::DegreeError,
    {
        let coefs = polynomial.get_coefs_ref();
        let count: usize = coefs.len();
        assert(polynomial@.len() == count);
        if count > self.public_parameter_group_1.len() {
            return Err(KZGError::DegreeError);
        }
        let points = slice_subrange(self.public_parameter_group_1.as_slice(), 0, count);
        let commitment_value = g1_points_msm(points, coefs);
        Ok(KZGCommitment(commitment_value))
    }

    /// The value of a polynomial at a point.
    pub fn eval(&self, poly: &FpPolynomial, point: &Scalar) -> (r: Scalar)
        requires
            poly.wf(),
            point.wf(),
        ensures
            r.wf(),
            r.value() == eval(poly@, point.value()),
    {
        poly.eval(point)
    }

    /// Folds blinding factors into a commitment: for each `i`, adds
    /// `blinds[i] * tau_1[i]` and subtracts `blinds[i] * tau_1[zeroing_degree + i]`.
    /// The string must reach position `zeroing_degree + blinds.len() - 1`.
    pub fn apply_blind_factors(
        &self,
        commitment: &KZGCommitment,
        blinds: &[Scalar],
        zeroing_degree: usize,
    ) -> (r: KZGCommitment)
        requires
            self.points_wf(),
            commitment.wf(),
            all_wf(blinds@),
            blinds@.len() > 0 ==> zeroing_degree + blinds@.len() <= self.public_parameter_group_1@.len(),
        ensures
            r.wf(),
            r.0 == blinded(
                self.public_parameter_group_1@,
                commitment.0,
                values(blinds@),
                zeroing_degree as int,
                blinds@.len(),
            ),
    {
        let mut result = commitment.0;
        let m: usize = blinds.len();
        let size: usize = self.public_parameter_group_1.len();
        let mut i: usize = 0;
        while i < m
            invariant
                m == blinds@.len(),
                size == self.public_parameter_group_1@.len(),
                i <= m,
                self.points_wf(),
                all_wf(blinds@),
                m > 0 ==> zeroing_degree + m <= self.public_parameter_group_1@.len(),
                result.wf(),
                result == blinded(
                    self.public_parameter_group_1@,
                    commitment.0,
                    values(blinds@),
                    zeroing_degree as int,
                    i as nat,
                ),
            decreases m - i,
        {
            let blind = blinds[i];
            assert(blinds@[i as int].wf());
            assert(values(blinds@)[i as int] == blind.value());
            let low = self.public_parameter_group_1[i];
            let position: usize = zeroing_degree + i;
            let high = self.public_parameter_group_1[position];
            assert(self.public_parameter_group_1@[i as int].wf());
            assert(self.public_parameter_group_1@[zeroing_degree + i].wf());
            result = result.add(&low.mul(&blind));
            let minus = blind.neg();
            result = result.add(&high.mul(&minus));
            i += 1;
        }
        KZGCommitment(result)
    }

    /// The quotient of `poly - poly(x)` by `X - x`, in canonical form: the
    /// polynomial that an opening at `x` commits to.
    pub open spec fn opening_quotient(poly: Seq<int>, x: int) -> Seq<int> {
        normalize(linear_quotient(poly, x))
    }

    /// Opens a polynomial at `x`: the commitment to the quotient of
    /// `poly - poly(x)` by `X - x`.
    ///
    /// Fails with a degree error exactly when the degree exceeds
    /// `max_degree` or the quotient is too large for the string. The
    /// division is always exact, so no other error occurs.
    pub fn prove(&self, poly: &FpPolynomial, x: &Scalar, max_degree: usize) -> (res: Result<
        KZGCommitment,
        KZGError,
    >)
        requires
            self.points_wf(),
            poly.wf(),
            x.wf(),
        ensures
            res.is_ok() <==> poly@.len() - 1 <= max_degree && Self::opening_quotient(
                poly@,
                x.value(),
            ).len() <= self.public_parameter_group_1@.len(),
            res matches Ok(c) ==> c.wf() && c.0 == self.commit_spec(
                Self::opening_quotient(poly@, x.value()),
            ),
            res matches Err(e) ==> e == KZGError::DegreeError,
    {
        let eval = poly.eval(x);
        if poly.degree() > max_degree {
            return Err(KZGError::DegreeError);
        }
        let constant = FpPolynomial::from_coefs(vec![eval]);
        let nominator = poly.sub(&constant);
        let point_neg = x.neg();
        let one = Scalar::one();
        let vanishing_poly = FpPolynomial::from_coefs(vec![point_neg, one]);
        proof {
            eval.lemma_value_range();
            assert(values(seq![eval]) =~= seq![eval.value()]);
            lemma_trim_fixed(seq![eval.value()]);
            assert(constant@ == seq![eval.value()]);
            assert(values(seq![point_neg, one]) =~= linear_factor(x.value())) by {
                assert(values(seq![point_neg, one])[1] == one.value());
            }
            lemma_trim_fixed(linear_factor(x.value()));
            assert(vanishing_poly@ == linear_factor(x.value()));
            assert(vanishing_poly@[1] == 1);
        }
        let (q_poly, r_poly) = nominator.div_rem(&vanishing_poly);
        proof {
            lemma_values_reduced(poly.coefs@);
            lemma_values_reduced(q_poly.coefs@);
            lemma_values_reduced(r_poly.coefs@);
            lemma_normalize(sub_seq(poly@, constant@));
            lemma_linear_division(poly@, x.value(), q_poly@, r_poly@);
        }
        if !r_poly.is_zero() {
            return Err(KZGError::PCSProveEvalError);
        }
        self.commit(&q_poly)
    }

    /// Checks an opening: accepts exactly when the pairing equation holds.
    /// The degree is taken for uniformity with other schemes and is not
    /// consulted.
    pub fn verify(
        &self,
        cm: &KZGCommitment,
        _degree: usize,
        point: &Scalar,
        eval: &Scalar,
        proof: &KZGCommitment,
    ) -> (res: Result<(), KZGError>)
        requires
            self.wf(),
            cm.wf(),
            proof.wf(),
            point.wf(),
            eval.wf(),
        ensures
            res.is_ok() <==> self.verify_spec(cm.0, point.value(), eval.value(), proof.0),
            res matches Err(e) ==> e == KZGError::PCSProveEvalError,
    {
        let g1_0 = self.public_parameter_group_1[0];
        let g2_0 = self.public_parameter_group_2[0];
        let g2_1 = self.public_parameter_group_2[1];
        assert(self.public_parameter_group_1@[0].wf());
        assert(self.public_parameter_group_2@[0].wf());
        assert(self.public_parameter_group_2@[1].wf());
        let x_minus_point_group_element_group_2 = g2_1.sub(&g2_0.mul(point));
        let left_pairing_eval = if eval.is_zero() {
            pairing(&cm.0, &g2_0)
        } else {
            pairing(&cm.0.sub(&g1_0.mul(eval)), &g2_0)
        };
        let right_pairing_eval = pairing(&proof.0, &x_minus_point_group_element_group_2);
        match (left_pairing_eval, right_pairing_eval) {
            (Some(left), Some(right)) => {
                if limbs_equal(&left, &right) {
                    Ok(())
                } else {
                    Err(KZGError::PCSProveEvalError)
                }
            },
            _ => Err(KZGError::PCSProveEvalError),
        }
    }

    /// The string reduced to what a verifier needs: the first point of G1
    /// and the first two of G2.
    pub fn shrink_to_verifier_only(&self) -> (res: Result<Self, KZGError>)
        requires
            self.wf(),
        ensures
            res matches Ok(s) && s.wf() && (
                s.public_parameter_group_1@,
                s.public_parameter_group_2@,
            ) == self.shrink_spec(),
    {
        let mut public_parameter_group_1: Vec<G1Point> = Vec::new();
        public_parameter_group_1.push(self.public_parameter_group_1[0]);
        let mut public_parameter_group_2: Vec<G2Point> = Vec::new();
        public_parameter_group_2.push(self.public_parameter_group_2[0]);
        public_parameter_group_2.push(self.public_parameter_group_2[1]);
        proof {
            assert(self.public_parameter_group_1@[0].wf());
            assert(self.public_parameter_group_2@[0].wf());
            assert(self.public_parameter_group_2@[1].wf());
            assert(public_parameter_group_1@ =~= self.shrink_spec().0);
            assert(public_parameter_group_2@ =~= self.shrink_spec().1);
        }
        Ok(KZGCommitmentScheme { public_parameter_group_1, public_parameter_group_2 })
    }
}

/// A verifier needs no more than the verifier-only string: on the same
/// commitment, point, value and proof, the pairing equation holds for the
/// reduced string exactly when it holds for the full one.
pub proof fn lemma_verifier_only_suffices(
    full: KZGCommitmentScheme,
    reduced: KZGCommitmentScheme,
    cm: G1Point,
    point: int,
    eval: int,
    proof: G1Point,
)
    requires
        full.wf(),
        (reduced.public_parameter_group_1@, reduced.public_parameter_group_2@)
            == full.shrink_spec(),
    ensures
        reduced.wf(),
        reduced.verify_spec(cm, point, eval, proof) == full.verify_spec(cm, point, eval, proof),
{
    assert(full.public_parameter_group_1@[0].wf());
    assert(full.public_parameter_group_2@[0].wf());
    assert(full.public_parameter_group_2@[1].wf());
}

/// The quotient that an opening commits to has fewer coefficients than the
/// polynomial, or is a single coefficient. So whenever a polynomial can be
/// committed to under a string, it can be opened under it at every point.
pub proof fn lemma_opening_quotient_fits(poly: Seq<int>, x: int)
    requires
        poly.len() >= 1,
    ensures
        KZGCommitmentScheme::opening_quotient(poly, x).len() >= 1,
        KZGCommitmentScheme::opening_quotient(poly, x).len() < poly.len()
            || KZGCommitmentScheme::opening_quotient(poly, x).len() == 1,
{
    lemma_normalize(linear_quotient(poly, x));
}

/// Whether two limb vectors hold the same limbs.
fn limbs_equal(a: &Vec<u64>, b: &Vec<u64>) -> (r: bool)
    ensures
        r == (a@ == b@),
{
    if a.len() != b.len() {
        return false;
    }
    let n: usize = a.len();
    let mut i: usize = 0;
    while i < n
        invariant
            n == a.len(),
            n == b.len(),
            i <= n,
            forall|j: int| 0 <= j < i ==> a@[j] == b@[j],
        decreases n - i,
    {
        if a[i] != b[i] {
            return false;
        }
        i += 1;
    }
    assert(a@ =~= b@);
    true
}

} // verus!
