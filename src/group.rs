//! Points of the group G1 of BLS12-381, held as their compressed encoding.
//! The group law is `ark_ec`'s; its results are named by spec functions.

use crate::field::{modulus, Scalar};
use ark_bls12_381::{Fr, G1Affine, G1Projective};
use ark_ff::{BigInt, PrimeField};
use ark_ec::{AffineRepr, CurveGroup, VariableBaseMSM};
use ark_serialize::{CanonicalDeserialize, CanonicalSerialize};
use vstd::prelude::*;

verus! {

/// Whether `deserialize_compressed` reads a point of G1 from the bytes.
pub uninterp spec fn g1_valid(b: Seq<u8>) -> bool;

/// The encoding of the sum of the points encoded by `a` and `b`.
pub uninterp spec fn g1_sum(a: Seq<u8>, b: Seq<u8>) -> Seq<u8>;

/// The encoding of the point encoded by `p` multiplied by the scalar `k`.
pub uninterp spec fn g1_scaled(p: Seq<u8>, k: nat) -> Seq<u8>;

/// The encoding of `sum_i k[i] * p[i]`.
pub uninterp spec fn g1_multi_scaled(p: Seq<Seq<u8>>, k: Seq<nat>) -> Seq<u8>;

/// The length of a compressed encoding of a point of G1.
pub const COMPRESSED_SIZE: usize = 48;

/// A point of G1. The bytes are always a compressed encoding of exactly
/// `COMPRESSED_SIZE` bytes: a point is built only from such bytes that
/// decode, or by the group operations.
pub struct Point {
    bytes: Vec<u8>,
}

impl View for Point {
    type V = Seq<u8>;

    closed spec fn view(&self) -> Seq<u8> {
        self.bytes@
    }
}

impl Point {
    /// The point that `bytes` encode, if they are a compressed encoding of
    /// one and nothing more.
    pub fn from_bytes(bytes: &Vec<u8>) -> (r: Option<Point>)
        ensures
            r.is_some() <==> bytes.len() == COMPRESSED_SIZE && g1_valid(bytes@),
            r.is_some() ==> r.unwrap()@ == bytes@,
    {
        if bytes.len() != COMPRESSED_SIZE {
            return None;
        }
        g1_decode(bytes)
    }

    /// The compressed encoding of this point.
    pub fn to_bytes(&self) -> (r: Vec<u8>)
        ensures
            r@ == self@,
    {
        self.bytes.clone()
    }
}

impl Clone for Point {
    fn clone(&self) -> (r: Point)
        ensures
            r@ == self@,
    {
        Point { bytes: self.bytes.clone() }
    }
}

/// Relies on `CanonicalDeserialize::deserialize_compressed` for `G1Affine`:
/// it accepts exactly the valid compressed encodings.
#[verifier::external_body]
fn g1_decode(bytes: &Vec<u8>) -> (r: Option<Point>)
    ensures
        r.is_some() <==> g1_valid(bytes@),
        r.is_some() ==> r.unwrap()@ == bytes@,
{
    match G1Affine::deserialize_compressed(&bytes[..]) {
        Ok(_) => Some(Point { bytes: bytes.clone() }),
        Err(_) => None,
    }
}

/// Relies on `Add` of two `G1Affine` points: the group law.
#[verifier::external_body]
pub(crate) fn add(a: &Point, b: &Point) -> (r: Point)
    ensures
        r@ == g1_sum(a@, b@),
{
    let x = G1Affine::deserialize_compressed(&a.bytes[..]).unwrap();
    let y = G1Affine::deserialize_compressed(&b.bytes[..]).unwrap();
    let mut bytes = Vec::new();
    (x + y).into_affine().serialize_compressed(&mut bytes).unwrap();
    Point { bytes }
}

/// Relies on `AffineRepr::mul_bigint` for `G1Affine`: scalar multiplication.
#[verifier::external_body]
pub(crate) fn scale(p: &Point, k: &Scalar) -> (r: Point)
    ensures
        r@ == g1_scaled(p@, k.val()),
{
    let x = G1Affine::deserialize_compressed(&p.bytes[..]).unwrap();
    let mut bytes = Vec::new();
    x.mul_bigint(k.limbs).into_affine().serialize_compressed(&mut bytes).unwrap();
    Point { bytes }
}

/// The values of a sequence of scalars.
pub open spec fn vals(k: Seq<Scalar>) -> Seq<nat> {
    k.map_values(|x: Scalar| x.val())
}

/// The encodings of a sequence of points.
pub open spec fn encodings(p: Seq<Point>) -> Seq<Seq<u8>> {
    p.map_values(|x: Point| x@)
}

/// Relies on `VariableBaseMSM::msm` for `G1Projective`: a multi-scalar
/// multiplication, which fails only when the lengths differ.
#[verifier::external_body]
pub(crate) fn multi_scale(p: &Vec<Point>, k: &Vec<Scalar>) -> (r: Point)
    requires
        p.len() == k.len(),
    ensures
        r@ == g1_multi_scaled(encodings(p@), vals(k@)),
{
    let bases: Vec<G1Affine> =
        p.iter().map(|x| G1Affine::deserialize_compressed(&x.bytes[..]).unwrap()).collect();
    let scalars: Vec<Fr> = k.iter().map(|x| Fr::from_bigint(BigInt::new(x.limbs)).unwrap()).collect();
    let mut bytes = Vec::new();
    G1Projective::msm(&bases, &scalars).unwrap().into_affine().serialize_compressed(&mut bytes).unwrap();
    Point { bytes }
}

} // verus!
