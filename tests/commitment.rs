use ark_bls12_381::{Fr, G1Affine, G1Projective};
use ark_ec::CurveGroup;
use ark_ff::{BigInt, Field, PrimeField, UniformRand};
use ark_serialize::{CanonicalDeserialize, CanonicalSerialize};
use ark_std::rand::rngs::StdRng;
use ark_std::rand::SeedableRng;
use threshold_bbs_plus::commitment::{chunks_count, decompose, ChunkedCommitment};
use threshold_bbs_plus::field::Scalar;
use threshold_bbs_plus::group::Point;

fn sc(f: &Fr) -> Scalar {
    Scalar::from_limbs(f.into_bigint().0).unwrap()
}

fn pt(p: &G1Affine) -> Point {
    let mut b = Vec::new();
    p.serialize_compressed(&mut b).unwrap();
    Point::from_bytes(&b).unwrap()
}

fn g1(p: &Point) -> G1Affine {
    G1Affine::deserialize_compressed(&p.to_bytes()[..]).unwrap()
}

#[test]
fn commitment_key_creation() {
    let mut rng = StdRng::seed_from_u64(0u64);
    let g = G1Projective::rand(&mut rng).into_affine();
    let chunk_bit_size = 8u8;
    let chunks = chunks_count(chunk_bit_size) as usize;
    assert_eq!(chunks, 32);
    let gs_1 = ChunkedCommitment::commitment_key(&pt(&g), chunk_bit_size, 1 << chunk_bit_size);
    assert_eq!(gs_1.len(), chunks);
    let radix = Fr::from(256u64);
    for (i, p) in gs_1.iter().enumerate() {
        let expected = (g * radix.pow([(chunks - 1 - i) as u64])).into_affine();
        assert_eq!(g1(p), expected);
    }
    // a radix that is not a power of two
    let gs_2 = ChunkedCommitment::commitment_key(&pt(&g), 4, 10);
    assert_eq!(gs_2.len(), 64);
    assert_eq!(g1(&gs_2[63]), g);
    assert_eq!(g1(&gs_2[62]), (g * Fr::from(10u64)).into_affine());
    assert_eq!(g1(&gs_2[0]), (g * Fr::from(10u64).pow([63u64])).into_affine());
}

#[test]
fn chunked_commitment_opens_to_message() {
    let mut rng = StdRng::seed_from_u64(1u64);
    let g = G1Projective::rand(&mut rng).into_affine();
    let h = G1Projective::rand(&mut rng).into_affine();
    let message = Fr::rand(&mut rng);
    let blinding = Fr::rand(&mut rng);
    for chunk_bit_size in [4u8, 8u8] {
        let comm = ChunkedCommitment::new(&sc(&message), &sc(&blinding), chunk_bit_size, &pt(&g), &pt(&h));
        assert_eq!(g1(&comm.0), (g * message + h * blinding).into_affine());
    }
}

#[test]
fn decompose_gives_big_endian_digits() {
    let x = Scalar::from_u64(0x1234);
    let bytes = decompose(&x, 8);
    assert_eq!(bytes.len(), 32);
    assert_eq!(&bytes[30..], &[0x12, 0x34]);
    assert!(bytes[..30].iter().all(|b| *b == 0));
    let nibbles = decompose(&x, 4);
    assert_eq!(nibbles.len(), 64);
    assert_eq!(&nibbles[60..], &[1, 2, 3, 4]);
}
