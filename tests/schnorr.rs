use ark_bls12_381::{Fr, G1Affine, G1Projective};
use ark_ec::{CurveGroup, VariableBaseMSM};
use ark_ff::{BigInt, PrimeField, UniformRand};
use ark_serialize::{CanonicalDeserialize, CanonicalSerialize};
use ark_std::rand::rngs::StdRng;
use ark_std::rand::SeedableRng;
use blake2::{Blake2b512, Digest};
use threshold_bbs_plus::field::Scalar;
use threshold_bbs_plus::group::Point;
use threshold_bbs_plus::schnorr::{
    compute_random_oracle_challenge, SchnorrChallengeContributor, SchnorrCommitment, SchnorrError,
};

fn sc(f: &Fr) -> Scalar {
    Scalar::from_limbs(f.into_bigint().0).unwrap()
}

fn fr(s: &Scalar) -> Fr {
    Fr::from_bigint(BigInt::new(s.to_limbs())).unwrap()
}

fn pt(p: &G1Affine) -> Point {
    let mut b = Vec::new();
    p.serialize_compressed(&mut b).unwrap();
    Point::from_bytes(&b).unwrap()
}

fn g1(p: &Point) -> G1Affine {
    G1Affine::deserialize_compressed(&p.to_bytes()[..]).unwrap()
}

#[test]
fn schnorr_vector() {
    let mut rng = StdRng::seed_from_u64(0u64);
    let count = 10;
    let bases: Vec<G1Affine> = (0..count).map(|_| G1Projective::rand(&mut rng).into_affine()).collect();
    let witnesses: Vec<Fr> = (0..count).map(|_| Fr::rand(&mut rng)).collect();
    let y = G1Projective::msm(&bases, &witnesses).unwrap().into_affine();
    let blindings: Vec<Fr> = (0..count).map(|_| Fr::rand(&mut rng)).collect();

    let point_bases: Vec<Point> = bases.iter().map(pt).collect();
    let comm = SchnorrCommitment::new(&point_bases, blindings.iter().map(sc).collect());
    assert_eq!(g1(&comm.t), G1Projective::msm(&bases, &blindings).unwrap().into_affine());

    let challenge = Fr::rand(&mut rng);
    let resp = comm
        .response(&witnesses.iter().map(sc).collect(), &sc(&challenge))
        .unwrap();
    assert_eq!(resp.len(), count);
    for i in 0..count {
        assert_eq!(fr(resp.get_response(i).unwrap()), blindings[i] + witnesses[i] * challenge);
    }
    resp.is_valid(&point_bases, &pt(&y), &comm.t, &sc(&challenge)).unwrap();

    let other = sc(&(challenge + Fr::from(1u64)));
    assert!(matches!(
        resp.is_valid(&point_bases, &pt(&y), &comm.t, &other),
        Err(SchnorrError::InvalidResponse)
    ));
    assert!(matches!(
        resp.is_valid(&point_bases[..9].to_vec(), &pt(&y), &comm.t, &sc(&challenge)),
        Err(SchnorrError::ExpectedSameSizeSequences(10, 9))
    ));
    assert!(matches!(resp.get_response(10), Err(SchnorrError::IndexOutOfBounds(10, 10))));
    assert!(matches!(
        comm.response(&witnesses[..3].iter().map(sc).collect(), &sc(&challenge)),
        Err(SchnorrError::ExpectedSameSizeSequences(10, 3))
    ));
}

#[test]
fn schnorr_single() {
    let mut rng = StdRng::seed_from_u64(0u64);
    let base = G1Projective::rand(&mut rng).into_affine();
    let witness = Fr::rand(&mut rng);
    let y = (base * witness).into_affine();
    let blinding = Fr::rand(&mut rng);
    let protocol = SchnorrCommitment::new(&vec![pt(&base)], vec![sc(&blinding)]);
    let mut chal_contrib_prover = vec![];
    protocol.challenge_contribution(&mut chal_contrib_prover).unwrap();
    assert_eq!(chal_contrib_prover, protocol.t.to_bytes());

    let challenge = Fr::rand(&mut rng);
    let proof = protocol.response(&vec![sc(&witness)], &sc(&challenge)).unwrap();
    assert!(proof.is_valid(&vec![pt(&base)], &pt(&y), &protocol.t, &sc(&challenge)).is_ok());
    let wrong = Fr::rand(&mut rng);
    assert!(proof.is_valid(&vec![pt(&base)], &pt(&y), &protocol.t, &sc(&wrong)).is_err());
}

#[test]
fn commitment_ignores_extra_bases() {
    let mut rng = StdRng::seed_from_u64(21u64);
    let bases: Vec<G1Affine> = (0..3).map(|_| G1Projective::rand(&mut rng).into_affine()).collect();
    let blindings: Vec<Fr> = (0..2).map(|_| Fr::rand(&mut rng)).collect();
    let comm = SchnorrCommitment::new(&bases.iter().map(pt).collect(), blindings.iter().map(sc).collect());
    assert_eq!(g1(&comm.t), G1Projective::msm(&bases[..2], &blindings).unwrap().into_affine());
}

#[test]
fn random_oracle_challenge_reduces_digest() {
    let bytes = b"challenge bytes".to_vec();
    let digest = Blake2b512::digest(&bytes);
    let expected = Fr::from_le_bytes_mod_order(&digest);
    assert_eq!(fr(&compute_random_oracle_challenge(&bytes)), expected);
    assert_ne!(fr(&compute_random_oracle_challenge(&b"other".to_vec())), expected);
}
