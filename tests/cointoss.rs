use ark_bls12_381::Fr;
use ark_ff::{BigInt, PrimeField, UniformRand};
use ark_std::rand::rngs::StdRng;
use ark_std::rand::SeedableRng;
use threshold_bbs_plus::cointoss::Party;
use threshold_bbs_plus::error::BBSPlusError;
use threshold_bbs_plus::field::Scalar;

fn sc(f: &Fr) -> Scalar {
    Scalar::from_limbs(f.into_bigint().0).unwrap()
}

fn fr(s: &Scalar) -> Fr {
    Fr::from_bigint(BigInt::new(s.to_limbs())).unwrap()
}

fn values(rng: &mut StdRng, n: usize) -> Vec<Scalar> {
    (0..n).map(|_| sc(&Fr::rand(rng))).collect()
}

fn two_parties(rng: &mut StdRng) -> (Party, Party, Vec<u8>, Vec<u8>, Vec<Scalar>, Vec<Scalar>) {
    let values_first = values(rng, 3);
    let values_second = values(rng, 3);
    let (first, comm_first) = Party::commit(values_first.clone(), vec![1u8; 16], 1, vec![2], b"pid".to_vec());
    let (second, comm_second) = Party::commit(values_second.clone(), vec![2u8; 16], 2, vec![1], b"pid".to_vec());
    (first, second, comm_first, comm_second, values_first, values_second)
}

#[test]
fn coin_toss_agreement_two_parties() {
    let mut rng = StdRng::seed_from_u64(11u64);
    let (mut first, mut second, comm_first, comm_second, values_first, values_second) = two_parties(&mut rng);
    first.receive_commitment(2, comm_second).unwrap();
    second.receive_commitment(1, comm_first).unwrap();
    first.receive_shares(2, values_second.clone(), vec![2u8; 16]).unwrap();
    second.receive_shares(1, values_first.clone(), vec![1u8; 16]).unwrap();
    let joint_first = first.finish().unwrap();
    let joint_second = second.finish().unwrap();
    for k in 0..3 {
        assert_eq!(fr(&joint_first[k]), fr(&joint_second[k]));
        assert_eq!(fr(&joint_first[k]), fr(&values_first[k]) + fr(&values_second[k]));
    }
}

#[test]
fn coin_toss_binding_rejects_flipped_salt_bit() {
    let mut rng = StdRng::seed_from_u64(12u64);
    let (mut first, _second, _comm_first, comm_second, _values_first, values_second) = two_parties(&mut rng);
    first.receive_commitment(2, comm_second).unwrap();
    for bit in 0..8 {
        let mut salt = vec![2u8; 16];
        salt[5] ^= 1 << bit;
        assert!(matches!(
            first.receive_shares(2, values_second.clone(), salt),
            Err(BBSPlusError::CommitmentMismatch(2))
        ));
    }
    first.receive_shares(2, values_second, vec![2u8; 16]).unwrap();
}

#[test]
fn coin_toss_binding_rejects_flipped_value_bit() {
    let mut rng = StdRng::seed_from_u64(13u64);
    let (mut first, _second, _comm_first, comm_second, _values_first, values_second) = two_parties(&mut rng);
    first.receive_commitment(2, comm_second).unwrap();
    let mut changed = values_second.clone();
    let mut limbs = changed[1].to_limbs();
    limbs[0] ^= 1;
    changed[1] = Scalar::from_limbs(limbs).unwrap();
    assert!(matches!(
        first.receive_shares(2, changed, vec![2u8; 16]),
        Err(BBSPlusError::CommitmentMismatch(2))
    ));
}

#[test]
fn coin_toss_protocol_errors() {
    let mut rng = StdRng::seed_from_u64(14u64);
    let (mut first, _second, _comm_first, comm_second, _values_first, values_second) = two_parties(&mut rng);
    assert!(matches!(
        first.receive_shares(2, values_second.clone(), vec![2u8; 16]),
        Err(BBSPlusError::ProtocolOrderViolation(2))
    ));
    assert!(matches!(
        first.receive_commitment(3, comm_second.clone()),
        Err(BBSPlusError::UnknownParticipant(3))
    ));
    assert!(matches!(first.finish(), Err(BBSPlusError::IncompleteRound)));
    first.receive_commitment(2, comm_second.clone()).unwrap();
    assert!(matches!(
        first.receive_commitment(2, comm_second),
        Err(BBSPlusError::DuplicateParticipant(2))
    ));
    assert!(matches!(
        first.receive_shares(2, values_second[..2].to_vec(), vec![2u8; 16]),
        Err(BBSPlusError::IncorrectNumberOfShares(2))
    ));
    assert!(matches!(first.finish(), Err(BBSPlusError::IncompleteRound)));
    first.receive_shares(2, values_second.clone(), vec![2u8; 16]).unwrap();
    assert!(matches!(
        first.receive_shares(2, values_second, vec![2u8; 16]),
        Err(BBSPlusError::DuplicateParticipant(2))
    ));
    assert_eq!(first.finish().unwrap().len(), 3);
}

#[test]
fn scalar_limbs_round_trip() {
    let s = Scalar::from_u64(42);
    assert_eq!(s.to_limbs(), [42, 0, 0, 0]);
    assert!(Scalar::from_limbs([u64::MAX; 4]).is_none());
    assert_eq!(Scalar::zero().to_limbs(), [0, 0, 0, 0]);
}
