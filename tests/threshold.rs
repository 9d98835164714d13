use ark_bls12_381::{Bls12_381, Fr, G1Affine, G1Projective, G2Affine, G2Projective};
use ark_ec::pairing::Pairing;
use ark_ec::{AffineRepr, CurveGroup};
use ark_ff::{BigInt, Field, PrimeField, UniformRand, Zero};
use ark_serialize::{CanonicalDeserialize, CanonicalSerialize};
use ark_std::rand::rngs::StdRng;
use ark_std::rand::{RngCore, SeedableRng};
use threshold_bbs_plus::error::BBSPlusError;
use threshold_bbs_plus::field::Scalar;
use threshold_bbs_plus::group::Point;
use threshold_bbs_plus::phase1::{Phase1, Phase1Output};
use threshold_bbs_plus::setup::{Phase2Output, SignatureParamsG1};
use threshold_bbs_plus::signature::{BBSPlusSignatureShare, SignatureG1};

fn sc(f: &Fr) -> Scalar {
    Scalar::from_limbs(f.into_bigint().0).unwrap()
}

fn fr(s: &Scalar) -> Fr {
    Fr::from_bigint(BigInt::new(s.to_limbs())).unwrap()
}

fn pt(p: &G1Affine) -> Point {
    let mut b = Vec::new();
    p.serialize_compressed(&mut b).unwrap();
    Point::from_bytes(&b).unwrap()
}

fn g1(p: &Point) -> G1Affine {
    G1Affine::deserialize_compressed(&p.to_bytes()[..]).unwrap()
}

fn rand_scalars(rng: &mut StdRng, n: usize) -> Vec<Scalar> {
    (0..n).map(|_| sc(&Fr::rand(rng))).collect()
}

fn rand_salt(rng: &mut StdRng) -> Vec<u8> {
    let mut salt = vec![0u8; 32];
    rng.fill_bytes(&mut salt);
    salt
}

/// What one participant contributes to Phase 1.
struct Contribution {
    coin_values: Vec<Scalar>,
    coin_salt: Vec<u8>,
    zero_values: Vec<Vec<Scalar>>,
    zero_salts: Vec<Vec<u8>>,
    others: Vec<u16>,
}

fn run_phase1(rng: &mut StdRng, num_signers: u16, batch_size: usize, sk_shares: &[Fr]) -> Vec<Phase1Output> {
    let protocol_id = b"test".to_vec();
    let ids: Vec<u16> = (1..=num_signers).collect();
    let mut parties = Vec::new();
    let mut contributions = Vec::new();
    let mut comms = Vec::new();
    let mut zero_comms = Vec::new();
    for &i in &ids {
        let others: Vec<u16> = ids.iter().copied().filter(|j| *j != i).collect();
        let c = Contribution {
            coin_values: rand_scalars(rng, 2 * batch_size),
            coin_salt: rand_salt(rng),
            zero_values: others.iter().map(|_| rand_scalars(rng, 2 * batch_size)).collect(),
            zero_salts: others.iter().map(|_| rand_salt(rng)).collect(),
            others: others.clone(),
        };
        let (p, comm, zero_comm) = Phase1::init_for_bbs_plus(
            rand_scalars(rng, batch_size),
            c.coin_values.clone(),
            c.coin_salt.clone(),
            c.zero_values.clone(),
            c.zero_salts.clone(),
            batch_size,
            i,
            others,
            protocol_id.clone(),
        );
        parties.push(p);
        contributions.push(c);
        comms.push(comm);
        zero_comms.push(zero_comm);
    }
    let n = num_signers as usize;
    for i in 0..n {
        for j in 0..n {
            if i != j {
                let pos = contributions[j].others.iter().position(|x| *x == ids[i]).unwrap();
                parties[i]
                    .receive_commitment(ids[j], comms[j].clone(), zero_comms[j][pos].clone())
                    .unwrap();
            }
        }
    }
    for i in 0..n {
        for j in 0..n {
            if i != j {
                let c = &contributions[j];
                let pos = c.others.iter().position(|x| *x == ids[i]).unwrap();
                parties[i]
                    .receive_shares(
                        ids[j],
                        c.coin_values.clone(),
                        c.coin_salt.clone(),
                        c.zero_values[pos].clone(),
                        c.zero_salts[pos].clone(),
                    )
                    .unwrap();
            }
        }
    }
    parties
        .into_iter()
        .enumerate()
        .map(|(i, p)| p.finish_for_bbs_plus(&sc(&sk_shares[i])).unwrap())
        .collect()
}

/// Stands in for the pairwise multiplication: for each pair `i < j`, `i`
/// gets random shares and `j` the products minus them.
fn simulate_phase2(rng: &mut StdRng, outs: &[Phase1Output]) -> Vec<Phase2Output> {
    let n = outs.len();
    let batch_size = outs[0].batch_size;
    let mut res: Vec<Phase2Output> = outs
        .iter()
        .map(|o| Phase2Output { id: o.id, batch_size, z_a: Vec::new(), z_b: Vec::new() })
        .collect();
    for i in 0..n {
        for j in i + 1..n {
            let mut a = (Vec::new(), Vec::new());
            let mut b = (Vec::new(), Vec::new());
            for k in 0..batch_size {
                let a0 = Fr::rand(rng);
                let a1 = Fr::rand(rng);
                let product_0 = fr(&outs[i].masked_signing_key_shares[k]) * fr(&outs[j].masked_rs[k]);
                let product_1 = fr(&outs[i].masked_rs[k]) * fr(&outs[j].masked_signing_key_shares[k]);
                a.0.push(sc(&a0));
                a.1.push(sc(&a1));
                b.0.push(sc(&(product_0 - a0)));
                b.1.push(sc(&(product_1 - a1)));
            }
            res[i].z_a.push(a);
            res[j].z_b.push(b);
        }
    }
    res
}

fn random_params(rng: &mut StdRng, message_count: usize) -> SignatureParamsG1 {
    SignatureParamsG1 {
        g1: pt(&G1Projective::rand(rng).into_affine()),
        h_0: pt(&G1Projective::rand(rng).into_affine()),
        h: (0..message_count).map(|_| pt(&G1Projective::rand(rng).into_affine())).collect(),
    }
}

/// The BBS+ check `e(A, w + g2 * e) == e(b, g2)`.
fn verify(sig: &SignatureG1, messages: &[Scalar], params: &SignatureParamsG1, w: &G2Affine, g2: &G2Affine) -> bool {
    let mut b = g1(&params.g1).into_group() + g1(&params.h_0) * fr(&sig.s);
    for (i, m) in messages.iter().enumerate() {
        b += g1(&params.h[i]) * fr(m);
    }
    let lhs_g2 = (w.into_group() + *g2 * fr(&sig.e)).into_affine();
    let a = g1(&sig.A);
    !a.is_zero()
        && Bls12_381::pairing(a, lhs_g2) == Bls12_381::pairing(b.into_affine(), *g2)
}

fn check(rng: &mut StdRng, num_signers: u16, sig_batch_size: usize, message_count: usize) {
    let sk_shares: Vec<Fr> = (0..num_signers).map(|_| Fr::rand(rng)).collect();
    let sk: Fr = sk_shares.iter().sum();
    let params = random_params(rng, message_count);
    let g2 = G2Projective::rand(rng).into_affine();
    let w = (g2 * sk).into_affine();

    let outs = run_phase1(rng, num_signers, sig_batch_size, &sk_shares);

    let mut expected_sk = Fr::zero();
    for out in &outs {
        expected_sk += out.masked_signing_key_shares.iter().map(fr).sum::<Fr>();
    }
    assert_eq!(expected_sk, sk * Fr::from(sig_batch_size as u64));
    for i in 1..outs.len() {
        assert_eq!(outs[0].e.iter().map(fr).collect::<Vec<_>>(), outs[i].e.iter().map(fr).collect::<Vec<_>>());
        assert_eq!(outs[0].s.iter().map(fr).collect::<Vec<_>>(), outs[i].s.iter().map(fr).collect::<Vec<_>>());
    }

    let phase2 = simulate_phase2(rng, &outs);

    for k in 0..sig_batch_size {
        let messages = rand_scalars(rng, message_count);
        let shares: Vec<BBSPlusSignatureShare> = (0..num_signers as usize)
            .map(|i| BBSPlusSignatureShare::new(&messages, k, &outs[i], &phase2[i], &params).unwrap())
            .collect();
        let sig = BBSPlusSignatureShare::aggregate(shares).unwrap();
        assert_eq!(fr(&sig.e), fr(&outs[0].e[k]));
        assert_eq!(fr(&sig.s), fr(&outs[0].s[k]));
        assert!(verify(&sig, &messages, &params, &w, &g2));
    }
}

#[test]
fn signing() {
    let mut rng = StdRng::seed_from_u64(0u64);
    check(&mut rng, 5, 10, 3);
    check(&mut rng, 5, 20, 3);
    check(&mut rng, 5, 30, 3);
    check(&mut rng, 10, 10, 3);
    check(&mut rng, 20, 10, 3);
}

#[test]
fn zero_share_offsets_cancel_per_slot() {
    let mut rng = StdRng::seed_from_u64(1u64);
    let n = 4u16;
    let batch_size = 3;
    let zero_keys: Vec<Fr> = (0..n).map(|_| Fr::zero()).collect();
    let outs = run_phase1(&mut rng, n, batch_size, &zero_keys);
    for k in 0..batch_size {
        let sum: Fr = outs.iter().map(|o| fr(&o.masked_signing_key_shares[k])).sum();
        assert_eq!(sum, Fr::zero());
        let masked_r: Fr = outs.iter().map(|o| fr(&o.masked_rs[k])).sum();
        let r: Fr = outs.iter().map(|o| fr(&o.r[k])).sum();
        assert_eq!(masked_r, r);
    }
}

#[test]
fn masked_key_shares_sum_to_key_per_slot() {
    let mut rng = StdRng::seed_from_u64(2u64);
    let sk_shares: Vec<Fr> = (0..3).map(|_| Fr::rand(&mut rng)).collect();
    let sk: Fr = sk_shares.iter().sum();
    let outs = run_phase1(&mut rng, 3, 2, &sk_shares);
    for k in 0..2 {
        let sum: Fr = outs.iter().map(|o| fr(&o.masked_signing_key_shares[k])).sum();
        assert_eq!(sum, sk);
    }
}

#[test]
fn cross_products_of_simulated_phase2() {
    let mut rng = StdRng::seed_from_u64(3u64);
    let sk_shares: Vec<Fr> = (0..3).map(|_| Fr::rand(&mut rng)).collect();
    let outs = run_phase1(&mut rng, 3, 2, &sk_shares);
    let phase2 = simulate_phase2(&mut rng, &outs);
    // pairs (0,1), (0,2) are in z_a of 0; (1,2) in z_a of 1.
    let za = &phase2[0].z_a[0];
    let zb = &phase2[1].z_b[0];
    for k in 0..2 {
        assert_eq!(
            fr(&za.0[k]) + fr(&zb.0[k]),
            fr(&outs[0].masked_signing_key_shares[k]) * fr(&outs[1].masked_rs[k])
        );
        assert_eq!(
            fr(&za.1[k]) + fr(&zb.1[k]),
            fr(&outs[0].masked_rs[k]) * fr(&outs[1].masked_signing_key_shares[k])
        );
    }
}

fn sample_share(rng: &mut StdRng, id: u16, e: Fr, s: Fr, u: Fr) -> BBSPlusSignatureShare {
    BBSPlusSignatureShare {
        id,
        e: sc(&e),
        s: sc(&s),
        u: sc(&u),
        R: pt(&G1Projective::rand(rng).into_affine()),
    }
}

#[test]
fn aggregate_names_participant_with_other_e() {
    let mut rng = StdRng::seed_from_u64(4u64);
    let e = Fr::rand(&mut rng);
    let s = Fr::rand(&mut rng);
    let shares = vec![
        sample_share(&mut rng, 1, e, s, Fr::from(1u64)),
        sample_share(&mut rng, 2, e, s, Fr::from(2u64)),
        sample_share(&mut rng, 3, e + Fr::from(1u64), s, Fr::from(3u64)),
        sample_share(&mut rng, 4, e, s + Fr::from(1u64), Fr::from(4u64)),
    ];
    assert!(matches!(
        BBSPlusSignatureShare::aggregate(shares),
        Err(BBSPlusError::IncorrectEByParticipant(3))
    ));
}

#[test]
fn aggregate_names_participant_with_other_s() {
    let mut rng = StdRng::seed_from_u64(5u64);
    let e = Fr::rand(&mut rng);
    let s = Fr::rand(&mut rng);
    let shares = vec![
        sample_share(&mut rng, 7, e, s, Fr::from(1u64)),
        sample_share(&mut rng, 9, e, s + Fr::from(5u64), Fr::from(2u64)),
    ];
    assert!(matches!(
        BBSPlusSignatureShare::aggregate(shares),
        Err(BBSPlusError::IncorrectSByParticipant(9))
    ));
}

#[test]
fn aggregate_rejects_zero_u_sum() {
    let mut rng = StdRng::seed_from_u64(6u64);
    let e = Fr::rand(&mut rng);
    let s = Fr::rand(&mut rng);
    let x = Fr::rand(&mut rng);
    let shares = vec![
        sample_share(&mut rng, 1, e, s, x),
        sample_share(&mut rng, 2, e, s, Fr::from(3u64)),
        sample_share(&mut rng, 3, e, s, -x - Fr::from(3u64)),
    ];
    assert!(matches!(
        BBSPlusSignatureShare::aggregate(shares),
        Err(BBSPlusError::DegenerateAggregate)
    ));
    assert!(matches!(
        BBSPlusSignatureShare::aggregate(Vec::new()),
        Err(BBSPlusError::DegenerateAggregate)
    ));
}

#[test]
fn aggregate_of_one_share_divides_r_by_u() {
    let mut rng = StdRng::seed_from_u64(7u64);
    let e = Fr::rand(&mut rng);
    let s = Fr::rand(&mut rng);
    let u = Fr::from(5u64);
    let share = sample_share(&mut rng, 1, e, s, u);
    let r = g1(&share.R);
    let sig = BBSPlusSignatureShare::aggregate(vec![share]).unwrap();
    assert_eq!(g1(&sig.A), (r * u.inverse().unwrap()).into_affine());
    assert_eq!(fr(&sig.e), e);
    assert_eq!(fr(&sig.s), s);
}

fn phase1_output_with_batch(rng: &mut StdRng, batch_size: usize) -> (Phase1Output, Phase2Output) {
    let out = Phase1Output {
        id: 1,
        batch_size,
        r: rand_scalars(rng, batch_size),
        e: rand_scalars(rng, batch_size),
        s: rand_scalars(rng, batch_size),
        masked_signing_key_shares: rand_scalars(rng, batch_size),
        masked_rs: rand_scalars(rng, batch_size),
        others: vec![],
    };
    let phase2_out = Phase2Output { id: 1, batch_size, z_a: vec![], z_b: vec![] };
    (out, phase2_out)
}

#[test]
fn share_rejects_bad_message_counts_and_index() {
    let mut rng = StdRng::seed_from_u64(8u64);
    let params = random_params(&mut rng, 3);
    let (out, phase2_out) = phase1_output_with_batch(&mut rng, 2);
    assert!(matches!(
        BBSPlusSignatureShare::new(&vec![], 0, &out, &phase2_out, &params),
        Err(BBSPlusError::NoMessageToSign)
    ));
    let two = rand_scalars(&mut rng, 2);
    assert!(matches!(
        BBSPlusSignatureShare::new(&two, 0, &out, &phase2_out, &params),
        Err(BBSPlusError::MessageCountIncompatibleWithSigParams(2, 3))
    ));
    let three = rand_scalars(&mut rng, 3);
    assert!(matches!(
        BBSPlusSignatureShare::new(&three, 2, &out, &phase2_out, &params),
        Err(BBSPlusError::IndexOutOfBatch(2))
    ));
}

#[test]
fn share_of_single_signer_is_plain_bbs_plus() {
    let mut rng = StdRng::seed_from_u64(9u64);
    let params = random_params(&mut rng, 2);
    let (out, phase2_out) = phase1_output_with_batch(&mut rng, 1);
    let messages = rand_scalars(&mut rng, 2);
    let share = BBSPlusSignatureShare::new(&messages, 0, &out, &phase2_out, &params).unwrap();
    let b = g1(&params.g1).into_group()
        + g1(&params.h_0) * fr(&out.s[0])
        + g1(&params.h[0]) * fr(&messages[0])
        + g1(&params.h[1]) * fr(&messages[1]);
    assert_eq!(g1(&share.R), (b * fr(&out.r[0])).into_affine());
    let expected_u = fr(&out.masked_rs[0]) * (fr(&out.e[0]) + fr(&out.masked_signing_key_shares[0]));
    assert_eq!(fr(&share.u), expected_u);
    assert_eq!(share.id, 1);
}

#[test]
fn share_with_committed_messages() {
    let mut rng = StdRng::seed_from_u64(10u64);
    let params = random_params(&mut rng, 3);
    let (out, phase2_out) = phase1_output_with_batch(&mut rng, 1);
    let messages = rand_scalars(&mut rng, 3);
    // message 1 is hidden in a commitment
    let commitment = (g1(&params.h[1]) * fr(&messages[1])).into_affine();
    let uncommitted = vec![(0usize, messages[0]), (2usize, messages[2])];
    let share = BBSPlusSignatureShare::new_with_committed_messages(
        &pt(&commitment),
        &uncommitted,
        0,
        &out,
        &phase2_out,
        &params,
    )
    .unwrap();
    let full = BBSPlusSignatureShare::new(&messages, 0, &out, &phase2_out, &params).unwrap();
    assert_eq!(g1(&share.R), g1(&full.R));
    let bad = vec![(2usize, messages[2]), (0usize, messages[0])];
    assert!(matches!(
        BBSPlusSignatureShare::new_with_committed_messages(&pt(&commitment), &bad, 0, &out, &phase2_out, &params),
        Err(BBSPlusError::InvalidMessageIndex(0))
    ));
    let out_of_range = vec![(3usize, messages[2])];
    assert!(matches!(
        BBSPlusSignatureShare::new_with_committed_messages(&pt(&commitment), &out_of_range, 0, &out, &phase2_out, &params),
        Err(BBSPlusError::InvalidMessageIndex(3))
    ));
}

/// Two participants, 1 and 2, after init; returns participant 1's state
/// and what participant 2 committed to and reveals.
fn two_phase1(rng: &mut StdRng) -> (Phase1, Vec<u8>, Vec<u8>, Contribution) {
    let protocol_id = b"test".to_vec();
    let (first, _, _) = Phase1::init_for_bbs_plus(
        rand_scalars(rng, 1),
        rand_scalars(rng, 2),
        rand_salt(rng),
        vec![rand_scalars(rng, 2)],
        vec![rand_salt(rng)],
        1,
        1,
        vec![2],
        protocol_id.clone(),
    );
    let c = Contribution {
        coin_values: rand_scalars(rng, 2),
        coin_salt: rand_salt(rng),
        zero_values: vec![rand_scalars(rng, 2)],
        zero_salts: vec![rand_salt(rng)],
        others: vec![1],
    };
    let (_, comm, zero_comm) = Phase1::init_for_bbs_plus(
        rand_scalars(rng, 1),
        c.coin_values.clone(),
        c.coin_salt.clone(),
        c.zero_values.clone(),
        c.zero_salts.clone(),
        1,
        2,
        vec![1],
        protocol_id,
    );
    (first, comm, zero_comm[0].clone(), c)
}

#[test]
fn phase1_reveal_before_commitment_is_refused() {
    let mut rng = StdRng::seed_from_u64(30u64);
    let (mut first, comm, zero_comm, c) = two_phase1(&mut rng);
    assert!(matches!(
        first.receive_shares(2, c.coin_values.clone(), c.coin_salt.clone(), c.zero_values[0].clone(), c.zero_salts[0].clone()),
        Err(BBSPlusError::ProtocolOrderViolation(2))
    ));
    assert!(matches!(
        first.receive_commitment(3, comm.clone(), zero_comm.clone()),
        Err(BBSPlusError::UnknownParticipant(3))
    ));
    first.receive_commitment(2, comm, zero_comm).unwrap();
    first
        .receive_shares(2, c.coin_values.clone(), c.coin_salt.clone(), c.zero_values[0].clone(), c.zero_salts[0].clone())
        .unwrap();
    assert!(first.finish_for_bbs_plus(&Scalar::from_u64(1)).is_ok());
}

#[test]
fn phase1_duplicate_commitment_keeps_first() {
    let mut rng = StdRng::seed_from_u64(31u64);
    let (mut first, comm, zero_comm, c) = two_phase1(&mut rng);
    first.receive_commitment(2, comm, zero_comm).unwrap();
    let bogus = vec![0u8; 64];
    assert!(matches!(
        first.receive_commitment(2, bogus.clone(), bogus),
        Err(BBSPlusError::DuplicateParticipant(2))
    ));
    // the first commitments still open
    first
        .receive_shares(2, c.coin_values.clone(), c.coin_salt.clone(), c.zero_values[0].clone(), c.zero_salts[0].clone())
        .unwrap();
}

#[test]
fn phase1_mismatching_reveal_records_nothing() {
    let mut rng = StdRng::seed_from_u64(32u64);
    let (mut first, comm, zero_comm, c) = two_phase1(&mut rng);
    first.receive_commitment(2, comm, zero_comm).unwrap();
    let mut zero_salt = c.zero_salts[0].clone();
    zero_salt[0] ^= 1;
    // the coin-toss part matches, the zero-sharing part does not
    assert!(matches!(
        first.receive_shares(2, c.coin_values.clone(), c.coin_salt.clone(), c.zero_values[0].clone(), zero_salt),
        Err(BBSPlusError::CommitmentMismatch(2))
    ));
    let mut coin_salt = c.coin_salt.clone();
    coin_salt[3] ^= 0x80;
    assert!(matches!(
        first.receive_shares(2, c.coin_values.clone(), coin_salt, c.zero_values[0].clone(), c.zero_salts[0].clone()),
        Err(BBSPlusError::CommitmentMismatch(2))
    ));
    // nothing was recorded, so the honest reveal is still taken
    first
        .receive_shares(2, c.coin_values.clone(), c.coin_salt.clone(), c.zero_values[0].clone(), c.zero_salts[0].clone())
        .unwrap();
}

#[test]
fn phase1_incomplete_round_gives_no_output() {
    let mut rng = StdRng::seed_from_u64(33u64);
    let (mut first, comm, zero_comm, _c) = two_phase1(&mut rng);
    first.receive_commitment(2, comm, zero_comm).unwrap();
    assert!(matches!(
        first.finish_for_bbs_plus(&Scalar::from_u64(1)),
        Err(BBSPlusError::IncompleteRound)
    ));
}

#[test]
fn point_rejects_padded_encoding() {
    let mut rng = StdRng::seed_from_u64(34u64);
    let p = G1Projective::rand(&mut rng).into_affine();
    let mut bytes = Vec::new();
    p.serialize_compressed(&mut bytes).unwrap();
    assert_eq!(bytes.len(), 48);
    assert!(Point::from_bytes(&bytes).is_some());
    bytes.push(0);
    assert!(Point::from_bytes(&bytes).is_none());
    // compressed flag set, and an x-coordinate above the base field's modulus
    let mut too_large = vec![0xffu8; 48];
    too_large[0] = 0x9f;
    assert!(Point::from_bytes(&too_large).is_none());
}
