//! Phase 1 of threshold signing: the jointly random `e` and `s` of each
//! signature of a batch, and the signing-key share and `r` of this
//! participant masked by zero-sharing offsets.

use crate::cointoss::{self, joint_value, lemma_unique_in_increasing, position, strictly_increasing};
use crate::error::{BBSPlusError, ParticipantId};
use crate::field::{self, modulus, Scalar};
use crate::zero_sharing;
use vstd::prelude::*;

verus! {

/// What Phase 1 hands to this participant. Each sequence has one entry per
/// signature of the batch.
pub struct Phase1Output {
    pub id: ParticipantId,
    pub batch_size: usize,
    pub r: Vec<Scalar>,
    pub e: Vec<Scalar>,
    pub s: Vec<Scalar>,
    /// Additive shares of the signing key masked by a zero-sharing offset.
    pub masked_signing_key_shares: Vec<Scalar>,
    /// Additive shares of `r` masked by a zero-sharing offset.
    pub masked_rs: Vec<Scalar>,
    pub others: Vec<ParticipantId>,
}

impl Phase1Output {
    /// Whether every sequence has one entry per signature of the batch.
    pub open spec fn wf(&self) -> bool {
        &&& self.r.len() == self.batch_size
        &&& self.e.len() == self.batch_size
        &&& self.s.len() == self.batch_size
        &&& self.masked_signing_key_shares.len() == self.batch_size
        &&& self.masked_rs.len() == self.batch_size
    }
}

/// The state of one participant during Phase 1.
pub struct Phase1 {
    id: ParticipantId,
    batch_size: usize,
    r: Vec<Scalar>,
    others: Vec<ParticipantId>,
    commitment_protocol: cointoss::Party,
    zero_sharing_protocol: zero_sharing::Party,
}

impl Phase1 {
    pub closed spec fn id(&self) -> ParticipantId {
        self.id
    }

    pub closed spec fn batch_size(&self) -> nat {
        self.batch_size as nat
    }

    /// This participant's own random `r` values.
    pub closed spec fn r(&self) -> Seq<Scalar> {
        self.r@
    }

    /// The coin toss that gives `e` and `s`.
    pub closed spec fn coin_toss(&self) -> cointoss::Party {
        self.commitment_protocol
    }

    /// The zero-sharing that gives the masks.
    pub closed spec fn zero_sharing(&self) -> zero_sharing::Party {
        self.zero_sharing_protocol
    }

    /// The peers, in increasing order of id.
    pub open spec fn peers(&self) -> Seq<ParticipantId> {
        self.coin_toss().peers()
    }

    pub closed spec fn wf(&self) -> bool {
        &&& self.commitment_protocol.wf()
        &&& self.zero_sharing_protocol.wf()
        &&& self.zero_sharing_protocol.peers() == self.commitment_protocol.peers()
        &&& self.commitment_protocol.peers() == self.others@
        &&& self.commitment_protocol.id() == self.id
        &&& self.zero_sharing_protocol.id() == self.id
        &&& self.r.len() == self.batch_size
        &&& self.commitment_protocol.own_shares().len() == 2 * self.batch_size
        &&& self.zero_sharing_protocol.count() == 2 * self.batch_size
    }

    /// Starts Phase 1 for a batch of `batch_size` signatures. `r` are this
    /// participant's random `r` values; `coin_values` and `coin_salt` its
    /// contribution to the coin toss of `2 * batch_size` values (`e` then
    /// `s`); `zero_values[j]` and `zero_salts[j]` its contribution to the
    /// zero-sharing with `others[j]`, also of `2 * batch_size` values (the
    /// masks of the key share, then of `r`). Returns the state, the
    /// commitment sent to all peers and the commitment sent to each peer.
    pub fn init_for_bbs_plus(
        r: Vec<Scalar>,
        coin_values: Vec<Scalar>,
        coin_salt: Vec<u8>,
        zero_values: Vec<Vec<Scalar>>,
        zero_salts: Vec<Vec<u8>>,
        batch_size: usize,
        id: ParticipantId,
        others: Vec<ParticipantId>,
        protocol_id: Vec<u8>,
    ) -> (res: (Phase1, Vec<u8>, Vec<Vec<u8>>))
        requires
            strictly_increasing(others@),
            !others@.contains(id),
            batch_size <= usize::MAX / 2,
            r.len() == batch_size,
            coin_values.len() == 2 * batch_size,
            zero_values.len() == others.len(),
            zero_salts.len() == others.len(),
            forall|j: int| 0 <= j < zero_values.len() ==> (#[trigger] zero_values@[j]).len() == 2 * batch_size,
        ensures
            res.0.wf(),
            res.0.id() == id,
            res.0.batch_size() == batch_size,
            res.0.r() == r@,
            res.0.peers() == others@,
            res.0.zero_sharing().peers() == others@,
            res.0.coin_toss().own_shares() == coin_values@,
            res.0.coin_toss().salt() == coin_salt@,
            res.0.coin_toss().protocol_id() == protocol_id@,
            forall|i: int|
                0 <= i < others.len() ==> {
                    &&& (#[trigger] res.0.coin_toss().commitment_from(i)).is_none()
                    &&& res.0.coin_toss().shares_from(i).is_none()
                    &&& res.0.zero_sharing().toss(i).commitment_from(0).is_none()
                    &&& res.0.zero_sharing().toss(i).shares_from(0).is_none()
                    &&& res.0.zero_sharing().toss(i).own_shares() == zero_values@[i]@
                    &&& res.0.zero_sharing().toss(i).protocol_id() == protocol_id@
                },
            res.1@ == cointoss::commitment_to(coin_values@, coin_salt@, id, protocol_id@),
            res.2.len() == others.len(),
            forall|j: int|
                0 <= j < others.len() ==> (#[trigger] res.2@[j])@ == cointoss::commitment_to(
                    zero_values@[j]@,
                    zero_salts@[j]@,
                    id,
                    protocol_id@,
                ),
    {
        let (commitment_protocol, comm) = cointoss::Party::commit(
            coin_values,
            coin_salt,
            id,
            others.clone(),
            protocol_id.clone(),
        );
        let (zero_sharing_protocol, comm_zero_share) = zero_sharing::Party::init(
            zero_values,
            zero_salts,
            id,
            2 * batch_size,
            others.clone(),
            protocol_id,
        );
        (
            Phase1 { id, batch_size, r, others, commitment_protocol, zero_sharing_protocol },
            comm,
            comm_zero_share,
        )
    }

    /// What the commitments of the peer at position `i` give: each peer
    /// commits once in each protocol.
    pub open spec fn commit_outcome(&self, i: int) -> Result<(), BBSPlusError> {
        if self.coin_toss().commitment_from(i).is_some() || self.zero_sharing().toss(
            i,
        ).commitment_from(0).is_some() {
            Err(BBSPlusError::DuplicateParticipant(self.peers()[i]))
        } else {
            Ok(())
        }
    }

    /// What a reveal by the peer at position `i` gives: the coin toss's
    /// check first, then the zero-sharing's.
    pub open spec fn reveal_outcome(
        &self,
        i: int,
        shares: Seq<Scalar>,
        salt: Seq<u8>,
        zero_shares: Seq<Scalar>,
        zero_salt: Seq<u8>,
    ) -> Result<(), BBSPlusError> {
        match self.coin_toss().reveal_outcome(i, shares, salt) {
            Err(e) => Err(e),
            Ok(_) => self.zero_sharing().toss(i).reveal_outcome(0, zero_shares, zero_salt),
        }
    }

    /// Whether `after` is `before` but for what is recorded from the peer at
    /// position `i`: the rest of the state, and everything recorded from the
    /// other peers, stays.
    pub open spec fn same_but_peer(before: Phase1, after: Phase1, i: int) -> bool {
        &&& after.wf()
        &&& after.id() == before.id()
        &&& after.batch_size() == before.batch_size()
        &&& after.r() == before.r()
        &&& after.peers() == before.peers()
        &&& after.zero_sharing().peers() == before.zero_sharing().peers()
        &&& after.coin_toss().own_shares() == before.coin_toss().own_shares()
        &&& after.coin_toss().salt() == before.coin_toss().salt()
        &&& after.coin_toss().protocol_id() == before.coin_toss().protocol_id()
        &&& after.zero_sharing().toss(i).own_shares() == before.zero_sharing().toss(i).own_shares()
        &&& after.zero_sharing().toss(i).protocol_id() == before.zero_sharing().toss(
            i,
        ).protocol_id()
        &&& forall|j: int|
            0 <= j < before.peers().len() && j != i ==> {
                &&& #[trigger] after.coin_toss().commitment_from(j)
                    == before.coin_toss().commitment_from(j)
                &&& after.coin_toss().shares_from(j) == before.coin_toss().shares_from(j)
                &&& after.zero_sharing().toss(j) == before.zero_sharing().toss(j)
            }
    }

    /// Records the commitments that peer `sender` sent: `comm` for the coin
    /// toss and `comm_zero_share` for the zero-sharing with it. Nothing is
    /// recorded unless both are accepted.
    pub fn receive_commitment(
        &mut self,
        sender: ParticipantId,
        comm: Vec<u8>,
        comm_zero_share: Vec<u8>,
    ) -> (res: Result<(), BBSPlusError>)
        requires
            old(self).wf(),
        ensures
            final(self).wf(),
            !old(self).peers().contains(sender) ==> res == Err::<(), BBSPlusError>(
                BBSPlusError::UnknownParticipant(sender),
            ),
            forall|i: int|
                0 <= i < old(self).peers().len() && #[trigger] old(self).peers()[i] == sender ==> {
                    &&& res == old(self).commit_outcome(i)
                    &&& res is Ok ==> {
                        &&& Phase1::same_but_peer(*old(self), *final(self), i)
                        &&& final(self).coin_toss().commitment_from(i) == Some(comm@)
                        &&& final(self).coin_toss().shares_from(i) == old(
                            self,
                        ).coin_toss().shares_from(i)
                        &&& final(self).zero_sharing().toss(i).commitment_from(0) == Some(
                            comm_zero_share@,
                        )
                        &&& final(self).zero_sharing().toss(i).shares_from(0) == old(
                            self,
                        ).zero_sharing().toss(i).shares_from(0)
                    }
                },
            res is Err ==> *final(self) == *old(self),
    {
        match position(&self.others, sender) {
            None => Err(BBSPlusError::UnknownParticipant(sender)),
            Some(i) => {
                proof {
                    self.commitment_protocol.lemma_peers_distinct();
                    lemma_unique_in_increasing(self.others@, i as int);
                }
                if self.commitment_protocol.has_commitment(i)
                    || self.zero_sharing_protocol.has_commitment(i) {
                    return Err(BBSPlusError::DuplicateParticipant(sender));
                }
                let _ = self.commitment_protocol.receive_commitment(sender, comm);
                let _ = self.zero_sharing_protocol.receive_commitment(sender, comm_zero_share);
                Ok(())
            },
        }
    }

    /// Records what peer `sender` revealed: `shares` and `salt` for the coin
    /// toss, `zero_shares` and `zero_salt` for the zero-sharing with it. Each
    /// is checked against the peer's commitment, and nothing is recorded
    /// unless both pass.
    pub fn receive_shares(
        &mut self,
        sender: ParticipantId,
        shares: Vec<Scalar>,
        salt: Vec<u8>,
        zero_shares: Vec<Scalar>,
        zero_salt: Vec<u8>,
    ) -> (res: Result<(), BBSPlusError>)
        requires
            old(self).wf(),
        ensures
            final(self).wf(),
            !old(self).peers().contains(sender) ==> res == Err::<(), BBSPlusError>(
                BBSPlusError::UnknownParticipant(sender),
            ),
            forall|i: int|
                0 <= i < old(self).peers().len() && #[trigger] old(self).peers()[i] == sender ==> {
                    &&& res == old(self).reveal_outcome(i, shares@, salt@, zero_shares@, zero_salt@)
                    &&& res is Ok ==> {
                        &&& Phase1::same_but_peer(*old(self), *final(self), i)
                        &&& final(self).coin_toss().commitment_from(i) == old(
                            self,
                        ).coin_toss().commitment_from(i)
                        &&& final(self).coin_toss().shares_from(i) == Some(shares@)
                        &&& final(self).zero_sharing().toss(i).commitment_from(0) == old(
                            self,
                        ).zero_sharing().toss(i).commitment_from(0)
                        &&& final(self).zero_sharing().toss(i).shares_from(0) == Some(zero_shares@)
                    }
                },
            res is Err ==> *final(self) == *old(self),
    {
        match position(&self.others, sender) {
            None => Err(BBSPlusError::UnknownParticipant(sender)),
            Some(i) => {
                proof {
                    self.commitment_protocol.lemma_peers_distinct();
                    lemma_unique_in_increasing(self.others@, i as int);
                }
                let checked = self.commitment_protocol.check_shares(i, &shares, &salt);
                if checked.is_err() {
                    return checked;
                }
                let checked_zero = self.zero_sharing_protocol.check_shares(i, &zero_shares, &zero_salt);
                if checked_zero.is_err() {
                    return checked_zero;
                }
                let _ = self.commitment_protocol.receive_shares(sender, shares, salt);
                let _ = self.zero_sharing_protocol.receive_shares(sender, zero_shares, zero_salt);
                Ok(())
            },
        }
    }

    /// Ends Phase 1 once every peer has revealed its values in both
    /// protocols: `e` and `s` are the first and second halves of the joint
    /// values, and the key share and each `r` are masked by the first and
    /// second halves of the zero-sharing offsets.
    pub fn finish_for_bbs_plus(self, signing_key: &Scalar) -> (res: Result<Phase1Output, BBSPlusError>)
        requires
            self.wf(),
        ensures
            res is Err <==> !(self.coin_toss().complete() && self.zero_sharing().complete()),
            res is Err ==> res == Err::<Phase1Output, BBSPlusError>(BBSPlusError::IncompleteRound),
            res is Ok ==> {
                let o = res.unwrap();
                let b = self.batch_size() as int;
                &&& o.id == self.id()
                &&& o.batch_size == b
                &&& o.r@ == self.r()
                &&& o.others@ == self.peers()
                &&& o.e.len() == b
                &&& o.s.len() == b
                &&& o.masked_signing_key_shares.len() == b
                &&& o.masked_rs.len() == b
                &&& forall|k: int|
                    0 <= k < b ==> {
                        &&& (#[trigger] o.e@[k]).val() == joint_value(
                            self.coin_toss().own_shares(),
                            self.coin_toss().received(),
                            k,
                        )
                        &&& o.s@[k].val() == joint_value(
                            self.coin_toss().own_shares(),
                            self.coin_toss().received(),
                            k + b,
                        )
                        &&& o.masked_signing_key_shares@[k].val() == (signing_key.val()
                            + self.zero_sharing().offset(k)) % modulus()
                        &&& o.masked_rs@[k].val() == (self.r()[k].val()
                            + self.zero_sharing().offset(k + b)) % modulus()
                    }
            },
    {
        let randomness = match self.commitment_protocol.finish() {
            Ok(v) => v,
            Err(e) => {
                return Err(e);
            },
        };
        let zero_shares = match self.zero_sharing_protocol.finish() {
            Ok(v) => v,
            Err(e) => {
                return Err(e);
            },
        };
        let b = self.batch_size;
        let mut e: Vec<Scalar> = Vec::new();
        let mut s: Vec<Scalar> = Vec::new();
        let mut masked_signing_key_shares: Vec<Scalar> = Vec::new();
        let mut masked_rs: Vec<Scalar> = Vec::new();
        let mut k: usize = 0;
        while k < b
            invariant
                self.wf(),
                b == self.batch_size,
                randomness.len() == 2 * b,
                zero_shares.len() == 2 * b,
                forall|a: int|
                    0 <= a < 2 * b ==> #[trigger] randomness@[a].val() == joint_value(
                        self.coin_toss().own_shares(),
                        self.coin_toss().received(),
                        a,
                    ),
                forall|a: int|
                    0 <= a < 2 * b ==> #[trigger] zero_shares@[a].val()
                        == self.zero_sharing().offset(a),
                k <= b,
                e.len() == k,
                s.len() == k,
                masked_signing_key_shares.len() == k,
                masked_rs.len() == k,
                forall|a: int|
                    0 <= a < k ==> {
                        &&& (#[trigger] e@[a]).val() == randomness@[a].val()
                        &&& s@[a].val() == randomness@[a + b].val()
                        &&& masked_signing_key_shares@[a].val() == (signing_key.val()
                            + zero_shares@[a].val()) % modulus()
                        &&& masked_rs@[a].val() == (self.r@[a].val() + zero_shares@[a
                            + b].val()) % modulus()
                    },
            decreases b - k,
        {
            e.push(randomness[k].clone());
            s.push(randomness[k + b].clone());
            masked_signing_key_shares.push(field::add(signing_key, &zero_shares[k]));
            masked_rs.push(field::add(&self.r[k], &zero_shares[k + b]));
            k = k + 1;
        }
        proof {
            assert forall|a: int| 0 <= a < b implies {
                &&& (#[trigger] e@[a]).val() == joint_value(
                    self.coin_toss().own_shares(),
                    self.coin_toss().received(),
                    a,
                )
                &&& s@[a].val() == joint_value(
                    self.coin_toss().own_shares(),
                    self.coin_toss().received(),
                    a + b,
                )
                &&& masked_signing_key_shares@[a].val() == (signing_key.val()
                    + self.zero_sharing().offset(a)) % modulus()
                &&& masked_rs@[a].val() == (self.r()[a].val() + self.zero_sharing().offset(a + b))
                    % modulus()
            } by {
                assert(randomness@[a].val() == joint_value(
                    self.coin_toss().own_shares(),
                    self.coin_toss().received(),
                    a,
                ));
                assert(randomness@[a + b].val() == joint_value(
                    self.coin_toss().own_shares(),
                    self.coin_toss().received(),
                    a + b,
                ));
                assert(zero_shares@[a].val() == self.zero_sharing().offset(a));
                assert(zero_shares@[a + b].val() == self.zero_sharing().offset(a + b));
            }
        }
        Ok(
            Phase1Output {
                id: self.id,
                batch_size: b,
                r: self.r,
                e,
                s,
                masked_signing_key_shares,
                masked_rs,
                others: self.others,
            },
        )
    }
}

} // verus!
