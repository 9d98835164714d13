//! Commit-then-reveal coin tossing: every participant commits to its own
//! random values, then reveals them; the joint value of a slot is the sum of
//! every participant's value for that slot.

use crate::error::{BBSPlusError, ParticipantId};
use crate::field::{self, modulus, push_u64_le, u64_le, Scalar};
use blake2::{Blake2b512, Digest};
use vstd::prelude::*;

verus! {

/// The Blake2b-512 digest of `data`.
pub uninterp spec fn blake2b512_of(data: Seq<u8>) -> Seq<u8>;

/// Relies on `Digest::digest` for `Blake2b512`: a 64-byte digest that depends
/// on the bytes alone.
#[verifier::external_body]
pub(crate) fn blake2b512(data: &Vec<u8>) -> (r: Vec<u8>)
    ensures
        r@ == blake2b512_of(data@),
{
    Blake2b512::digest(&data[..]).to_vec()
}

/// The encodings of a sequence of elements, one after the other.
pub open spec fn scalars_encoding(v: Seq<Scalar>) -> Seq<u8>
    decreases v.len(),
{
    if v.len() == 0 {
        Seq::empty()
    } else {
        scalars_encoding(v.drop_last()) + v.last().encoding()
    }
}

/// The bytes that a participant's commitment hashes: its values and its
/// salt, each prefixed with its length, its id and the protocol id.
pub open spec fn commitment_input(
    values: Seq<Scalar>,
    salt: Seq<u8>,
    id: ParticipantId,
    protocol_id: Seq<u8>,
) -> Seq<u8> {
    u64_le(values.len() as u64) + scalars_encoding(values) + u64_le(salt.len() as u64) + salt
        + u64_le(id as u64) + protocol_id
}

/// The commitment of participant `id` to `values` under `salt`.
pub open spec fn commitment_to(
    values: Seq<Scalar>,
    salt: Seq<u8>,
    id: ParticipantId,
    protocol_id: Seq<u8>,
) -> Seq<u8> {
    blake2b512_of(commitment_input(values, salt, id, protocol_id))
}

/// Computes the commitment of participant `id` to `values` under `salt`.
pub fn compute_commitment(
    values: &Vec<Scalar>,
    salt: &Vec<u8>,
    id: ParticipantId,
    protocol_id: &Vec<u8>,
) -> (r: Vec<u8>)
    ensures
        r@ == commitment_to(values@, salt@, id, protocol_id@),
{
    let mut out: Vec<u8> = Vec::new();
    push_u64_le(&mut out, values.len() as u64);
    let ghost start = out@;
    let mut i: usize = 0;
    while i < values.len()
        invariant
            i <= values.len(),
            out@ == start + scalars_encoding(values@.take(i as int)),
        decreases values.len() - i,
    {
        values[i].write_to(&mut out);
        proof {
            assert(values@.take(i + 1).drop_last() =~= values@.take(i as int));
        }
        i = i + 1;
    }
    assert(values@.take(values.len() as int) =~= values@);
    push_u64_le(&mut out, salt.len() as u64);
    let mut j: usize = 0;
    while j < salt.len()
        invariant
            j <= salt.len(),
            out@ == start + scalars_encoding(values@) + u64_le(salt.len() as u64) + salt@.take(
                j as int,
            ),
        decreases salt.len() - j,
    {
        out.push(salt[j]);
        proof {
            assert(salt@.take(j + 1) =~= salt@.take(j as int).push(salt[j as int]));
        }
        j = j + 1;
    }
    push_u64_le(&mut out, id as u64);
    let mut k: usize = 0;
    while k < protocol_id.len()
        invariant
            k <= protocol_id.len(),
            out@ == start + scalars_encoding(values@) + u64_le(salt.len() as u64) + salt@
                + u64_le(id as u64) + protocol_id@.take(k as int),
        decreases protocol_id.len() - k,
    {
        out.push(protocol_id[k]);
        proof {
            assert(protocol_id@.take(k + 1) =~= protocol_id@.take(k as int).push(
                protocol_id[k as int],
            ));
        }
        k = k + 1;
    }
    proof {
        assert(salt@.take(salt.len() as int) =~= salt@);
        assert(protocol_id@.take(protocol_id.len() as int) =~= protocol_id@);
        assert(out@ =~= commitment_input(values@, salt@, id, protocol_id@));
    }
    blake2b512(&out)
}

/// The integer sum of the values of slot `k` over the rows.
pub open spec fn column_sum(rows: Seq<Seq<Scalar>>, k: int) -> int
    decreases rows.len(),
{
    if rows.len() == 0 {
        0
    } else {
        column_sum(rows.drop_last(), k) + rows.last()[k].val()
    }
}

/// The joint value of slot `k` for a participant that contributed `own` and
/// received `others` from its peers.
pub open spec fn joint_value(own: Seq<Scalar>, others: Seq<Seq<Scalar>>, k: int) -> nat {
    ((own[k].val() + column_sum(others, k)) % (modulus() as int)) as nat
}

/// Taking one row out of a column sum takes out its value.
pub proof fn lemma_column_sum_remove(rows: Seq<Seq<Scalar>>, j: int, k: int)
    requires
        0 <= j < rows.len(),
    ensures
        column_sum(rows, k) == column_sum(rows.remove(j), k) + rows[j][k].val(),
    decreases rows.len(),
{
    if j == rows.len() - 1 {
        assert(rows.remove(j) =~= rows.drop_last());
    } else {
        lemma_column_sum_remove(rows.drop_last(), j, k);
        assert(rows.remove(j).drop_last() =~= rows.drop_last().remove(j));
        assert(rows.remove(j).last() == rows.last());
    }
}

/// Agreement: when every participant reveals to every other the values it
/// committed to, all participants compute the same joint value for every
/// slot. `contributions[i]` is what participant `i` contributed; participant
/// `i` receives the contributions of all others, in order.
pub proof fn lemma_agreement(contributions: Seq<Seq<Scalar>>, i: int, j: int, k: int)
    requires
        0 <= i < contributions.len(),
        0 <= j < contributions.len(),
    ensures
        joint_value(contributions[i], contributions.remove(i), k) == joint_value(
            contributions[j],
            contributions.remove(j),
            k,
        ),
        joint_value(contributions[i], contributions.remove(i), k) == (column_sum(contributions, k)
            % (modulus() as int)) as nat,
{
    lemma_column_sum_remove(contributions, i, k);
    lemma_column_sum_remove(contributions, j, k);
    assert(contributions[i][k].val() + column_sum(contributions.remove(i), k) == column_sum(
        contributions,
        k,
    ));
}

/// Whether `ids` are strictly increasing, which makes them distinct.
pub open spec fn strictly_increasing(ids: Seq<ParticipantId>) -> bool {
    forall|a: int, b: int| 0 <= a < b < ids.len() ==> ids[a] < ids[b]
}

/// In strictly increasing ids, each id stands at one position only.
pub proof fn lemma_unique_in_increasing(ids: Seq<ParticipantId>, i: int)
    requires
        strictly_increasing(ids),
        0 <= i < ids.len(),
    ensures
        forall|a: int| 0 <= a < ids.len() && ids[a] == ids[i] ==> a == i,
{
    assert forall|a: int| 0 <= a < ids.len() && ids[a] == ids[i] implies a == i by {
        if a < i {
            assert(ids[a] < ids[i]);
        } else if a > i {
            assert(ids[i] < ids[a]);
        }
    }
}

/// The position of `id` in `ids`, if it is there.
pub fn position(ids: &Vec<ParticipantId>, id: ParticipantId) -> (r: Option<usize>)
    ensures
        r.is_none() <==> !ids@.contains(id),
        r.is_some() ==> r.unwrap() < ids.len() && ids[r.unwrap() as int] == id,
{
    let mut i: usize = 0;
    while i < ids.len()
        invariant
            i <= ids.len(),
            forall|a: int| 0 <= a < i ==> ids@[a] != id,
        decreases ids.len() - i,
    {
        if ids[i] == id {
            return Some(i);
        }
        i = i + 1;
    }
    None
}

/// The view of a received item: present or not.
pub open spec fn bytes_view(o: Option<Vec<u8>>) -> Option<Seq<u8>> {
    match o {
        Some(v) => Some(v@),
        None => None,
    }
}

/// The view of received values: present or not.
pub open spec fn scalars_view(o: Option<Vec<Scalar>>) -> Option<Seq<Scalar>> {
    match o {
        Some(v) => Some(v@),
        None => None,
    }
}

/// One participant of a coin toss. Peers are kept in increasing order of id,
/// and what each has sent is kept at its position.
pub struct Party {
    id: ParticipantId,
    protocol_id: Vec<u8>,
    own_shares: Vec<Scalar>,
    salt: Vec<u8>,
    others: Vec<ParticipantId>,
    commitments: Vec<Option<Vec<u8>>>,
    shares: Vec<Option<Vec<Scalar>>>,
}

impl Party {
    pub closed spec fn id(&self) -> ParticipantId {
        self.id
    }

    pub closed spec fn protocol_id(&self) -> Seq<u8> {
        self.protocol_id@
    }

    /// This participant's own random values.
    pub closed spec fn own_shares(&self) -> Seq<Scalar> {
        self.own_shares@
    }

    pub closed spec fn salt(&self) -> Seq<u8> {
        self.salt@
    }

    /// The expected peers, in increasing order of id.
    pub closed spec fn peers(&self) -> Seq<ParticipantId> {
        self.others@
    }

    /// The commitment received from the peer at position `i`, if any.
    pub closed spec fn commitment_from(&self, i: int) -> Option<Seq<u8>> {
        bytes_view(self.commitments@[i])
    }

    /// The values revealed by the peer at position `i`, if any.
    pub closed spec fn shares_from(&self, i: int) -> Option<Seq<Scalar>> {
        scalars_view(self.shares@[i])
    }

    /// The values revealed by all peers, in the order of the peers.
    pub open spec fn received(&self) -> Seq<Seq<Scalar>> {
        Seq::new(self.peers().len(), |i: int| self.shares_from(i).unwrap())
    }

    /// Whether every peer has revealed its values.
    pub open spec fn complete(&self) -> bool {
        forall|i: int| 0 <= i < self.peers().len() ==> self.shares_from(i).is_some()
    }

    pub closed spec fn wf(&self) -> bool {
        &&& self.commitments.len() == self.others.len()
        &&& self.shares.len() == self.others.len()
        &&& strictly_increasing(self.others@)
        &&& !self.others@.contains(self.id)
        &&& forall|i: int|
            0 <= i < self.others.len() && (#[trigger] self.shares@[i]).is_some() ==> {
                &&& self.commitments@[i].is_some()
                &&& self.shares@[i].unwrap().len() == self.own_shares.len()
            }
    }

    /// What recording a commitment from the peer at position `i` gives.
    pub open spec fn commit_outcome(&self, i: int) -> Result<(), BBSPlusError> {
        if self.commitment_from(i).is_some() {
            Err(BBSPlusError::DuplicateParticipant(self.peers()[i]))
        } else {
            Ok(())
        }
    }

    /// What revealing `shares` and `salt` as the peer at position `i` gives:
    /// the values are taken only after that peer's commitment, once, with the
    /// agreed length, and only if they and the salt hash to the commitment.
    pub open spec fn reveal_outcome(&self, i: int, shares: Seq<Scalar>, salt: Seq<u8>) -> Result<
        (),
        BBSPlusError,
    > {
        let sender = self.peers()[i];
        if self.commitment_from(i).is_none() {
            Err(BBSPlusError::ProtocolOrderViolation(sender))
        } else if self.shares_from(i).is_some() {
            Err(BBSPlusError::DuplicateParticipant(sender))
        } else if shares.len() != self.own_shares().len() {
            Err(BBSPlusError::IncorrectNumberOfShares(sender))
        } else if self.commitment_from(i).unwrap() != commitment_to(
            shares,
            salt,
            sender,
            self.protocol_id(),
        ) {
            Err(BBSPlusError::CommitmentMismatch(sender))
        } else {
            Ok(())
        }
    }

    /// The peers are distinct, in increasing order, and not this participant.
    pub proof fn lemma_peers_distinct(&self)
        requires
            self.wf(),
        ensures
            strictly_increasing(self.peers()),
            !self.peers().contains(self.id()),
    {
    }

    /// Whether the peer at position `i` has sent its commitment.
    pub fn has_commitment(&self, i: usize) -> (r: bool)
        requires
            self.wf(),
            i < self.peers().len(),
        ensures
            r == self.commitment_from(i as int).is_some(),
    {
        self.commitments[i].is_some()
    }

    /// Checks, without recording anything, what revealing `shares` and
    /// `salt` as the peer at position `i` would give.
    pub fn check_shares(&self, i: usize, shares: &Vec<Scalar>, salt: &Vec<u8>) -> (r: Result<
        (),
        BBSPlusError,
    >)
        requires
            self.wf(),
            i < self.peers().len(),
        ensures
            r == self.reveal_outcome(i as int, shares@, salt@),
    {
        let sender = self.others[i];
        match &self.commitments[i] {
            None => Err(BBSPlusError::ProtocolOrderViolation(sender)),
            Some(c) => {
                if self.shares[i].is_some() {
                    return Err(BBSPlusError::DuplicateParticipant(sender));
                }
                if shares.len() != self.own_shares.len() {
                    return Err(BBSPlusError::IncorrectNumberOfShares(sender));
                }
                let expected = compute_commitment(shares, salt, sender, &self.protocol_id);
                if bytes_equal(c, &expected) {
                    Ok(())
                } else {
                    Err(BBSPlusError::CommitmentMismatch(sender))
                }
            },
        }
    }

    /// A peer's id stands at one position only.
    proof fn lemma_unique_position(&self, i: int)
        requires
            self.wf(),
            0 <= i < self.others.len(),
        ensures
            forall|a: int|
                0 <= a < self.others.len() && self.others@[a] == self.others@[i] ==> a == i,
    {
        assert forall|a: int| 0 <= a < self.others.len() && self.others@[a] == self.others@[i]
            implies a == i by {
            if a < i {
                assert(self.others@[a] < self.others@[i]);
            } else if a > i {
                assert(self.others@[i] < self.others@[a]);
            }
        }
    }

    /// Starts a coin toss: `own_shares` are this participant's random values
    /// and `salt` its random salt. Returns the state and the commitment that
    /// is sent to every peer.
    pub fn commit(
        own_shares: Vec<Scalar>,
        salt: Vec<u8>,
        id: ParticipantId,
        others: Vec<ParticipantId>,
        protocol_id: Vec<u8>,
    ) -> (r: (Party, Vec<u8>))
        requires
            strictly_increasing(others@),
            !others@.contains(id),
        ensures
            r.0.wf(),
            r.0.id() == id,
            r.0.own_shares() == own_shares@,
            r.0.salt() == salt@,
            r.0.peers() == others@,
            r.0.protocol_id() == protocol_id@,
            forall|i: int|
                0 <= i < others.len() ==> r.0.commitment_from(i).is_none() && r.0.shares_from(
                    i,
                ).is_none(),
            r.1@ == commitment_to(own_shares@, salt@, id, protocol_id@),
    {
        let comm = compute_commitment(&own_shares, &salt, id, &protocol_id);
        let mut commitments: Vec<Option<Vec<u8>>> = Vec::new();
        let mut shares: Vec<Option<Vec<Scalar>>> = Vec::new();
        let mut i: usize = 0;
        while i < others.len()
            invariant
                i <= others.len(),
                commitments.len() == i,
                shares.len() == i,
                forall|a: int| 0 <= a < i ==> commitments@[a].is_none() && shares@[a].is_none(),
            decreases others.len() - i,
        {
            commitments.push(None);
            shares.push(None);
            i = i + 1;
        }
        (Party { id, protocol_id, own_shares, salt, others, commitments, shares }, comm)
    }

    /// Records the commitment of peer `sender`.
    pub fn receive_commitment(&mut self, sender: ParticipantId, commitment: Vec<u8>) -> (r: Result<
        (),
        BBSPlusError,
    >)
        requires
            old(self).wf(),
        ensures
            final(self).wf(),
            final(self).id() == old(self).id(),
            final(self).own_shares() == old(self).own_shares(),
            final(self).salt() == old(self).salt(),
            final(self).peers() == old(self).peers(),
            final(self).protocol_id() == old(self).protocol_id(),
            forall|i: int|
                0 <= i < old(self).peers().len() ==> #[trigger] final(self).shares_from(i)
                    == old(self).shares_from(i),
            r == Err::<(), BBSPlusError>(BBSPlusError::UnknownParticipant(sender)) <==> !old(
                self,
            ).peers().contains(sender),
            r == Err::<(), BBSPlusError>(BBSPlusError::DuplicateParticipant(sender)) <==> exists|
                i: int,
            |
                0 <= i < old(self).peers().len() && old(self).peers()[i] == sender && old(
                    self,
                ).commitment_from(i).is_some(),
            r is Ok || r == Err::<(), BBSPlusError>(BBSPlusError::UnknownParticipant(sender))
                || r == Err::<(), BBSPlusError>(BBSPlusError::DuplicateParticipant(sender)),
            forall|i: int|
                0 <= i < old(self).peers().len() && #[trigger] old(self).peers()[i] == sender
                    ==> r == old(self).commit_outcome(i),
            r is Ok ==> forall|i: int|
                0 <= i < old(self).peers().len() ==> #[trigger] final(self).commitment_from(i) == (
                if old(self).peers()[i] == sender {
                    Some(commitment@)
                } else {
                    old(self).commitment_from(i)
                }),
            r is Err ==> *final(self) == *old(self),
    {
        match position(&self.others, sender) {
            None => Err(BBSPlusError::UnknownParticipant(sender)),
            Some(i) => {
                proof {
                    self.lemma_unique_position(i as int);
                }
                if self.commitments[i].is_some() {
                    assert(self.peers()[i as int] == sender);
                    assert(self.commitment_from(i as int).is_some());
                    assert(exists|a: int|
                        0 <= a < self.peers().len() && self.peers()[a] == sender
                            && self.commitment_from(a).is_some());
                    return Err(BBSPlusError::DuplicateParticipant(sender));
                }
                self.commitments.set(i, Some(commitment));
                Ok(())
            },
        }
    }

    /// Records the values and salt that peer `sender` revealed, after
    /// checking them against its commitment.
    pub fn receive_shares(&mut self, sender: ParticipantId, shares: Vec<Scalar>, salt: Vec<u8>) -> (r:
        Result<(), BBSPlusError>)
        requires
            old(self).wf(),
        ensures
            final(self).wf(),
            final(self).id() == old(self).id(),
            final(self).own_shares() == old(self).own_shares(),
            final(self).salt() == old(self).salt(),
            final(self).peers() == old(self).peers(),
            final(self).protocol_id() == old(self).protocol_id(),
            forall|i: int|
                0 <= i < old(self).peers().len() ==> #[trigger] final(self).commitment_from(i)
                    == old(self).commitment_from(i),
            !old(self).peers().contains(sender) ==> r == Err::<(), BBSPlusError>(
                BBSPlusError::UnknownParticipant(sender),
            ),
            forall|i: int|
                0 <= i < old(self).peers().len() && old(self).peers()[i] == sender ==> {
                    &&& r == old(self).reveal_outcome(i, shares@, salt@)
                    &&& r is Ok ==> final(self).shares_from(i) == Some(shares@)
                },
            forall|i: int|
                0 <= i < old(self).peers().len() && old(self).peers()[i] != sender
                    ==> #[trigger] final(self).shares_from(i) == old(self).shares_from(i),
            r is Err ==> *final(self) == *old(self),
    {
        match position(&self.others, sender) {
            None => Err(BBSPlusError::UnknownParticipant(sender)),
            Some(i) => {
                proof {
                    self.lemma_unique_position(i as int);
                }
                let r = self.check_shares(i, &shares, &salt);
                if r.is_err() {
                    return r;
                }
                self.shares.set(i, Some(shares));
                Ok(())
            },
        }
    }

    /// The joint values: for each slot, the sum of this participant's value
    /// and the values that all peers revealed. Fails while a peer has not
    /// revealed its values.
    pub fn finish(&self) -> (r: Result<Vec<Scalar>, BBSPlusError>)
        requires
            self.wf(),
        ensures
            r is Err <==> !self.complete(),
            r is Err ==> r == Err::<Vec<Scalar>, BBSPlusError>(BBSPlusError::IncompleteRound),
            r is Ok ==> r.unwrap().len() == self.own_shares().len() && forall|k: int|
                0 <= k < self.own_shares().len() ==> #[trigger] r.unwrap()@[k].val()
                    == joint_value(self.own_shares(), self.received(), k),
    {
        let n = self.others.len();
        let mut i: usize = 0;
        while i < n
            invariant
                self.wf(),
                n == self.others.len(),
                i <= n,
                forall|a: int| 0 <= a < i ==> self.shares_from(a).is_some(),
            decreases n - i,
        {
            if self.shares[i].is_none() {
                assert(self.shares_from(i as int).is_none());
                return Err(BBSPlusError::IncompleteRound);
            }
            i = i + 1;
        }
        let ghost rows = self.received();
        let count = self.own_shares.len();
        let mut joint: Vec<Scalar> = Vec::new();
        let mut k: usize = 0;
        while k < count
            invariant
                self.wf(),
                self.complete(),
                rows == self.received(),
                n == self.others.len(),
                count == self.own_shares.len(),
                k <= count,
                joint.len() == k,
                forall|a: int| 0 <= a < k ==> #[trigger] joint@[a].val() == joint_value(
                    self.own_shares@,
                    rows,
                    a,
                ),
            decreases count - k,
        {
            let mut sum = self.own_shares[k].clone();
            proof {
                sum.lemma_val_bound();
                assert(rows.take(0) =~= Seq::<Seq<Scalar>>::empty());
                vstd::arithmetic::div_mod::lemma_small_mod(sum.val(), modulus());
            }
            let mut j: usize = 0;
            while j < n
                invariant
                    self.wf(),
                    self.complete(),
                    rows == self.received(),
                    n == self.others.len(),
                    count == self.own_shares.len(),
                    k < count,
                    j <= n,
                    sum.val() == ((self.own_shares@[k as int].val() + column_sum(
                        rows.take(j as int),
                        k as int,
                    )) % (modulus() as int)) as nat,
                decreases n - j,
            {
                match &self.shares[j] {
                    Some(row) => {
                        assert(self.shares_from(j as int).is_some());
                        let ghost before = sum.val();
                        sum = field::add(&sum, &row[k]);
                        proof {
                            let m = modulus() as int;
                            let own = self.own_shares@[k as int].val() as int;
                            let cs = column_sum(rows.take(j as int), k as int);
                            let x = row@[k as int].val() as int;
                            assert(rows.take(j + 1).drop_last() =~= rows.take(j as int));
                            assert(rows.take(j + 1).last() == row@);
                            row@[k as int].lemma_val_bound();
                            vstd::arithmetic::div_mod::lemma_add_mod_noop(own + cs, x, m);
                            vstd::arithmetic::div_mod::lemma_small_mod(x as nat, m as nat);
                        }
                    },
                    None => {
                        assert(self.shares_from(j as int).is_some());
                    },
                }
                j = j + 1;
            }
            proof {
                assert(rows.take(n as int) =~= rows);
            }
            joint.push(sum);
            k = k + 1;
        }
        Ok(joint)
    }
}

/// Whether two byte strings are equal.
pub fn bytes_equal(a: &Vec<u8>, b: &Vec<u8>) -> (r: bool)
    ensures
        r == (a@ == b@),
{
    if a.len() != b.len() {
        return false;
    }
    let mut i: usize = 0;
    while i < a.len()
        invariant
            a.len() == b.len(),
            i <= a.len(),
            forall|j: int| 0 <= j < i ==> a@[j] == b@[j],
        decreases a.len() - i,
    {
        if a[i] != b[i] {
            return false;
        }
        i = i + 1;
    }
    assert(a@ =~= b@);
    true
}

} // verus!
