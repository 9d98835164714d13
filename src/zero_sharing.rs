//! Zero-sharing: every pair of participants runs a coin toss of its own, and
//! each participant adds the joint value of a pair when its id is the lower
//! one and subtracts it otherwise. Over all participants the offsets cancel.

use crate::cointoss::{self, joint_value, position, strictly_increasing};
use crate::error::{BBSPlusError, ParticipantId};
use crate::field::{self, modulus, neg_mod, Scalar};
use crate::sums::{
    antisymmetric, int_sum, lemma_antisymmetric_total, lemma_sum_congruent, lemma_sum_remove_zero,
    lemma_sum_step, row_total, table_total,
};
use vstd::prelude::*;

verus! {

/// A pair's joint value as it enters the offset of participant `own`:
/// added when `own` is the lower id, subtracted when it is the higher.
pub open spec fn signed(own: ParticipantId, peer: ParticipantId, v: int) -> int {
    if own < peer {
        v
    } else if own > peer {
        -v
    } else {
        0
    }
}

/// The offset of participant `id`, as an integer, from the joint values it
/// shares with its peers.
pub open spec fn offset_sum(id: ParticipantId, peers: Seq<ParticipantId>, joints: Seq<int>) -> int {
    int_sum(Seq::new(peers.len(), |j: int| signed(id, peers[j], joints[j])))
}

/// The index, among all participants, of the `j`-th peer of participant `a`.
pub open spec fn peer_index(a: int, j: int) -> int {
    if j < a {
        j
    } else {
        j + 1
    }
}

/// The offset of participant `a` in a run of participants `ids`, where `w(a, b)`
/// is the joint value of the pair `a, b`.
pub open spec fn run_offset(ids: Seq<ParticipantId>, w: spec_fn(int, int) -> int, a: int) -> int {
    offset_sum(
        ids[a],
        ids.remove(a),
        Seq::new((ids.len() - 1) as nat, |j: int| w(a, peer_index(a, j))),
    )
}

/// Zero-share cancellation: when the two members of every pair agree on
/// their joint value (`w` is symmetric), the offsets of all participants sum
/// to zero, as integers and so in the field.
pub proof fn lemma_offsets_cancel(ids: Seq<ParticipantId>, w: spec_fn(int, int) -> int)
    requires
        strictly_increasing(ids),
        forall|a: int, b: int| 0 <= a < ids.len() && 0 <= b < ids.len() ==> #[trigger] w(a, b) == w(b, a),
    ensures
        int_sum(Seq::new(ids.len(), |a: int| run_offset(ids, w, a))) == 0,
        int_sum(Seq::new(ids.len(), |a: int| run_offset(ids, w, a) % (modulus() as int))) % (
        modulus() as int) == 0,
{
    let n = ids.len();
    let f = |a: int, b: int| signed(ids[a], ids[b], w(a, b));
    assert forall|a: int, b: int| 0 <= a < n && 0 <= b < n implies #[trigger] f(a, b) == -f(b, a) by {
        assert(w(a, b) == w(b, a));
        if a < b {
            assert(ids[a] < ids[b]);
        } else if b < a {
            assert(ids[b] < ids[a]);
        }
    }
    assert(antisymmetric(f, n));
    lemma_antisymmetric_total(f, n);
    assert forall|a: int| 0 <= a < n implies #[trigger] run_offset(ids, w, a) == row_total(f, a, n) by {
        let row = Seq::new(n, |b: int| f(a, b));
        let joints = Seq::new((n - 1) as nat, |j: int| w(a, peer_index(a, j)));
        assert(Seq::new(ids.remove(a).len(), |j: int| signed(ids[a], ids.remove(a)[j], joints[j]))
            =~= row.remove(a));
        lemma_sum_remove_zero(row, a);
    }
    lemma_sum_congruent(|a: int| run_offset(ids, w, a), |a: int| row_total(f, a, n), n);
    let g = |a: int| run_offset(ids, w, a);
    let m = modulus() as int;
    lemma_sum_mod(g, n);
    assert(Seq::new(n, |i: int| g(i) % m) =~= Seq::new(n, |a: int| run_offset(ids, w, a) % m));
    assert(Seq::new(n, g) =~= Seq::new(n, |a: int| run_offset(ids, w, a)));
    assert(int_sum(Seq::new(n, g)) == 0);
    crate::field::lemma_modulus_above_limb_base();
    vstd::arithmetic::div_mod::lemma_small_mod(0, modulus());
}

/// Key-share correctness: in a run where the members of every pair agree on
/// their joint value, masking each participant's value (its signing-key
/// share, or its `r`) with its offset keeps the sum over all participants:
/// the masked key shares of a slot sum to the secret key that the shares
/// were dealt from.
pub proof fn lemma_masked_sum(
    ids: Seq<ParticipantId>,
    w: spec_fn(int, int) -> int,
    values: Seq<nat>,
)
    requires
        strictly_increasing(ids),
        forall|a: int, b: int| 0 <= a < ids.len() && 0 <= b < ids.len() ==> #[trigger] w(a, b) == w(b, a),
        values.len() == ids.len(),
    ensures
        int_sum(
            Seq::new(
                ids.len(),
                |a: int| (values[a] + run_offset(ids, w, a) % (modulus() as int)) % (modulus() as int),
            ),
        ) % (modulus() as int) == int_sum(Seq::new(ids.len(), |a: int| values[a] as int)) % (
        modulus() as int),
{
    let n = ids.len();
    let m = modulus() as int;
    crate::field::lemma_modulus_above_limb_base();
    lemma_offsets_cancel(ids, w);
    let h = |a: int| values[a] + run_offset(ids, w, a);
    assert forall|a: int| 0 <= a < n implies #[trigger] ((values[a] + run_offset(ids, w, a) % m) % m)
        == h(a) % m by {
        vstd::arithmetic::div_mod::lemma_add_mod_noop_right(values[a] as int, run_offset(ids, w, a), m);
    }
    lemma_sum_congruent(
        |a: int| (values[a] + run_offset(ids, w, a) % m) % m,
        |i: int| h(i) % m,
        n,
    );
    lemma_sum_mod(h, n);
    crate::sums::lemma_sum_add(|a: int| values[a] as int, |a: int| run_offset(ids, w, a), n);
    assert(Seq::new(n, h) =~= Seq::new(n, |i: int| (|a: int| values[a] as int)(i) + (|a: int| run_offset(ids, w, a))(i)));
}

/// Reducing every term does not change the sum's residue.
pub proof fn lemma_sum_mod(g: spec_fn(int) -> int, n: nat)
    ensures
        int_sum(Seq::new(n, |i: int| g(i) % (modulus() as int))) % (modulus() as int) == int_sum(
            Seq::new(n, g),
        ) % (modulus() as int),
    decreases n,
{
    let m = modulus() as int;
    if n > 0 {
        let k = (n - 1) as nat;
        lemma_sum_mod(g, k);
        lemma_sum_step(|i: int| g(i) % m, k);
        lemma_sum_step(g, k);
        let a = int_sum(Seq::new(k, |i: int| g(i) % m));
        let b = int_sum(Seq::new(k, g));
        vstd::arithmetic::div_mod::lemma_add_mod_noop(a, g(k as int) % m, m);
        vstd::arithmetic::div_mod::lemma_add_mod_noop(b, g(k as int), m);
        vstd::arithmetic::div_mod::lemma_mod_twice(g(k as int), m);
    }
}

/// Tables whose entries agree modulo the field order have totals that agree.
pub proof fn lemma_table_mod(f: spec_fn(int, int) -> int, g: spec_fn(int, int) -> int, n: nat)
    requires
        forall|a: int, b: int|
            0 <= a < n && 0 <= b < n ==> #[trigger] (f(a, b) % (modulus() as int)) == g(a, b) % (
            modulus() as int),
    ensures
        table_total(f, n) % (modulus() as int) == table_total(g, n) % (modulus() as int),
{
    let m = modulus() as int;
    assert forall|a: int| 0 <= a < n implies #[trigger] (row_total(f, a, n) % m) == row_total(g, a, n)
        % m by {
        let fa = |b: int| f(a, b);
        let ga = |b: int| g(a, b);
        lemma_sum_mod(fa, n);
        lemma_sum_mod(ga, n);
        assert(Seq::new(n, |i: int| fa(i) % m) =~= Seq::new(n, |i: int| ga(i) % m));
        assert(Seq::new(n, fa) =~= Seq::new(n, |b: int| f(a, b)));
        assert(Seq::new(n, ga) =~= Seq::new(n, |b: int| g(a, b)));
    }
    let rf = |a: int| row_total(f, a, n);
    let rg = |a: int| row_total(g, a, n);
    lemma_sum_mod(rf, n);
    lemma_sum_mod(rg, n);
    assert(Seq::new(n, |i: int| rf(i) % m) =~= Seq::new(n, |i: int| rg(i) % m));
    assert(Seq::new(n, rf) =~= Seq::new(n, |a: int| row_total(f, a, n)));
    assert(Seq::new(n, rg) =~= Seq::new(n, |a: int| row_total(g, a, n)));
}

/// The field order is odd, so doubling can be undone modulo it.
pub proof fn lemma_halve_mod(a: int, b: int)
    requires
        (2 * a) % (modulus() as int) == (2 * b) % (modulus() as int),
    ensures
        a % (modulus() as int) == b % (modulus() as int),
{
    let m = modulus() as int;
    crate::field::lemma_modulus_above_limb_base();
    assert(m % 2 == 1);
    let h = (m + 1) / 2;
    assert(2 * h == m + 1);
    vstd::arithmetic::div_mod::lemma_mul_mod_noop_right(h, 2 * a, m);
    vstd::arithmetic::div_mod::lemma_mul_mod_noop_right(h, 2 * b, m);
    assert(h * (2 * a) == m * a + a) by (nonlinear_arith)
        requires
            2 * h == m + 1,
    ;
    assert(h * (2 * b) == m * b + b) by (nonlinear_arith)
        requires
            2 * h == m + 1,
    ;
    vstd::arithmetic::div_mod::lemma_mod_multiples_vanish(a, a, m);
    vstd::arithmetic::div_mod::lemma_mod_multiples_vanish(b, b, m);
}

/// `neg_mod` is the residue of the negation.
pub proof fn lemma_neg_mod(x: nat)
    requires
        x < modulus(),
    ensures
        neg_mod(x) as int == (-(x as int)) % (modulus() as int),
{
    let m = modulus() as int;
    vstd::arithmetic::div_mod::lemma_small_mod(x, modulus());
    if x > 0 {
        vstd::arithmetic::div_mod::lemma_mod_add_multiples_vanish(-(x as int), m);
        vstd::arithmetic::div_mod::lemma_small_mod((m - x) as nat, modulus());
    }
}

/// One participant of a zero-sharing: a two-party coin toss with each peer,
/// the peers in increasing order of id.
pub struct Party {
    id: ParticipantId,
    count: usize,
    others: Vec<ParticipantId>,
    tosses: Vec<cointoss::Party>,
}

impl Party {
    pub closed spec fn id(&self) -> ParticipantId {
        self.id
    }

    /// The number of offsets that are produced.
    pub closed spec fn count(&self) -> nat {
        self.count as nat
    }

    /// The peers, in increasing order of id.
    pub closed spec fn peers(&self) -> Seq<ParticipantId> {
        self.others@
    }

    /// The coin toss with the peer at position `j`.
    pub closed spec fn toss(&self, j: int) -> cointoss::Party {
        self.tosses@[j]
    }

    pub closed spec fn wf(&self) -> bool {
        &&& self.tosses.len() == self.others.len()
        &&& strictly_increasing(self.others@)
        &&& !self.others@.contains(self.id)
        &&& forall|j: int|
            0 <= j < self.others.len() ==> {
                &&& (#[trigger] self.tosses@[j]).wf()
                &&& self.tosses@[j].peers() == seq![self.others@[j]]
                &&& self.tosses@[j].id() == self.id
                &&& self.tosses@[j].own_shares().len() == self.count
            }
    }

    /// The joint value of slot `k` of the pair with the peer at position `j`.
    pub open spec fn pair_joint(&self, j: int, k: int) -> int {
        joint_value(self.toss(j).own_shares(), self.toss(j).received(), k) as int
    }

    /// Whether every pair's coin toss has all its values.
    pub open spec fn complete(&self) -> bool {
        forall|j: int| 0 <= j < self.peers().len() ==> #[trigger] self.toss(j).complete()
    }

    /// The offset of slot `k`.
    pub open spec fn offset(&self, k: int) -> nat {
        (offset_sum(
            self.id(),
            self.peers(),
            Seq::new(self.peers().len(), |j: int| self.pair_joint(j, k)),
        ) % (modulus() as int)) as nat
    }

    /// Starts a zero-sharing of `count` offsets: `own[j]` are this
    /// participant's random values for the pair with `others[j]`, and
    /// `salts[j]` its salt. Returns the state and, for each peer, the
    /// commitment sent to that peer alone.
    pub fn init(
        own: Vec<Vec<Scalar>>,
        salts: Vec<Vec<u8>>,
        id: ParticipantId,
        count: usize,
        others: Vec<ParticipantId>,
        protocol_id: Vec<u8>,
    ) -> (r: (Party, Vec<Vec<u8>>))
        requires
            strictly_increasing(others@),
            !others@.contains(id),
            own.len() == others.len(),
            salts.len() == others.len(),
            forall|j: int| 0 <= j < own.len() ==> (#[trigger] own@[j]).len() == count,
        ensures
            r.0.wf(),
            r.0.id() == id,
            r.0.count() == count,
            r.0.peers() == others@,
            r.1.len() == others.len(),
            forall|j: int|
                0 <= j < others.len() ==> {
                    &&& (#[trigger] r.0.toss(j)).own_shares() == own@[j]@
                    &&& r.0.toss(j).protocol_id() == protocol_id@
                    &&& r.0.toss(j).commitment_from(0).is_none()
                    &&& r.0.toss(j).shares_from(0).is_none()
                },
            forall|j: int|
                0 <= j < others.len() ==> (#[trigger] r.1@[j])@ == cointoss::commitment_to(
                    own@[j]@,
                    salts@[j]@,
                    id,
                    protocol_id@,
                ),
    {
        let ghost own0 = own@;
        let ghost salts0 = salts@;
        let n = others.len();
        let mut own = own;
        let mut salts = salts;
        let mut tosses: Vec<cointoss::Party> = Vec::new();
        let mut comms: Vec<Vec<u8>> = Vec::new();
        let mut j: usize = 0;
        while j < n
            invariant
                n == others.len(),
                j <= n,
                own@ == own0.subrange(j as int, n as int),
                salts@ == salts0.subrange(j as int, n as int),
                own0.len() == n,
                salts0.len() == n,
                forall|a: int| 0 <= a < n ==> (#[trigger] own0[a]).len() == count,
                strictly_increasing(others@),
                !others@.contains(id),
                tosses.len() == j,
                comms.len() == j,
                forall|a: int|
                    0 <= a < j ==> {
                        &&& (#[trigger] tosses@[a]).wf()
                        &&& tosses@[a].peers() == seq![others@[a]]
                        &&& tosses@[a].id() == id
                        &&& tosses@[a].own_shares() == own0[a]@
                        &&& tosses@[a].protocol_id() == protocol_id@
                        &&& tosses@[a].commitment_from(0).is_none()
                        &&& tosses@[a].shares_from(0).is_none()
                    },
                forall|a: int|
                    0 <= a < j ==> (#[trigger] comms@[a])@ == cointoss::commitment_to(
                        own0[a]@,
                        salts0[a]@,
                        id,
                        protocol_id@,
                    ),
            decreases n - j,
        {
            let values = own.remove(0);
            let salt = salts.remove(0);
            assert(values == own0[j as int]);
            assert(salt == salts0[j as int]);
            let peer = others[j];
            let pair = vec![peer];
            proof {
                assert(pair@ =~= seq![peer]);
                assert(others@.contains(peer));
            }
            let (toss, comm) = cointoss::Party::commit(values, salt, id, pair, protocol_id.clone());
            tosses.push(toss);
            comms.push(comm);
            proof {
                assert(own@ =~= own0.subrange(j + 1, n as int));
                assert(salts@ =~= salts0.subrange(j + 1, n as int));
            }
            j = j + 1;
        }
        (Party { id, count, others, tosses }, comms)
    }

    /// A peer's id stands at one position only.
    proof fn lemma_unique_position(&self, i: int)
        requires
            self.wf(),
            0 <= i < self.others.len(),
        ensures
            forall|a: int|
                0 <= a < self.others.len() && self.others@[a] == self.others@[i] ==> a == i,
    {
        assert forall|a: int| 0 <= a < self.others.len() && self.others@[a] == self.others@[i]
            implies a == i by {
            if a < i {
                assert(self.others@[a] < self.others@[i]);
            } else if a > i {
                assert(self.others@[i] < self.others@[a]);
            }
        }
    }

    /// The peers are distinct, in increasing order, and not this participant;
    /// the pair with each peer has that peer alone.
    pub proof fn lemma_peers_distinct(&self)
        requires
            self.wf(),
        ensures
            strictly_increasing(self.peers()),
            !self.peers().contains(self.id()),
            forall|j: int|
                0 <= j < self.peers().len() ==> (#[trigger] self.toss(j)).peers() == seq![
                    self.peers()[j],
                ] && self.toss(j).wf() && self.toss(j).own_shares().len() == self.count(),
    {
        assert forall|j: int| 0 <= j < self.peers().len() implies (#[trigger] self.toss(j)).peers()
            == seq![self.peers()[j]] && self.toss(j).wf() && self.toss(j).own_shares().len()
            == self.count() by {
            assert(self.tosses@[j].wf());
        }
    }

    /// Whether the peer at position `j` has sent its commitment.
    pub fn has_commitment(&self, j: usize) -> (r: bool)
        requires
            self.wf(),
            j < self.peers().len(),
        ensures
            r == self.toss(j as int).commitment_from(0).is_some(),
    {
        assert(self.tosses@[j as int].wf());
        self.tosses[j].has_commitment(0)
    }

    /// Checks, without recording anything, what revealing `shares` and
    /// `salt` as the peer at position `j` would give.
    pub fn check_shares(&self, j: usize, shares: &Vec<Scalar>, salt: &Vec<u8>) -> (r: Result<
        (),
        BBSPlusError,
    >)
        requires
            self.wf(),
            j < self.peers().len(),
        ensures
            r == self.toss(j as int).reveal_outcome(0, shares@, salt@),
    {
        assert(self.tosses@[j as int].wf());
        assert(self.tosses@[j as int].peers().len() == 1);
        self.tosses[j].check_shares(0, shares, salt)
    }

    /// Records the commitment that peer `sender` sent for the pair with it.
    pub fn receive_commitment(&mut self, sender: ParticipantId, commitment: Vec<u8>) -> (r: Result<
        (),
        BBSPlusError,
    >)
        requires
            old(self).wf(),
        ensures
            final(self).wf(),
            final(self).id() == old(self).id(),
            final(self).count() == old(self).count(),
            final(self).peers() == old(self).peers(),
            !old(self).peers().contains(sender) ==> r == Err::<(), BBSPlusError>(
                BBSPlusError::UnknownParticipant(sender),
            ),
            forall|j: int|
                0 <= j < old(self).peers().len() && old(self).peers()[j] == sender ==> {
                    if old(self).toss(j).commitment_from(0).is_some() {
                        r == Err::<(), BBSPlusError>(BBSPlusError::DuplicateParticipant(sender))
                    } else {
                        &&& r is Ok
                        &&& final(self).toss(j).commitment_from(0) == Some(commitment@)
                        &&& final(self).toss(j).shares_from(0) == old(self).toss(j).shares_from(0)
                        &&& final(self).toss(j).own_shares() == old(self).toss(j).own_shares()
                        &&& final(self).toss(j).protocol_id() == old(self).toss(j).protocol_id()
                    }
                },
            forall|j: int|
                0 <= j < old(self).peers().len() && old(self).peers()[j] != sender
                    ==> #[trigger] final(self).toss(j) == old(self).toss(j),
            r is Err ==> forall|j: int|
                0 <= j < old(self).peers().len() ==> #[trigger] final(self).toss(j) == old(
                    self,
                ).toss(j),
    {
        match position(&self.others, sender) {
            None => Err(BBSPlusError::UnknownParticipant(sender)),
            Some(j) => {
                proof {
                    self.lemma_unique_position(j as int);
                }
                let ghost before = self.tosses@;
                let mut toss = self.tosses.remove(j);
                assert(toss == before[j as int]);
                assert(toss.peers() == seq![sender]);
                assert(toss.peers()[0] == sender);
                assert(toss.peers().contains(sender));
                assert(toss.peers().len() == 1);
                let r = toss.receive_commitment(sender, commitment);
                if r.is_err() {
                    self.tosses.insert(j, toss);
                    assert(self.tosses@ =~= before);
                    return r;
                }
                self.tosses.insert(j, toss);
                proof {
                    assert forall|a: int| 0 <= a < self.others.len() && a != j implies
                        #[trigger] self.tosses@[a] == before[a] by {}
                    assert(self.tosses@[j as int] == toss);
                }
                r
            },
        }
    }

    /// Records the values and salt that peer `sender` revealed for the pair
    /// with it, after checking them against its commitment.
    pub fn receive_shares(&mut self, sender: ParticipantId, shares: Vec<Scalar>, salt: Vec<u8>) -> (r:
        Result<(), BBSPlusError>)
        requires
            old(self).wf(),
        ensures
            final(self).wf(),
            final(self).id() == old(self).id(),
            final(self).count() == old(self).count(),
            final(self).peers() == old(self).peers(),
            !old(self).peers().contains(sender) ==> r == Err::<(), BBSPlusError>(
                BBSPlusError::UnknownParticipant(sender),
            ),
            forall|j: int|
                0 <= j < old(self).peers().len() && old(self).peers()[j] == sender ==> {
                    let t = old(self).toss(j);
                    &&& r == t.reveal_outcome(0, shares@, salt@)
                    &&& r is Ok ==> {
                        &&& final(self).toss(j).shares_from(0) == Some(shares@)
                        &&& final(self).toss(j).commitment_from(0) == t.commitment_from(0)
                        &&& final(self).toss(j).own_shares() == t.own_shares()
                        &&& final(self).toss(j).protocol_id() == t.protocol_id()
                    }
                },
            forall|j: int|
                0 <= j < old(self).peers().len() && old(self).peers()[j] != sender
                    ==> #[trigger] final(self).toss(j) == old(self).toss(j),
            r is Err ==> forall|j: int|
                0 <= j < old(self).peers().len() ==> #[trigger] final(self).toss(j) == old(
                    self,
                ).toss(j),
    {
        match position(&self.others, sender) {
            None => Err(BBSPlusError::UnknownParticipant(sender)),
            Some(j) => {
                proof {
                    self.lemma_unique_position(j as int);
                }
                let ghost before = self.tosses@;
                let mut toss = self.tosses.remove(j);
                assert(toss == before[j as int]);
                assert(toss.peers() == seq![sender]);
                assert(toss.peers()[0] == sender);
                let r = toss.receive_shares(sender, shares, salt);
                if r.is_err() {
                    self.tosses.insert(j, toss);
                    assert(self.tosses@ =~= before);
                    return r;
                }
                self.tosses.insert(j, toss);
                proof {
                    assert forall|a: int| 0 <= a < self.others.len() && a != j implies
                        #[trigger] self.tosses@[a] == before[a] by {}
                    assert(self.tosses@[j as int] == toss);
                }
                r
            },
        }
    }

    /// The offsets: for each slot, the sum over the peers of the pair's joint
    /// value, added when this participant has the lower id and subtracted
    /// otherwise. Fails while a peer has not revealed its values.
    pub fn finish(&self) -> (r: Result<Vec<Scalar>, BBSPlusError>)
        requires
            self.wf(),
        ensures
            r is Err <==> !self.complete(),
            r is Err ==> r == Err::<Vec<Scalar>, BBSPlusError>(BBSPlusError::IncompleteRound),
            r is Ok ==> r.unwrap().len() == self.count() && forall|k: int|
                0 <= k < self.count() ==> #[trigger] r.unwrap()@[k].val() == self.offset(k),
    {
        let n = self.others.len();
        let mut joints: Vec<Vec<Scalar>> = Vec::new();
        let mut j: usize = 0;
        while j < n
            invariant
                self.wf(),
                n == self.others.len(),
                j <= n,
                joints.len() == j,
                forall|a: int| 0 <= a < j ==> #[trigger] self.toss(a).complete(),
                forall|a: int|
                    0 <= a < j ==> (#[trigger] joints@[a]).len() == self.count && forall|k: int|
                        0 <= k < self.count ==> #[trigger] joints@[a]@[k].val() == self.pair_joint(
                            a,
                            k,
                        ),
            decreases n - j,
        {
            assert(self.tosses@[j as int].wf());
            match self.tosses[j].finish() {
                Err(e) => {
                    assert(self.toss(j as int) == self.tosses@[j as int]);
                    assert(!self.toss(j as int).complete());
                    return Err(e);
                },
                Ok(v) => {
                    assert(self.toss(j as int) == self.tosses@[j as int]);
                    joints.push(v);
                },
            }
            j = j + 1;
        }
        let mut offsets: Vec<Scalar> = Vec::new();
        let mut k: usize = 0;
        while k < self.count
            invariant
                self.wf(),
                self.complete(),
                n == self.others.len(),
                joints.len() == n,
                forall|a: int|
                    0 <= a < n ==> (#[trigger] joints@[a]).len() == self.count && forall|k: int|
                        0 <= k < self.count ==> #[trigger] joints@[a]@[k].val() == self.pair_joint(
                            a,
                            k,
                        ),
                k <= self.count,
                offsets.len() == k,
                forall|a: int| 0 <= a < k ==> #[trigger] offsets@[a].val() == self.offset(a),
            decreases self.count - k,
        {
            let ghost terms = Seq::new(n as nat, |a: int| signed(self.id, self.others@[a], self.pair_joint(a, k as int)));
            let mut sum = Scalar::zero();
            proof {
                crate::field::lemma_modulus_above_limb_base();
                assert(terms.take(0) =~= Seq::<int>::empty());
                vstd::arithmetic::div_mod::lemma_small_mod(0, modulus());
            }
            let mut j: usize = 0;
            while j < n
                invariant
                    self.wf(),
                    n == self.others.len(),
                    joints.len() == n,
                    forall|a: int|
                        0 <= a < n ==> (#[trigger] joints@[a]).len() == self.count && forall|k: int|
                            0 <= k < self.count ==> #[trigger] joints@[a]@[k].val()
                                == self.pair_joint(a, k),
                    k < self.count,
                    j <= n,
                    terms == Seq::new(n as nat, |a: int| signed(self.id, self.others@[a], self.pair_joint(a, k as int))),
                    sum.val() == int_sum(terms.take(j as int)) % (modulus() as int),
                decreases n - j,
            {
                let x = &joints[j][k];
                let ghost prev = int_sum(terms.take(j as int));
                proof {
                    x.lemma_val_bound();
                    assert(terms.take(j + 1).drop_last() =~= terms.take(j as int));
                    assert(x.val() == self.pair_joint(j as int, k as int));
                    assert(self.others@[j as int] != self.id) by {
                        assert(self.others@.contains(self.others@[j as int]));
                    }
                }
                if self.id < self.others[j] {
                    sum = field::add(&sum, x);
                    proof {
                        vstd::arithmetic::div_mod::lemma_add_mod_noop(prev, x.val() as int, modulus() as int);
                        vstd::arithmetic::div_mod::lemma_small_mod(x.val(), modulus());
                        vstd::arithmetic::div_mod::lemma_mod_twice(prev, modulus() as int);
                    }
                } else {
                    let y = field::neg(x);
                    sum = field::add(&sum, &y);
                    proof {
                        lemma_neg_mod(x.val());
                        vstd::arithmetic::div_mod::lemma_add_mod_noop(prev, -(x.val() as int), modulus() as int);
                        vstd::arithmetic::div_mod::lemma_mod_twice(prev, modulus() as int);
                    }
                }
                j = j + 1;
            }
            proof {
                assert(terms.take(n as int) =~= terms);
                assert(Seq::new(self.peers().len(), |a: int| self.pair_joint(a, k as int)).len() == n);
                assert(Seq::new(
                    self.peers().len(),
                    |a: int| signed(self.id(), self.peers()[a], Seq::new(self.peers().len(), |b: int| self.pair_joint(b, k as int))[a]),
                ) =~= terms);
            }
            offsets.push(sum);
            k = k + 1;
        }
        Ok(offsets)
    }
}

} // verus!
