//! Public parameters of BBS+ signatures in G1, and the Phase 2 output that
//! signature shares are built from.

use crate::error::{BBSPlusError, ParticipantId};
use crate::field::Scalar;
use crate::group::{self, encodings, g1_multi_scaled, g1_sum, vals, Point};
use vstd::prelude::*;

verus! {

/// Generators of BBS+ signatures: `g1`, `h_0` for `s`, and one `h[i]` per
/// message.
pub struct SignatureParamsG1 {
    pub g1: Point,
    pub h_0: Point,
    pub h: Vec<Point>,
}

/// Whether the indices of the messages are in range and strictly increasing.
pub open spec fn valid_message_indices(indices: Seq<usize>, count: nat) -> bool {
    &&& forall|a: int| 0 <= a < indices.len() ==> #[trigger] indices[a] < count
    &&& forall|a: int, b: int| 0 <= a < b < indices.len() ==> indices[a] < indices[b]
}

/// The first message index that is out of range or not above the one before.
pub open spec fn first_invalid_index(indices: Seq<usize>, count: nat, a: int) -> bool {
    &&& 0 <= a < indices.len()
    &&& (indices[a] >= count || (a > 0 && indices[a] <= indices[a - 1]))
    &&& valid_message_indices(indices.take(a), count)
}

impl SignatureParamsG1 {
    /// The number of messages that a signature covers.
    pub fn supported_message_count(&self) -> (r: usize)
        ensures
            r == self.h.len(),
    {
        self.h.len()
    }

    /// The bases of `b` for messages at `indices`: `h_0`, then `h[i]` per index.
    pub open spec fn b_bases(&self, indices: Seq<usize>) -> Seq<Seq<u8>> {
        seq![self.h_0@] + indices.map_values(|i: usize| self.h@[i as int]@)
    }

    /// `b = g1 + h_0 * s + sum h[i] * m_i` for messages `m_i` at indices `i`.
    pub open spec fn b_spec(&self, indices: Seq<usize>, messages: Seq<Scalar>, s: Scalar) -> Seq<u8> {
        g1_sum(self.g1@, g1_multi_scaled(self.b_bases(indices), seq![s.val()] + vals(messages)))
    }

    /// Computes `b` for the messages `messages[a]` at indices `indices[a]`,
    /// which must be in range and strictly increasing.
    pub fn b(&self, indices: &Vec<usize>, messages: &Vec<Scalar>, s: &Scalar) -> (r: Result<Point, BBSPlusError>)
        requires
            indices.len() == messages.len(),
        ensures
            r is Ok <==> valid_message_indices(indices@, self.h.len() as nat),
            r is Ok ==> r.unwrap()@ == self.b_spec(indices@, messages@, *s),
            r is Err ==> exists|a: int|
                first_invalid_index(indices@, self.h.len() as nat, a) && r == Err::<Point, BBSPlusError>(
                    BBSPlusError::InvalidMessageIndex(indices@[a]),
                ),
    {
        let mut bases: Vec<Point> = Vec::new();
        let mut scalars: Vec<Scalar> = Vec::new();
        bases.push(self.h_0.clone());
        scalars.push(s.clone());
        let mut a: usize = 0;
        while a < indices.len()
            invariant
                a <= indices.len(),
                indices.len() == messages.len(),
                valid_message_indices(indices@.take(a as int), self.h.len() as nat),
                bases.len() == a + 1,
                scalars.len() == a + 1,
                encodings(bases@) =~= self.b_bases(indices@.take(a as int)),
                vals(scalars@) =~= seq![s.val()] + vals(messages@.take(a as int)),
            decreases indices.len() - a,
        {
            let i = indices[a];
            if i >= self.h.len() || (a > 0 && i <= indices[a - 1]) {
                assert(first_invalid_index(indices@, self.h.len() as nat, a as int));
                return Err(BBSPlusError::InvalidMessageIndex(i));
            }
            let ghost old_bases = bases@;
            let ghost old_scalars = scalars@;
            let p = self.h[i].clone();
            let x = messages[a].clone();
            bases.push(p);
            scalars.push(x);
            proof {
                assert(indices@.take(a + 1) =~= indices@.take(a as int).push(i));
                assert(messages@.take(a + 1) =~= messages@.take(a as int).push(messages@[a as int]));
                assert(encodings(bases@) =~= encodings(old_bases).push(p@));
                assert(vals(scalars@) =~= vals(old_scalars).push(x.val()));
                assert(self.b_bases(indices@.take(a + 1)) =~= self.b_bases(indices@.take(a as int)).push(
                    self.h@[i as int]@,
                ));
                assert(vals(messages@.take(a + 1)) =~= vals(messages@.take(a as int)).push(
                    messages@[a as int].val(),
                ));
                assert(encodings(bases@) =~= self.b_bases(indices@.take(a + 1)));
                assert(vals(scalars@) =~= seq![s.val()] + vals(messages@.take(a + 1)));
                let t = indices@.take(a + 1);
                assert forall|x: int, y: int| 0 <= x < y < t.len() implies t[x] < t[y] by {
                    if y == a && x < a - 1 {
                        assert(indices@.take(a as int)[x] < indices@.take(a as int)[a - 1]);
                    }
                }
            }
            a = a + 1;
        }
        proof {
            assert(indices@.take(indices.len() as int) =~= indices@);
            assert(messages@.take(messages.len() as int) =~= messages@);
        }
        let sum = group::multi_scale(&bases, &scalars);
        Ok(group::add(&self.g1, &sum))
    }
}

/// What Phase 2 (the pairwise multiplication) hands to one participant: for
/// each peer, in the order of the peers, additive shares of the two cross
/// products of each signature of the batch. `z_a` holds the shares of the
/// pairs where this participant took the first role, `z_b` the others.
pub struct Phase2Output {
    pub id: ParticipantId,
    pub batch_size: usize,
    pub z_a: Vec<(Vec<Scalar>, Vec<Scalar>)>,
    pub z_b: Vec<(Vec<Scalar>, Vec<Scalar>)>,
}

/// Whether every list of shares has one entry per signature of the batch.
pub open spec fn cross_shares_sized(z: Seq<(Vec<Scalar>, Vec<Scalar>)>, batch_size: nat) -> bool {
    forall|j: int|
        0 <= j < z.len() ==> (#[trigger] z[j]).0.len() == batch_size && z[j].1.len() == batch_size
}

impl Phase2Output {
    pub open spec fn wf(&self) -> bool {
        &&& cross_shares_sized(self.z_a@, self.batch_size as nat)
        &&& cross_shares_sized(self.z_b@, self.batch_size as nat)
    }
}

} // verus!
