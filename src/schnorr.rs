//! Schnorr protocol to prove knowledge of one or more discrete logs:
//! commitment to blindings, responses to a challenge, and their check.

use crate::cointoss::{blake2b512, blake2b512_of, bytes_equal};
use crate::field::{self, le_value, modulus, Scalar};
use crate::group::{self, encodings, g1_multi_scaled, vals, Point};
use vstd::prelude::*;

verus! {

#[derive(Debug, PartialEq, Eq)]
pub enum SchnorrError {
    /// Two sequences that must have the same length have these lengths.
    ExpectedSameSizeSequences(usize, usize),
    /// The index (first) is not below the length (second).
    IndexOutOfBounds(usize, usize),
    /// The responses do not satisfy the verification equation.
    InvalidResponse,
}

/// Something that contributes bytes to the challenge of a Schnorr protocol.
pub trait SchnorrChallengeContributor {
    /// The bytes that this item contributes to the challenge.
    spec fn contribution(&self) -> Seq<u8>;

    /// Appends this item's contribution to the challenge bytes.
    fn challenge_contribution(&self, writer: &mut Vec<u8>) -> (r: Result<(), SchnorrError>)
        ensures
            r is Ok,
            final(writer)@ == old(writer)@ + self.contribution(),
    ;
}

/// Commitment to the blindings in step 1 of the protocol.
pub struct SchnorrCommitment {
    /// One blinding per discrete log.
    pub blindings: Vec<Scalar>,
    /// `sum bases[i] * blindings[i]`.
    pub t: Point,
}

/// The shorter of two lengths.
pub open spec fn min_len(a: nat, b: nat) -> nat {
    if a < b {
        a
    } else {
        b
    }
}

/// The first `n` items of a vector.
fn prefix<T: Copy>(v: &Vec<T>, n: usize) -> (r: Vec<T>)
    requires
        n <= v.len(),
    ensures
        r@ == v@.take(n as int),
{
    let mut r: Vec<T> = Vec::new();
    let mut i: usize = 0;
    while i < n
        invariant
            n <= v.len(),
            i <= n,
            r@ == v@.take(i as int),
        decreases n - i,
    {
        r.push(v[i]);
        proof {
            assert(v@.take(i + 1) =~= v@.take(i as int).push(v@[i as int]));
        }
        i = i + 1;
    }
    r
}

impl SchnorrCommitment {
    /// Commits as `bases[0] * blindings[0] + ... + bases[i] * blindings[i]`.
    /// Extra bases or blindings are ignored.
    pub fn new(bases: &Vec<Point>, blindings: Vec<Scalar>) -> (r: Self)
        ensures
            r.blindings@ == blindings@,
            r.t@ == g1_multi_scaled(
                encodings(bases@.take(min_len(bases.len() as nat, blindings.len() as nat) as int)),
                vals(blindings@.take(min_len(bases.len() as nat, blindings.len() as nat) as int)),
            ),
    {
        let n = if bases.len() < blindings.len() {
            bases.len()
        } else {
            blindings.len()
        };
        let mut used_bases: Vec<Point> = Vec::new();
        let mut i: usize = 0;
        while i < n
            invariant
                n <= bases.len(),
                i <= n,
                encodings(used_bases@) =~= encodings(bases@.take(i as int)),
                used_bases.len() == i,
            decreases n - i,
        {
            let ghost before = used_bases@;
            used_bases.push(bases[i].clone());
            proof {
                assert(bases@.take(i + 1) =~= bases@.take(i as int).push(bases@[i as int]));
                assert(encodings(used_bases@) =~= encodings(before).push(bases@[i as int]@));
                assert(encodings(bases@.take(i + 1)) =~= encodings(bases@.take(i as int)).push(
                    bases@[i as int]@,
                ));
            }
            i = i + 1;
        }
        let used_blindings = prefix(&blindings, n);
        let t = group::multi_scale(&used_bases, &used_blindings);
        SchnorrCommitment { blindings, t }
    }

    /// The responses `blindings[i] + witnesses[i] * challenge`, one per witness.
    pub fn response(&self, witnesses: &Vec<Scalar>, challenge: &Scalar) -> (r: Result<
        SchnorrResponse,
        SchnorrError,
    >)
        ensures
            self.blindings.len() != witnesses.len() ==> r == Err::<SchnorrResponse, SchnorrError>(
                SchnorrError::ExpectedSameSizeSequences(self.blindings.len(), witnesses.len()),
            ),
            self.blindings.len() == witnesses.len() ==> r is Ok && r.unwrap().0.len()
                == witnesses.len() && forall|i: int|
                0 <= i < witnesses.len() ==> #[trigger] r.unwrap().0@[i].val() == (
                self.blindings@[i].val() + (witnesses@[i].val() * challenge.val()) % modulus())
                    % modulus(),
    {
        if self.blindings.len() != witnesses.len() {
            return Err(
                SchnorrError::ExpectedSameSizeSequences(self.blindings.len(), witnesses.len()),
            );
        }
        let mut responses: Vec<Scalar> = Vec::new();
        let mut i: usize = 0;
        while i < witnesses.len()
            invariant
                self.blindings.len() == witnesses.len(),
                i <= witnesses.len(),
                responses.len() == i,
                forall|a: int|
                    0 <= a < i ==> #[trigger] responses@[a].val() == (self.blindings@[a].val() + (
                    witnesses@[a].val() * challenge.val()) % modulus()) % modulus(),
            decreases witnesses.len() - i,
        {
            let wc = field::mul(&witnesses[i], challenge);
            responses.push(field::add(&self.blindings[i], &wc));
            i = i + 1;
        }
        Ok(SchnorrResponse(responses))
    }
}

impl SchnorrChallengeContributor for SchnorrCommitment {
    /// Appends the encoding of `t`. The bases and `y` are not included and
    /// must be part of the challenge too.
    open spec fn contribution(&self) -> Seq<u8> {
        self.t@
    }

    fn challenge_contribution(&self, writer: &mut Vec<u8>) -> (r: Result<(), SchnorrError>) {
        let bytes = self.t.to_bytes();
        let ghost start = writer@;
        let mut i: usize = 0;
        while i < bytes.len()
            invariant
                i <= bytes.len(),
                writer@ == start + bytes@.take(i as int),
            decreases bytes.len() - i,
        {
            writer.push(bytes[i]);
            proof {
                assert(bytes@.take(i + 1) =~= bytes@.take(i as int).push(bytes@[i as int]));
            }
            i = i + 1;
        }
        assert(bytes@.take(bytes.len() as int) =~= bytes@);
        Ok(())
    }
}

/// Responses in step 3 of the protocol, one per discrete log.
pub struct SchnorrResponse(pub Vec<Scalar>);

impl SchnorrResponse {
    /// Checks `bases[0] * responses[0] + ... + bases[i] * responses[i] - y * challenge == t`.
    pub fn is_valid(&self, bases: &Vec<Point>, y: &Point, t: &Point, challenge: &Scalar) -> (r:
        Result<(), SchnorrError>)
        ensures
            self.0.len() != bases.len() ==> r == Err::<(), SchnorrError>(
                SchnorrError::ExpectedSameSizeSequences(self.0.len(), bases.len()),
            ),
            self.0.len() == bases.len() ==> {
                let lhs = g1_multi_scaled(
                    encodings(bases@).push(y@),
                    vals(self.0@).push(field::neg_mod(challenge.val())),
                );
                &&& (r is Ok <==> lhs == t@)
                &&& (r is Err ==> r == Err::<(), SchnorrError>(SchnorrError::InvalidResponse))
            },
    {
        if self.0.len() != bases.len() {
            return Err(SchnorrError::ExpectedSameSizeSequences(self.0.len(), bases.len()));
        }
        let mut all_bases: Vec<Point> = Vec::new();
        let mut scalars: Vec<Scalar> = Vec::new();
        let mut i: usize = 0;
        while i < bases.len()
            invariant
                self.0.len() == bases.len(),
                i <= bases.len(),
                all_bases.len() == i,
                scalars.len() == i,
                encodings(all_bases@) =~= encodings(bases@.take(i as int)),
                scalars@ == self.0@.take(i as int),
            decreases bases.len() - i,
        {
            let ghost before = all_bases@;
            all_bases.push(bases[i].clone());
            scalars.push(self.0[i]);
            proof {
                assert(bases@.take(i + 1) =~= bases@.take(i as int).push(bases@[i as int]));
                assert(encodings(all_bases@) =~= encodings(before).push(bases@[i as int]@));
                assert(encodings(bases@.take(i + 1)) =~= encodings(bases@.take(i as int)).push(
                    bases@[i as int]@,
                ));
                assert(self.0@.take(i + 1) =~= self.0@.take(i as int).push(self.0@[i as int]));
            }
            i = i + 1;
        }
        let ghost before_bases = all_bases@;
        let ghost before_scalars = scalars@;
        all_bases.push(y.clone());
        scalars.push(field::neg(challenge));
        proof {
            assert(bases@.take(bases.len() as int) =~= bases@);
            assert(self.0@.take(self.0.len() as int) =~= self.0@);
            assert(encodings(all_bases@) =~= encodings(before_bases).push(y@));
            assert(vals(scalars@) =~= vals(before_scalars).push(scalars@.last().val()));
        }
        let lhs = group::multi_scale(&all_bases, &scalars);
        if bytes_equal(&lhs.to_bytes(), &t.to_bytes()) {
            Ok(())
        } else {
            Err(SchnorrError::InvalidResponse)
        }
    }

    /// The response for the discrete log at `idx`.
    pub fn get_response(&self, idx: usize) -> (r: Result<&Scalar, SchnorrError>)
        ensures
            idx >= self.0.len() ==> r == Err::<&Scalar, SchnorrError>(
                SchnorrError::IndexOutOfBounds(idx, self.0.len()),
            ),
            idx < self.0.len() ==> r == Ok::<&Scalar, SchnorrError>(&self.0@[idx as int]),
    {
        if idx >= self.0.len() {
            return Err(SchnorrError::IndexOutOfBounds(idx, self.0.len()));
        }
        Ok(&self.0[idx])
    }

    /// The number of responses.
    pub fn len(&self) -> (r: usize)
        ensures
            r == self.0.len(),
    {
        self.0.len()
    }
}

/// The challenge of a non-interactive protocol: the Blake2b-512 digest of
/// the challenge bytes, read little-endian and reduced modulo the field order.
/// This is a reduction of the digest, not try-and-increment (hashing with a
/// counter until the digest is below the order): challenges derived by
/// try-and-increment differ from these.
pub fn compute_random_oracle_challenge(challenge_bytes: &Vec<u8>) -> (r: Scalar)
    ensures
        r.val() == le_value(blake2b512_of(challenge_bytes@)) % modulus(),
{
    let digest = blake2b512(challenge_bytes);
    field::from_le_bytes_mod_order(&digest)
}

} // verus!
