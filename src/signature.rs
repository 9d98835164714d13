//! Signature shares and their aggregation into a BBS+ signature.

use crate::error::{BBSPlusError, ParticipantId};
use crate::field::{self, modulus, Scalar};
use crate::setup::valid_message_indices;
use crate::group::{self, g1_scaled, g1_sum, Point};
use crate::phase1::Phase1Output;
use crate::setup::{Phase2Output, SignatureParamsG1};
use crate::sums::{
    int_sum, lemma_sum_add, lemma_sum_congruent, lemma_sum_scale, lemma_sum_single,
    lemma_table_add, lemma_table_congruent, lemma_table_product, lemma_table_transpose, row_total,
    table_total, transpose,
};
use crate::zero_sharing::{lemma_halve_mod, lemma_table_mod};
use vstd::arithmetic::power::pow;
use vstd::prelude::*;

verus! {

/// A BBS+ signature `(A, e, s)`.
#[allow(non_snake_case)]
pub struct SignatureG1 {
    pub A: Point,
    pub e: Scalar,
    pub s: Scalar,
}

/// One signer's share of a BBS+ signature. A client aggregates the shares of
/// all signers into the signature.
#[allow(non_snake_case)]
pub struct BBSPlusSignatureShare {
    pub id: ParticipantId,
    pub e: Scalar,
    pub s: Scalar,
    pub u: Scalar,
    pub R: Point,
}

/// The multiplicative inverse of a non-zero `a`, as Fermat's little theorem gives it.
pub open spec fn inv_val(a: nat) -> nat {
    (pow(a as int, (modulus() - 2) as nat) % (modulus() as int)) as nat
}

/// Whether share `i` carries the same `e` and `s` as the first share.
pub open spec fn agrees_with_first(shares: Seq<BBSPlusSignatureShare>, i: int) -> bool {
    shares[i].e.val() == shares[0].e.val() && shares[i].s.val() == shares[0].s.val()
}

/// Whether every share carries the `e` and `s` of the first.
pub open spec fn all_agree(shares: Seq<BBSPlusSignatureShare>) -> bool {
    forall|i: int| 0 <= i < shares.len() ==> agrees_with_first(shares, i)
}

/// Whether `i` is the first share that disagrees with the first share.
pub open spec fn first_disagreement(shares: Seq<BBSPlusSignatureShare>, i: int) -> bool {
    &&& 0 < i < shares.len()
    &&& !agrees_with_first(shares, i)
    &&& forall|j: int| 0 < j < i ==> agrees_with_first(shares, j)
}

/// The sum of the `u` values of the shares.
pub open spec fn u_sum(shares: Seq<BBSPlusSignatureShare>) -> nat
    decreases shares.len(),
{
    if shares.len() == 0 {
        0
    } else {
        (u_sum(shares.drop_last()) + shares.last().u.val()) % modulus()
    }
}

/// The sum of the `R` points of a non-empty sequence of shares, left to right.
pub open spec fn r_sum(shares: Seq<BBSPlusSignatureShare>) -> Seq<u8>
    decreases shares.len(),
{
    if shares.len() <= 1 {
        shares[0].R@
    } else {
        g1_sum(r_sum(shares.drop_last()), shares.last().R@)
    }
}

/// The sum of both cross-product shares of slot `k` over all peers.
pub open spec fn cross_terms(z: Seq<(Vec<Scalar>, Vec<Scalar>)>, k: int) -> int {
    int_sum(Seq::new(z.len(), |j: int| (z[j].0@[k].val() + z[j].1@[k].val()) as int))
}

/// A participant's `u` for slot `k`:
/// `masked_r * (e + masked_key_share) + sum of its cross-product shares`.
pub open spec fn u_spec(
    e: nat,
    masked_r: nat,
    masked_signing_key_share: nat,
    phase2: Phase2Output,
    k: int,
) -> nat {
    ((((masked_r * ((e + masked_signing_key_share) % modulus())) % modulus()) as int + cross_terms(
        phase2.z_a@,
        k,
    ) + cross_terms(phase2.z_b@, k)) % (modulus() as int)) as nat
}

/// Adds to `u` both cross-product shares of slot `k` of every peer.
fn add_cross_terms(u: Scalar, z: &Vec<(Vec<Scalar>, Vec<Scalar>)>, k: usize) -> (r: Scalar)
    requires
        forall|j: int| 0 <= j < z.len() ==> k < (#[trigger] z@[j]).0.len() && k < z@[j].1.len(),
    ensures
        r.val() as int == (u.val() + cross_terms(z@, k as int)) % (modulus() as int),
{
    let ghost m = modulus() as int;
    let ghost terms = Seq::new(z@.len(), |j: int| (z@[j].0@[k as int].val() + z@[j].1@[k as int].val()) as int);
    let ghost u0 = u.val() as int;
    let mut acc = u;
    proof {
        crate::field::lemma_modulus_above_limb_base();
        acc.lemma_val_bound();
        assert(terms.take(0) =~= Seq::<int>::empty());
        vstd::arithmetic::div_mod::lemma_small_mod(acc.val(), modulus());
    }
    let mut j: usize = 0;
    while j < z.len()
        invariant
            forall|j: int| 0 <= j < z.len() ==> k < (#[trigger] z@[j]).0.len() && k < z@[j].1.len(),
            j <= z.len(),
            m == modulus() as int,
            m > 0,
            terms == Seq::new(z@.len(), |j: int| (z@[j].0@[k as int].val() + z@[j].1@[k as int].val()) as int),
            acc.val() as int == (u0 + int_sum(terms.take(j as int))) % m,
        decreases z.len() - j,
    {
        let x = &z[j].0[k];
        let y = &z[j].1[k];
        let ghost prev = u0 + int_sum(terms.take(j as int));
        let a1 = field::add(&acc, x);
        acc = field::add(&a1, y);
        proof {
            x.lemma_val_bound();
            y.lemma_val_bound();
            assert(terms.take(j + 1).drop_last() =~= terms.take(j as int));
            vstd::arithmetic::div_mod::lemma_add_mod_noop(prev, x.val() as int, m);
            vstd::arithmetic::div_mod::lemma_small_mod(x.val(), m as nat);
            vstd::arithmetic::div_mod::lemma_mod_twice(prev, m);
            vstd::arithmetic::div_mod::lemma_add_mod_noop(prev + x.val(), y.val() as int, m);
            vstd::arithmetic::div_mod::lemma_small_mod(y.val(), m as nat);
            vstd::arithmetic::div_mod::lemma_mod_twice(prev + x.val(), m);
        }
        j = j + 1;
    }
    proof {
        assert(terms.take(z.len() as int) =~= terms);
    }
    acc
}

/// A participant's contribution to `A` and to its divisor for the
/// signature at `index_in_output`: `R = base * r` and `u` as in `u_spec`.
#[allow(non_snake_case)]
pub fn compute_R_and_u(
    base: &Point,
    r: &Scalar,
    e: &Scalar,
    masked_r: &Scalar,
    masked_signing_key_share: &Scalar,
    index_in_output: usize,
    phase2: &Phase2Output,
) -> (res: (Point, Scalar))
    requires
        phase2.wf(),
        index_in_output < phase2.batch_size,
    ensures
        res.0@ == g1_scaled(base@, r.val()),
        res.1.val() == u_spec(e.val(), masked_r.val(), masked_signing_key_share.val(), *phase2, index_in_output as int),
{
    let R = group::scale(base, r);
    let sum = field::add(e, masked_signing_key_share);
    let u0 = field::mul(masked_r, &sum);
    let u1 = add_cross_terms(u0, &phase2.z_a, index_in_output);
    let u2 = add_cross_terms(u1, &phase2.z_b, index_in_output);
    proof {
        let m = modulus() as int;
        crate::field::lemma_modulus_above_limb_base();
        let a = cross_terms(phase2.z_a@, index_in_output as int);
        let b = cross_terms(phase2.z_b@, index_in_output as int);
        vstd::arithmetic::div_mod::lemma_add_mod_noop_right(b, u0.val() + a, m);
    }
    (R, u2)
}

/// The cross-product shares that participant `a` holds for the pair with
/// `b`, none for itself.
pub open spec fn off_diagonal(z: spec_fn(int, int) -> int) -> spec_fn(int, int) -> int {
    |a: int, b: int|
        if a == b {
            0
        } else {
            z(a, b)
        }
}

/// Correctness of the shares' `u`: participant `i` holds the masked key
/// share `x(i)` and masked `r` value `y(i)`, and `z(i, j)` is the sum of its
/// two shares of the cross products with participant `j`. When the
/// multiplication phase meets its contract (for every pair the shares of
/// both members sum to `x(i) * y(j) + x(j) * y(i)`), the participants' `u`
/// values `y(i) * (e + x(i)) + sum_j z(i, j)` sum to `(sum y) * (e + sum x)`:
/// the masked `r` times `e` plus the masked key. So `A = (sum R) / (sum u)`
/// is `b / (e + key)` when every `R` is `b * r(i)`.
pub proof fn lemma_u_total(
    n: nat,
    x: spec_fn(int) -> int,
    y: spec_fn(int) -> int,
    e: int,
    z: spec_fn(int, int) -> int,
)
    requires
        forall|i: int, j: int|
            0 <= i < n && 0 <= j < n && i != j ==> #[trigger] ((z(i, j) + z(j, i)) % (
            modulus() as int)) == (x(i) * y(j) + x(j) * y(i)) % (modulus() as int),
    ensures
        int_sum(Seq::new(n, |i: int| y(i) * (e + x(i)) + row_total(off_diagonal(z), i, n))) % (
        modulus() as int) == (int_sum(Seq::new(n, y)) * (e + int_sum(Seq::new(n, x)))) % (
        modulus() as int),
{
    let m = modulus() as int;
    crate::field::lemma_modulus_above_limb_base();
    let zoff = off_diagonal(z);
    let diag = |a: int, b: int|
        if a == b {
            x(a) * y(a)
        } else {
            0
        };
    let zd = |a: int, b: int| zoff(a, b) + diag(a, b);
    let xy = |a: int, b: int| x(a) * y(b);
    // Each row of `zd` is a row of `zoff` plus the diagonal product.
    assert forall|i: int| 0 <= i < n implies #[trigger] row_total(zd, i, n) == row_total(zoff, i, n)
        + x(i) * y(i) by {
        let za = |b: int| zoff(i, b);
        let da = |b: int| diag(i, b);
        lemma_sum_add(za, da, n);
        lemma_sum_single(da, n, i);
        assert(Seq::new(n, |b: int| zd(i, b)) =~= Seq::new(n, |k: int| za(k) + da(k)));
        assert(Seq::new(n, za) =~= Seq::new(n, |b: int| zoff(i, b)));
    }
    // Each participant's term is `e * y(i)` plus its row of `zd`.
    let term = |i: int| y(i) * (e + x(i)) + row_total(zoff, i, n);
    let ey = |i: int| e * y(i);
    let rd = |i: int| row_total(zd, i, n);
    assert forall|i: int| 0 <= i < n implies #[trigger] term(i) == ey(i) + rd(i) by {
        vstd::arithmetic::mul::lemma_mul_is_distributive_add(y(i), e, x(i));
        vstd::arithmetic::mul::lemma_mul_is_commutative(y(i), x(i));
        vstd::arithmetic::mul::lemma_mul_is_commutative(y(i), e);
    }
    lemma_sum_congruent(term, |i: int| ey(i) + rd(i), n);
    lemma_sum_add(ey, rd, n);
    lemma_sum_scale(e, y, n);
    assert(Seq::new(n, ey) =~= Seq::new(n, |i: int| e * y(i)));
    assert(Seq::new(n, rd) =~= Seq::new(n, |a: int| row_total(zd, a, n)));
    let sy = int_sum(Seq::new(n, y));
    let sx = int_sum(Seq::new(n, x));
    let tzd = table_total(zd, n);
    assert(int_sum(Seq::new(n, term)) == e * sy + tzd);
    // Twice the total of `zd` agrees with twice the total of `xy`.
    let s_zd = |a: int, b: int| zd(a, b) + transpose(zd)(a, b);
    let s_xy = |a: int, b: int| xy(a, b) + transpose(xy)(a, b);
    lemma_table_add(zd, transpose(zd), n);
    lemma_table_add(xy, transpose(xy), n);
    lemma_table_transpose(zd, n);
    lemma_table_transpose(xy, n);
    lemma_table_congruent(|a: int, b: int| zd(a, b) + transpose(zd)(a, b), s_zd, n);
    lemma_table_congruent(|a: int, b: int| xy(a, b) + transpose(xy)(a, b), s_xy, n);
    assert forall|a: int, b: int| 0 <= a < n && 0 <= b < n implies #[trigger] (s_zd(a, b) % m)
        == s_xy(a, b) % m by {
        if a != b {
            assert((z(a, b) + z(b, a)) % m == (x(a) * y(b) + x(b) * y(a)) % m);
        }
    }
    lemma_table_mod(s_zd, s_xy, n);
    assert(table_total(s_zd, n) == 2 * tzd);
    assert(table_total(s_xy, n) == 2 * table_total(xy, n));
    lemma_halve_mod(tzd, table_total(xy, n));
    lemma_table_product(x, y, n);
    assert(table_total(xy, n) == sx * sy);
    // Put the parts together.
    vstd::arithmetic::div_mod::lemma_add_mod_noop_right(e * sy, tzd, m);
    vstd::arithmetic::div_mod::lemma_add_mod_noop_right(e * sy, sx * sy, m);
    assert(sy * (e + sx) == e * sy + sx * sy) by (nonlinear_arith);
    assert(int_sum(Seq::new(n, |i: int| y(i) * (e + x(i)) + row_total(off_diagonal(z), i, n)))
        == int_sum(Seq::new(n, term))) by {
        assert(Seq::new(n, |i: int| y(i) * (e + x(i)) + row_total(off_diagonal(z), i, n))
            =~= Seq::new(n, term));
    }
}

/// What aggregating `shares` yields.
pub open spec fn aggregate_result(
    shares: Seq<BBSPlusSignatureShare>,
    r: Result<SignatureG1, BBSPlusError>,
) -> bool {
    match r {
        Err(BBSPlusError::IncorrectEByParticipant(p)) => exists|i: int|
            first_disagreement(shares, i) && shares[i].e.val() != shares[0].e.val() && p
                == shares[i].id,
        Err(BBSPlusError::IncorrectSByParticipant(p)) => exists|i: int|
            first_disagreement(shares, i) && shares[i].e.val() == shares[0].e.val() && p
                == shares[i].id,
        Err(BBSPlusError::DegenerateAggregate) => all_agree(shares) && u_sum(shares) == 0,
        Ok(sig) => {
            &&& all_agree(shares)
            &&& u_sum(shares) != 0
            &&& sig.e.val() == shares[0].e.val()
            &&& sig.s.val() == shares[0].s.val()
            &&& sig.A@ == g1_scaled(r_sum(shares), inv_val(u_sum(shares)))
        },
        Err(_) => false,
    }
}

/// The indices `0, 1, ..., n - 1`.
pub open spec fn all_indices(n: nat) -> Seq<usize> {
    Seq::new(n, |i: int| i as usize)
}

/// Whether `share` is the share that a participant with these Phase 1 and
/// Phase 2 outputs makes for slot `k`, from the base point `base`.
pub open spec fn share_from(
    share: BBSPlusSignatureShare,
    base: Seq<u8>,
    k: int,
    phase1: Phase1Output,
    phase2: Phase2Output,
) -> bool {
    &&& share.id == phase1.id
    &&& share.e.val() == phase1.e@[k].val()
    &&& share.s.val() == phase1.s@[k].val()
    &&& share.R@ == g1_scaled(base, phase1.r@[k].val())
    &&& share.u.val() == u_spec(
        phase1.e@[k].val(),
        phase1.masked_rs@[k].val(),
        phase1.masked_signing_key_shares@[k].val(),
        phase2,
        k,
    )
}

impl BBSPlusSignatureShare {
    /// The share of slot `index_in_output` from the base point `base`.
    fn from_base(
        base: &Point,
        index_in_output: usize,
        phase1: &Phase1Output,
        phase2: &Phase2Output,
    ) -> (r: Self)
        requires
            phase1.wf(),
            phase2.wf(),
            phase2.batch_size == phase1.batch_size,
            index_in_output < phase1.batch_size,
        ensures
            share_from(r, base@, index_in_output as int, *phase1, *phase2),
    {
        let k = index_in_output;
        #[allow(non_snake_case)]
        let (R, u) = compute_R_and_u(
            base,
            &phase1.r[k],
            &phase1.e[k],
            &phase1.masked_rs[k],
            &phase1.masked_signing_key_shares[k],
            k,
            phase2,
        );
        BBSPlusSignatureShare { id: phase1.id, e: phase1.e[k].clone(), s: phase1.s[k].clone(), u, R }
    }

    /// The share of the signature at `index_in_output` of the batch on
    /// `messages`, one per message of the parameters.
    pub fn new(
        messages: &Vec<Scalar>,
        index_in_output: usize,
        phase1: &Phase1Output,
        phase2: &Phase2Output,
        sig_params: &SignatureParamsG1,
    ) -> (r: Result<Self, BBSPlusError>)
        requires
            phase1.wf(),
            phase2.wf(),
            phase2.batch_size == phase1.batch_size,
        ensures
            messages.len() == 0 ==> r == Err::<Self, BBSPlusError>(BBSPlusError::NoMessageToSign),
            messages.len() != 0 && messages.len() != sig_params.h.len() ==> r == Err::<
                Self,
                BBSPlusError,
            >(BBSPlusError::MessageCountIncompatibleWithSigParams(messages.len(), sig_params.h.len())),
            messages.len() != 0 && messages.len() == sig_params.h.len() && index_in_output
                >= phase1.batch_size ==> r == Err::<Self, BBSPlusError>(
                BBSPlusError::IndexOutOfBatch(index_in_output),
            ),
            messages.len() != 0 && messages.len() == sig_params.h.len() && index_in_output
                < phase1.batch_size ==> r is Ok && share_from(
                r.unwrap(),
                sig_params.b_spec(
                    all_indices(messages.len() as nat),
                    messages@,
                    phase1.s@[index_in_output as int],
                ),
                index_in_output as int,
                *phase1,
                *phase2,
            ),
    {
        if messages.len() == 0 {
            return Err(BBSPlusError::NoMessageToSign);
        }
        if messages.len() != sig_params.supported_message_count() {
            return Err(
                BBSPlusError::MessageCountIncompatibleWithSigParams(
                    messages.len(),
                    sig_params.supported_message_count(),
                ),
            );
        }
        if index_in_output >= phase1.batch_size {
            return Err(BBSPlusError::IndexOutOfBatch(index_in_output));
        }
        let mut indices: Vec<usize> = Vec::new();
        let mut i: usize = 0;
        while i < messages.len()
            invariant
                i <= messages.len(),
                indices@ =~= all_indices(i as nat),
            decreases messages.len() - i,
        {
            indices.push(i);
            i = i + 1;
        }
        let b = match sig_params.b(&indices, messages, &phase1.s[index_in_output]) {
            Ok(b) => b,
            Err(e) => {
                assert(valid_message_indices(indices@, sig_params.h.len() as nat));
                return Err(e);
            },
        };
        Ok(Self::from_base(&b, index_in_output, phase1, phase2))
    }

    /// The share of the signature at `index_in_output` of the batch on
    /// messages of which some are hidden in `commitment`: the others are
    /// `uncommitted_messages`, as (index, message) pairs in increasing order
    /// of index.
    pub fn new_with_committed_messages(
        commitment: &Point,
        uncommitted_messages: &Vec<(usize, Scalar)>,
        index_in_output: usize,
        phase1: &Phase1Output,
        phase2: &Phase2Output,
        sig_params: &SignatureParamsG1,
    ) -> (r: Result<Self, BBSPlusError>)
        requires
            phase1.wf(),
            phase2.wf(),
            phase2.batch_size == phase1.batch_size,
        ensures
            index_in_output >= phase1.batch_size ==> r == Err::<Self, BBSPlusError>(
                BBSPlusError::IndexOutOfBatch(index_in_output),
            ),
            index_in_output < phase1.batch_size ==> {
                let indices = uncommitted_messages@.map_values(|p: (usize, Scalar)| p.0);
                let msgs = uncommitted_messages@.map_values(|p: (usize, Scalar)| p.1);
                &&& r is Ok <==> valid_message_indices(indices, sig_params.h.len() as nat)
                &&& r is Ok ==> share_from(
                    r.unwrap(),
                    g1_sum(
                        sig_params.b_spec(indices, msgs, phase1.s@[index_in_output as int]),
                        commitment@,
                    ),
                    index_in_output as int,
                    *phase1,
                    *phase2,
                )
                &&& r is Err ==> exists|a: int|
                    crate::setup::first_invalid_index(indices, sig_params.h.len() as nat, a) && r
                        == Err::<Self, BBSPlusError>(BBSPlusError::InvalidMessageIndex(indices[a]))
            },
    {
        if index_in_output >= phase1.batch_size {
            return Err(BBSPlusError::IndexOutOfBatch(index_in_output));
        }
        let mut indices: Vec<usize> = Vec::new();
        let mut msgs: Vec<Scalar> = Vec::new();
        let mut i: usize = 0;
        while i < uncommitted_messages.len()
            invariant
                i <= uncommitted_messages.len(),
                indices.len() == i,
                msgs.len() == i,
                forall|a: int| 0 <= a < i ==> #[trigger] indices@[a] == uncommitted_messages@[a].0,
                forall|a: int| 0 <= a < i ==> #[trigger] msgs@[a] == uncommitted_messages@[a].1,
            decreases uncommitted_messages.len() - i,
        {
            let (idx, m) = &uncommitted_messages[i];
            indices.push(*idx);
            msgs.push(*m);
            i = i + 1;
        }
        proof {
            assert(indices@ =~= uncommitted_messages@.map_values(|p: (usize, Scalar)| p.0));
            assert(msgs@ =~= uncommitted_messages@.map_values(|p: (usize, Scalar)| p.1));
        }
        let b = sig_params.b(&indices, &msgs, &phase1.s[index_in_output])?;
        let commitment_plus_b = group::add(&b, commitment);
        Ok(Self::from_base(&commitment_plus_b, index_in_output, phase1, phase2))
    }

    /// Aggregates the shares of all signers: every share must carry the `e`
    /// and `s` of the first (else the first one that does not is named), and
    /// the `u` values must not sum to zero. Then `A = (sum R) * (sum u)^-1`.
    pub fn aggregate(sig_shares: Vec<Self>) -> (r: Result<SignatureG1, BBSPlusError>)
        ensures
            aggregate_result(sig_shares@, r),
    {
        let n = sig_shares.len();
        if n == 0 {
            return Err(BBSPlusError::DegenerateAggregate);
        }
        let ghost shares = sig_shares@;
        let expected_e = sig_shares[0].e.clone();
        let expected_s = sig_shares[0].s.clone();
        let mut sum_u = sig_shares[0].u.clone();
        let mut sum_r = sig_shares[0].R.clone();
        proof {
            shares[0].u.lemma_val_bound();
            let one = shares.take(1);
            assert(one.drop_last() =~= Seq::<BBSPlusSignatureShare>::empty());
            assert(u_sum(one.drop_last()) == 0);
            assert(one.last() == shares[0]);
            vstd::arithmetic::div_mod::lemma_small_mod(shares[0].u.val(), modulus());
            assert(u_sum(one) == shares[0].u.val());
        }
        let mut i: usize = 1;
        while i < n
            invariant
                1 <= i <= n,
                n == shares.len(),
                shares == sig_shares@,
                expected_e.val() == shares[0].e.val(),
                expected_s.val() == shares[0].s.val(),
                sum_u.val() == u_sum(shares.take(i as int)),
                sum_r@ == r_sum(shares.take(i as int)),
                forall|j: int| 0 <= j < i ==> agrees_with_first(shares, j),
            decreases n - i,
        {
            let share = &sig_shares[i];
            if !field::equal(&expected_e, &share.e) {
                assert(first_disagreement(shares, i as int));
                return Err(BBSPlusError::IncorrectEByParticipant(share.id));
            }
            if !field::equal(&expected_s, &share.s) {
                assert(first_disagreement(shares, i as int));
                return Err(BBSPlusError::IncorrectSByParticipant(share.id));
            }
            sum_u = field::add(&sum_u, &share.u);
            sum_r = group::add(&sum_r, &share.R);
            proof {
                assert(shares.take(i + 1).drop_last() =~= shares.take(i as int));
                assert(shares.take(i + 1).last() == shares[i as int]);
            }
            i = i + 1;
        }
        proof {
            assert(shares.take(n as int) =~= shares);
        }
        match field::inverse(&sum_u) {
            None => Err(BBSPlusError::DegenerateAggregate),
            Some(inv) => {
                let a = group::scale(&sum_r, &inv);
                Ok(SignatureG1 { A: a, e: expected_e, s: expected_s })
            },
        }
    }
}

} // verus!
