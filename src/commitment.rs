//! A Pedersen commitment to a field element through its decomposition in
//! base `b = 2^c`: with `m = m_1 b^(n-1) + ... + m_n`, the commitment is
//! `m_1 G_1 + ... + m_n G_n + r H` where `G_i = b^(n-i) G`, which equals
//! `m G + r H`.

use crate::field::{self, modulus, Scalar};
use crate::group::{self, encodings, g1_multi_scaled, g1_scaled, vals, Point};
use vstd::arithmetic::power::pow;
use vstd::prelude::*;

verus! {

/// The bit size of the scalar field's modulus.
pub const MODULUS_BIT_SIZE: u16 = 255;

/// The number of chunks of `chunk_bit_size` bits that a field element has.
pub open spec fn chunks_count_spec(chunk_bit_size: u8) -> nat {
    ((MODULUS_BIT_SIZE + chunk_bit_size - 1) / (chunk_bit_size as int)) as nat
}

/// The number of chunks of `chunk_bit_size` bits that a field element has.
pub fn chunks_count(chunk_bit_size: u8) -> (r: u8)
    requires
        chunk_bit_size >= 1,
    ensures
        r == chunks_count_spec(chunk_bit_size),
{
    let c = chunk_bit_size as u16;
    let q = (MODULUS_BIT_SIZE + c - 1) / c;
    proof {
        let n = (MODULUS_BIT_SIZE + c - 1) as int;
        vstd::arithmetic::div_mod::lemma_fundamental_div_mod(n, c as int);
        vstd::arithmetic::div_mod::lemma_mod_pos_bound(n, c as int);
        assert(q <= 255) by (nonlinear_arith)
            requires
                n == c * q + n % (c as int),
                n % (c as int) >= 0,
                n == 254 + c,
                c >= 1,
                q >= 0,
        ;
    }
    q as u8
}

/// `G_i = radix^(n-1-i) * g` for `i < n`, the largest power first.
pub open spec fn commitment_key_spec(g: Seq<u8>, radix: nat, n: nat) -> Seq<Seq<u8>> {
    Seq::new(n, |i: int| g1_scaled(g, (pow(radix as int, (n - 1 - i) as nat) % (modulus() as int)) as nat))
}

/// The big-endian digits of a field element in base 16 (`chunk_bit_size`
/// 4) or 256 (`chunk_bit_size` 8), from its canonical encoding.
pub open spec fn digits_spec(x: Scalar, chunk_bit_size: u8) -> Seq<u8> {
    let enc = x.encoding();
    if chunk_bit_size == 8 {
        Seq::new(32, |i: int| enc[31 - i])
    } else {
        Seq::new(
            64,
            |i: int|
                if i % 2 == 0 {
                    enc[31 - i / 2] >> 4u8
                } else {
                    enc[31 - i / 2] & 15u8
                },
        )
    }
}

/// The big-endian digits of a field element in base `2^chunk_bit_size`.
pub fn decompose(message: &Scalar, chunk_bit_size: u8) -> (r: Vec<u8>)
    requires
        chunk_bit_size == 4 || chunk_bit_size == 8,
    ensures
        r@ == digits_spec(*message, chunk_bit_size),
        r.len() == chunks_count_spec(chunk_bit_size),
{
    let mut enc: Vec<u8> = Vec::new();
    message.write_to(&mut enc);
    assert(enc@ =~= message.encoding());
    proof {
        crate::field::lemma_encoding_len(*message);
    }
    let mut out: Vec<u8> = Vec::new();
    let mut i: usize = 0;
    while i < 32
        invariant
            enc@ == message.encoding(),
            enc.len() == 32,
            chunk_bit_size == 4 || chunk_bit_size == 8,
            i <= 32,
            chunk_bit_size == 8 ==> out@ =~= digits_spec(*message, chunk_bit_size).take(i as int),
            chunk_bit_size == 4 ==> out@ =~= digits_spec(*message, chunk_bit_size).take(2 * i),
        decreases 32 - i,
    {
        let b = enc[31 - i];
        if chunk_bit_size == 8 {
            out.push(b);
        } else {
            out.push(b >> 4u8);
            out.push(b & 15u8);
        }
        i = i + 1;
    }
    out
}

/// A Pedersen commitment to the chunks of a field element.
pub struct ChunkedCommitment(pub Point);

impl ChunkedCommitment {
    /// Decomposes `message` into chunks of `chunk_bit_size` bits and commits
    /// to them as `m_1 * g_1 + ... + m_n * g_n + blinding * h`, with the
    /// `g_i` from `commitment_key`.
    pub fn new(message: &Scalar, blinding: &Scalar, chunk_bit_size: u8, g: &Point, h: &Point) -> (r:
        Self)
        requires
            chunk_bit_size == 4 || chunk_bit_size == 8,
        ensures
            r.0@ == g1_multi_scaled(
                commitment_key_spec(
                    g@,
                    pow(2, chunk_bit_size as nat) as nat,
                    chunks_count_spec(chunk_bit_size),
                ).push(h@),
                digits_spec(*message, chunk_bit_size).map_values(|d: u8| d as nat).push(
                    blinding.val(),
                ),
            ),
    {
        let digits = decompose(message, chunk_bit_size);
        let radix: u16 = if chunk_bit_size == 4 {
            16
        } else {
            256
        };
        proof {
            vstd::arithmetic::power::lemma_pow_positive(2, chunk_bit_size as nat);
            reveal_pow_small(chunk_bit_size);
        }
        let mut gs = Self::commitment_key(g, chunk_bit_size, radix);
        let ghost key = encodings(gs@);
        gs.push(h.clone());
        let mut scalars: Vec<Scalar> = Vec::new();
        let mut i: usize = 0;
        while i < digits.len()
            invariant
                i <= digits.len(),
                scalars.len() == i,
                vals(scalars@) =~= digits@.take(i as int).map_values(|d: u8| d as nat),
            decreases digits.len() - i,
        {
            let ghost before = scalars@;
            let d = Scalar::from_u64(digits[i] as u64);
            scalars.push(d);
            proof {
                assert(digits@.take(i + 1) =~= digits@.take(i as int).push(digits@[i as int]));
                assert(vals(scalars@) =~= vals(before).push(d.val()));
                assert(digits@.take(i + 1).map_values(|d: u8| d as nat) =~= digits@.take(
                    i as int,
                ).map_values(|d: u8| d as nat).push(digits@[i as int] as nat));
            }
            i = i + 1;
        }
        let ghost before = scalars@;
        scalars.push(*blinding);
        proof {
            assert(digits@.take(digits.len() as int) =~= digits@);
            assert(encodings(gs@) =~= key.push(h@));
            assert(vals(scalars@) =~= vals(before).push(blinding.val()));
            assert(radix as nat == pow(2, chunk_bit_size as nat) as nat);
        }
        ChunkedCommitment(group::multi_scale(&gs, &scalars))
    }

    /// Given `g`, the `n = chunks_count(chunk_bit_size)` multiples
    /// `radix^(n-1) * g, ..., radix * g, g`.
    pub fn commitment_key(g: &Point, chunk_bit_size: u8, radix: u16) -> (r: Vec<Point>)
        requires
            chunk_bit_size >= 1,
        ensures
            encodings(r@) == commitment_key_spec(g@, radix as nat, chunks_count_spec(chunk_bit_size)),
    {
        let n = chunks_count(chunk_bit_size) as usize;
        let radix_scalar = Scalar::from_u64(radix as u64);
        // powers[j] = radix^j * g
        let mut powers: Vec<Point> = Vec::new();
        let mut factor = Scalar::from_u64(1);
        let mut j: usize = 0;
        proof {
            crate::field::lemma_modulus_above_limb_base();
            vstd::arithmetic::div_mod::lemma_small_mod(1, modulus());
            reveal(pow);
            assert(pow(radix as int, 0) == 1);
        }
        while j < n
            invariant
                j <= n,
                powers.len() == j,
                modulus() > 1,
                radix_scalar.val() == radix,
                factor.val() == (pow(radix as int, j as nat) % (modulus() as int)) as nat,
                forall|a: int|
                    0 <= a < j ==> #[trigger] powers@[a]@ == g1_scaled(
                        g@,
                        (pow(radix as int, a as nat) % (modulus() as int)) as nat,
                    ),
            decreases n - j,
        {
            powers.push(group::scale(g, &factor));
            let ghost before = factor.val();
            factor = field::mul(&factor, &radix_scalar);
            proof {
                let m = modulus() as int;
                lemma_pow_next(radix as int, j as nat);
                vstd::arithmetic::div_mod::lemma_mul_mod_noop_left(pow(radix as int, j as nat), radix as int, m);
                assert(pow(radix as int, j as nat) * radix as int == radix as int * pow(radix as int, j as nat)) by (nonlinear_arith);
            }
            j = j + 1;
        }
        let mut out: Vec<Point> = Vec::new();
        let mut i: usize = 0;
        while i < n
            invariant
                i <= n,
                powers.len() == n,
                n == chunks_count_spec(chunk_bit_size),
                out.len() == i,
                forall|a: int|
                    0 <= a < n ==> #[trigger] powers@[a]@ == g1_scaled(
                        g@,
                        (pow(radix as int, a as nat) % (modulus() as int)) as nat,
                    ),
                forall|a: int|
                    0 <= a < i ==> #[trigger] out@[a]@ == commitment_key_spec(g@, radix as nat, n as nat)[a],
            decreases n - i,
        {
            out.push(powers[n - 1 - i].clone());
            i = i + 1;
        }
        assert(encodings(out@) =~= commitment_key_spec(g@, radix as nat, chunks_count_spec(chunk_bit_size)));
        out
    }
}

/// One more factor of the base.
proof fn lemma_pow_next(b: int, e: nat)
    ensures
        pow(b, e + 1) == b * pow(b, e),
{
    reveal(pow);
    assert(((e + 1) as nat - 1) as nat == e);
}

/// `2^4 = 16` and `2^8 = 256`.
proof fn reveal_pow_small(c: u8)
    ensures
        c == 4 ==> pow(2, c as nat) == 16,
        c == 8 ==> pow(2, c as nat) == 256,
{
    reveal(pow);
    reveal_with_fuel(pow, 9);
}

} // verus!
