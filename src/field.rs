//! Elements of the scalar field of BLS12-381, held as four little-endian
//! 64-bit limbs in canonical form. The arithmetic itself is done by `ark_ff`.

use ark_bls12_381::Fr;
use ark_ff::{BigInt, Field, PrimeField};
use vstd::arithmetic::power::pow;
use vstd::prelude::*;

verus! {

/// The order of the scalar field of BLS12-381.
pub open spec fn modulus() -> nat {
    limbs_value(seq![0xffffffff00000001u64, 0x53bda402fffe5bfeu64, 0x3339d80809a1d805u64, 0x73eda753299d7d48u64])
}

/// The weight of one limb.
pub open spec fn limb_base() -> nat {
    18446744073709551616nat
}

/// The integer that four little-endian 64-bit limbs stand for.
pub open spec fn limbs_value(l: Seq<u64>) -> nat
    recommends
        l.len() == 4,
{
    (l[0] as nat) + limb_base() * ((l[1] as nat) + limb_base() * ((l[2] as nat) + limb_base() * (
    l[3] as nat)))
}

/// Every single limb is below the modulus.
pub proof fn lemma_modulus_above_limb_base()
    ensures
        modulus() > limb_base(),
{
    let m = seq![0xffffffff00000001u64, 0x53bda402fffe5bfeu64, 0x3339d80809a1d805u64, 0x73eda753299d7d48u64];
    assert(m[1] == 0x53bda402fffe5bfeu64);
    let t = (m[2] as nat) + limb_base() * (m[3] as nat);
    assert(limb_base() * ((m[1] as nat) + limb_base() * t) >= limb_base() * 1) by (nonlinear_arith)
        requires m[1] as nat >= 1;
}

/// The additive inverse of `a` in the field.
pub open spec fn neg_mod(a: nat) -> nat {
    if a % modulus() == 0 {
        0
    } else {
        (modulus() - a % modulus()) as nat
    }
}

/// A field element. Its limbs are canonical (the type invariant): they are
/// built either from a small integer or by `ark_ff`, which hands back
/// reduced integers.
#[derive(Clone, Copy)]
pub struct Scalar {
    pub(crate) limbs: [u64; 4],
}

impl Scalar {
    /// The limbs are canonical: the integer they stand for is below the
    /// modulus.
    #[verifier::type_invariant]
    spec fn canonical(self) -> bool {
        limbs_value(self.limbs@) < modulus()
    }

    /// The integer in `[0, modulus())` that this element stands for. The limbs
    /// are kept canonical, so the reduction changes nothing.
    pub closed spec fn val(self) -> nat {
        limbs_value(self.limbs@) % modulus()
    }

    /// Every element is below the modulus.
    pub proof fn lemma_val_bound(&self)
        ensures
            self.val() < modulus(),
    {
    }

    /// The element whose value is `x`.
    pub fn from_u64(x: u64) -> (r: Scalar)
        ensures
            r.val() == x as nat,
    {
        let r = Scalar { limbs: [x, 0, 0, 0] };
        proof {
            assert(r.limbs@ =~= seq![x, 0u64, 0u64, 0u64]);
            assert(limbs_value(r.limbs@) == x as nat);
            lemma_modulus_above_limb_base();
            vstd::arithmetic::div_mod::lemma_small_mod(x as nat, modulus());
        }
        r
    }

    /// The additive identity.
    pub fn zero() -> (r: Scalar)
        ensures
            r.val() == 0,
    {
        Scalar::from_u64(0)
    }

    /// The element that the limbs stand for, if they are below the modulus.
    pub fn from_limbs(limbs: [u64; 4]) -> (r: Option<Scalar>)
        ensures
            r.is_some() <==> limbs_value(limbs@) < modulus(),
            r.is_some() ==> r.unwrap().val() == limbs_value(limbs@),
    {
        fr_from_limbs(limbs)
    }

    /// The canonical limbs of this element.
    pub fn to_limbs(&self) -> (r: [u64; 4])
        ensures
            limbs_value(r@) == self.val(),
            limbs_value(r@) < modulus(),
    {
        proof {
            use_type_invariant(self);
            vstd::arithmetic::div_mod::lemma_small_mod(limbs_value(self.limbs@), modulus());
        }
        self.limbs
    }
}

/// Relies on `ark_ff::PrimeField::from_bigint`: it accepts exactly the
/// integers below the modulus and keeps their value.
#[verifier::external_body]
fn fr_from_limbs(limbs: [u64; 4]) -> (r: Option<Scalar>)
    ensures
        r.is_some() <==> limbs_value(limbs@) < modulus(),
        r.is_some() ==> r.unwrap().val() == limbs_value(limbs@),
{
    Fr::from_bigint(BigInt::new(limbs)).map(|x| Scalar { limbs: x.into_bigint().0 })
}

/// Relies on `Add` for `ark_bls12_381::Fr`: addition modulo the field order.
#[verifier::external_body]
pub(crate) fn add(a: &Scalar, b: &Scalar) -> (r: Scalar)
    ensures
        r.val() == (a.val() + b.val()) % modulus(),
{
    let x = Fr::from_bigint(BigInt::new(a.limbs)).unwrap();
    let y = Fr::from_bigint(BigInt::new(b.limbs)).unwrap();
    Scalar { limbs: (x + y).into_bigint().0 }
}

/// Relies on `Mul` for `ark_bls12_381::Fr`: multiplication modulo the field order.
#[verifier::external_body]
pub(crate) fn mul(a: &Scalar, b: &Scalar) -> (r: Scalar)
    ensures
        r.val() == (a.val() * b.val()) % modulus(),
{
    let x = Fr::from_bigint(BigInt::new(a.limbs)).unwrap();
    let y = Fr::from_bigint(BigInt::new(b.limbs)).unwrap();
    Scalar { limbs: (x * y).into_bigint().0 }
}

/// Relies on `Neg` for `ark_bls12_381::Fr`: the additive inverse.
#[verifier::external_body]
pub(crate) fn neg(a: &Scalar) -> (r: Scalar)
    ensures
        r.val() == neg_mod(a.val()),
{
    let x = Fr::from_bigint(BigInt::new(a.limbs)).unwrap();
    Scalar { limbs: (-x).into_bigint().0 }
}

/// Relies on `ark_ff::Field::inverse`: `None` exactly for zero, otherwise
/// the element whose product with `a` is one, that is `a^(p-2)`.
#[verifier::external_body]
pub(crate) fn inverse(a: &Scalar) -> (r: Option<Scalar>)
    ensures
        r.is_none() <==> a.val() == 0,
        r.is_some() ==> (a.val() * r.unwrap().val()) % modulus() == 1,
        r.is_some() ==> r.unwrap().val() == (pow(a.val() as int, (modulus() - 2) as nat) % (
        modulus() as int)) as nat,
{
    let x = Fr::from_bigint(BigInt::new(a.limbs)).unwrap();
    x.inverse().map(|y| Scalar { limbs: y.into_bigint().0 })
}

/// Relies on `PartialEq` for `ark_bls12_381::Fr`: equality of the elements.
#[verifier::external_body]
pub(crate) fn equal(a: &Scalar, b: &Scalar) -> (r: bool)
    ensures
        r == (a.val() == b.val()),
{
    let x = Fr::from_bigint(BigInt::new(a.limbs)).unwrap();
    let y = Fr::from_bigint(BigInt::new(b.limbs)).unwrap();
    x == y
}

/// The integer that bytes stand for, read little-endian.
pub open spec fn le_value(b: Seq<u8>) -> nat
    decreases b.len(),
{
    if b.len() == 0 {
        0
    } else {
        b[0] as nat + 256 * le_value(b.drop_first())
    }
}

/// Relies on `ark_ff::PrimeField::from_le_bytes_mod_order`: the bytes read
/// little-endian, reduced modulo the field order.
#[verifier::external_body]
pub(crate) fn from_le_bytes_mod_order(bytes: &Vec<u8>) -> (r: Scalar)
    ensures
        r.val() == le_value(bytes@) % modulus(),
{
    Scalar { limbs: Fr::from_le_bytes_mod_order(&bytes[..]).into_bigint().0 }
}

/// The eight little-endian bytes of `x`.
pub open spec fn u64_le(x: u64) -> Seq<u8> {
    seq![
        x as u8,
        (x >> 8u64) as u8,
        (x >> 16u64) as u8,
        (x >> 24u64) as u8,
        (x >> 32u64) as u8,
        (x >> 40u64) as u8,
        (x >> 48u64) as u8,
        (x >> 56u64) as u8,
    ]
}

/// Appends the eight little-endian bytes of `x`.
pub fn push_u64_le(out: &mut Vec<u8>, x: u64)
    ensures
        final(out)@ == old(out)@ + u64_le(x),
{
    out.push(x as u8);
    out.push((x >> 8u64) as u8);
    out.push((x >> 16u64) as u8);
    out.push((x >> 24u64) as u8);
    out.push((x >> 32u64) as u8);
    out.push((x >> 40u64) as u8);
    out.push((x >> 48u64) as u8);
    out.push((x >> 56u64) as u8);
    assert(final(out)@ =~= old(out)@ + u64_le(x));
}

/// The canonical encoding has 32 bytes.
pub proof fn lemma_encoding_len(x: Scalar)
    ensures
        x.encoding().len() == 32,
{
}

impl Scalar {
    /// The canonical 32-byte little-endian encoding of this element.
    pub closed spec fn encoding(self) -> Seq<u8> {
        u64_le(self.limbs[0]) + u64_le(self.limbs[1]) + u64_le(self.limbs[2]) + u64_le(
            self.limbs[3],
        )
    }

    /// Appends the canonical encoding of this element.
    pub fn write_to(&self, out: &mut Vec<u8>)
        ensures
            final(out)@ == old(out)@ + self.encoding(),
    {
        push_u64_le(out, self.limbs[0]);
        push_u64_le(out, self.limbs[1]);
        push_u64_le(out, self.limbs[2]);
        push_u64_le(out, self.limbs[3]);
        assert(final(out)@ =~= old(out)@ + self.encoding());
    }
}

} // verus!
