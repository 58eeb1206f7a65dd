//! What the library takes from its curve and big-integer crates.
//!
//! Each item here is trusted: Verus believes its contract, and the doc
//! comment names the outside function it relies on.
use crate::arith::{fq_modulus, le_nat};
use ark_bn254::{Bn254, Fr, G1Affine, G2Affine};
use ark_ec::pairing::Pairing;
use ark_ec::CurveGroup;
use ark_ff::{BigInteger, PrimeField, Zero};
use ark_serialize::{CanonicalDeserialize, CanonicalSerialize};
use num_bigint::BigUint;
use std::str::FromStr;
use vstd::arithmetic::power::pow;
use vstd::prelude::*;

verus! {

/// The value of a string of decimal digits and `_` separators; `None` when
/// another character occurs.
pub open spec fn digits_value(s: Seq<char>) -> Option<nat>
    decreases s.len(),
{
    if s.len() == 0 {
        Some(0)
    } else {
        let c = s.last();
        match digits_value(s.drop_last()) {
            None => None,
            Some(v) => if c == '_' {
                Some(v)
            } else if '0' <= c && c <= '9' {
                Some(v * 10 + ((c as u32) - 48) as nat)
            } else {
                None
            },
        }
    }
}

/// The unsigned integer that decimal text denotes: one optional leading `+`,
/// then at least one digit first, with `_` allowed between digits.
pub open spec fn decimal_value(s: Seq<char>) -> Option<nat> {
    let t = if s.len() > 0 && s[0] == '+' && !(s.len() > 1 && s[1] == '+') {
        s.drop_first()
    } else {
        s
    };
    if t.len() == 0 || t[0] == '_' {
        None
    } else {
        digits_value(t)
    }
}

/// The negation of `y` in the base field.
pub open spec fn neg_fq(y: nat) -> nat {
    ((fq_modulus() - y) as nat) % fq_modulus()
}

/// y as the uncompressed encoding of a G1 point writes it: bit 255 is set
/// when y is greater than its negation.
pub open spec fn y_with_sign_flag(y: nat) -> nat {
    if 2 * y > fq_modulus() {
        (y + 128 * pow(256, 31)) as nat
    } else {
        y
    }
}

/// Whether (x, y) satisfies BN254's curve equation y^2 = x^3 + 3 over the
/// base field.
pub open spec fn g1_on_curve(x: nat, y: nat) -> bool {
    (y * y) % fq_modulus() == (x * x * x + 3) % fq_modulus()
}

/// Whether the 64 bytes at the start of `le` are a G1 point in the
/// uncompressed little-endian encoding (x, then y with flags in its top bits).
pub uninterp spec fn g1_decodes(le: Seq<u8>) -> bool;

/// Whether the 128 bytes at the start of `le` are a G2 point in the
/// uncompressed little-endian encoding (x.c0, x.c1, y.c0, y.c1).
pub uninterp spec fn g2_decodes(le: Seq<u8>) -> bool;

/// The uncompressed encoding of the sum of two encoded G1 points.
pub uninterp spec fn g1_sum(p: Seq<u8>, q: Seq<u8>) -> Option<Seq<u8>>;

/// The uncompressed encoding of an encoded G1 point times a scalar given
/// little-endian.
pub uninterp spec fn g1_scaled(p: Seq<u8>, s: Seq<u8>) -> Option<Seq<u8>>;

/// Whether the product of the pairings of the i-th encoded G1 point with the
/// i-th encoded G2 point is one.
pub uninterp spec fn pairing_product_is_one(g1s: Seq<u8>, g2s: Seq<u8>) -> Option<bool>;

/// Relies on num_bigint's `BigUint::from_str` (radix 10: an optional `+`,
/// then digits and `_`, never `_` first) and `BigUint::to_bytes_le`.
#[verifier::external_body]
pub(crate) fn parse_decimal_le(s: &str) -> (r: Option<Vec<u8>>)
    ensures
        r is Some <==> decimal_value(s@) is Some,
        r matches Some(b) ==> decimal_value(s@) == Some(le_nat(b@)),
{
    BigUint::from_str(s).ok().map(|v| v.to_bytes_le())
}

/// Relies on ark_serialize's `deserialize_uncompressed` for ark_bn254's
/// `G1Affine`, which fails on anything but a point of the group. A y below
/// the modulus carries no flag bits; x must be below the modulus too
/// (`Fp::from_bigint`); the point must then be on the curve, and G1's
/// cofactor is 1, so every point on the curve is in the group.
#[verifier::external_body]
pub(crate) fn g1_is_valid(le: &[u8]) -> (r: bool)
    ensures
        r == g1_decodes(le@),
        le@.len() == 64 && le_nat(le@.subrange(32, 64)) < fq_modulus() ==> (r <==> (le_nat(
            le@.subrange(0, 32),
        ) < fq_modulus() && g1_on_curve(
            le_nat(le@.subrange(0, 32)),
            le_nat(le@.subrange(32, 64)),
        ))),
{
    G1Affine::deserialize_uncompressed(le).is_ok()
}

/// Relies on ark_serialize's `deserialize_uncompressed` for ark_bn254's
/// `G2Affine`, which fails on anything but a point of the group.
#[verifier::external_body]
pub(crate) fn g2_is_valid(le: &[u8]) -> (r: bool)
    ensures
        r == g2_decodes(le@),
{
    G2Affine::deserialize_uncompressed(le).is_ok()
}

/// Relies on ark_bn254's `G1Affine`: `deserialize_uncompressed`, then `Neg`,
/// which keeps x and negates y in the base field, then each coordinate's
/// `into_bigint().to_bytes_le()`, 32 bytes. A y below the modulus carries no
/// flag bits, so it is read as it stands.
#[verifier::external_body]
pub(crate) fn g1_negate(le: &[u8]) -> (r: Option<Vec<u8>>)
    requires
        le@.len() == 64,
    ensures
        r is Some <==> g1_decodes(le@),
        r matches Some(v) ==> v@.len() == 64,
        r matches Some(v) ==> (le_nat(le@.subrange(32, 64)) < fq_modulus() ==> v@.subrange(0, 32)
            == le@.subrange(0, 32) && le_nat(v@.subrange(32, 64)) == neg_fq(
            le_nat(le@.subrange(32, 64)),
        )),
{
    let p = -G1Affine::deserialize_uncompressed(le).ok()?;
    Some([p.x.into_bigint().to_bytes_le(), p.y.into_bigint().to_bytes_le()].concat())
}

/// Relies on ark_serialize's `deserialize_uncompressed` and
/// `serialize_uncompressed` for ark_bn254's `G1Affine`: x, then y with the
/// sign flag of `SWFlags` in bit 7 of its last byte, 32 bytes each.
#[verifier::external_body]
pub(crate) fn g1_reencode(le: &[u8]) -> (r: Option<Vec<u8>>)
    requires
        le@.len() == 64,
    ensures
        r is Some <==> g1_decodes(le@),
        r matches Some(v) ==> v@.len() == 64,
        r matches Some(v) ==> (le_nat(le@.subrange(32, 64)) < fq_modulus() ==> v@.subrange(0, 32)
            == le@.subrange(0, 32) && le_nat(v@.subrange(32, 64)) == y_with_sign_flag(
            le_nat(le@.subrange(32, 64)),
        )),
{
    let p = G1Affine::deserialize_uncompressed(le).ok()?;
    let mut out = Vec::new();
    p.serialize_uncompressed(&mut out).ok()?;
    Some(out)
}

/// Relies on ark_bn254's G1 addition (`G1Affine + G1Affine`, `into_affine`),
/// with `deserialize_uncompressed` and `serialize_uncompressed` (64 bytes).
#[verifier::external_body]
pub(crate) fn g1_add(p: &[u8], q: &[u8]) -> (r: Option<Vec<u8>>)
    ensures
        r matches Some(v) ==> g1_sum(p@, q@) == Some(v@) && v@.len() == 64 && g1_decodes(v@),
        r is None ==> g1_sum(p@, q@) is None,
        (r is Some) == (g1_decodes(p@) && g1_decodes(q@)),
{
    let a = G1Affine::deserialize_uncompressed(p).ok()?;
    let b = G1Affine::deserialize_uncompressed(q).ok()?;
    let mut out = Vec::new();
    (a + b).into_affine().serialize_uncompressed(&mut out).ok()?;
    Some(out)
}

/// Relies on ark_bn254's scalar multiplication (`G1Affine * Fr`, with
/// `Fr::from_le_bytes_mod_order`), with `deserialize_uncompressed` and
/// `serialize_uncompressed` (64 bytes).
#[verifier::external_body]
pub(crate) fn g1_mul(p: &[u8], s: &[u8]) -> (r: Option<Vec<u8>>)
    ensures
        r matches Some(v) ==> g1_scaled(p@, s@) == Some(v@) && v@.len() == 64 && g1_decodes(v@),
        r is None ==> g1_scaled(p@, s@) is None,
        r is Some <==> g1_decodes(p@),
{
    let a = G1Affine::deserialize_uncompressed(p).ok()?;
    let mut out = Vec::new();
    (a * Fr::from_le_bytes_mod_order(s)).into_affine().serialize_uncompressed(&mut out).ok()?;
    Some(out)
}

/// Relies on ark_ec's `Pairing::multi_pairing` for `Bn254` and on
/// `PairingOutput::is_zero`, true when the product is the identity; points
/// are read with `deserialize_uncompressed`, 64 and 128 bytes each. The
/// Miller loop pairs the two lists with `zip_eq`, which panics on lists of
/// different lengths, so both sides must hold as many points.
#[verifier::external_body]
pub(crate) fn pairing_check(g1s: &[u8], g2s: &[u8]) -> (r: Option<bool>)
    requires
        g1s@.len() % 64 == 0,
        g2s@.len() % 128 == 0,
        g1s@.len() / 64 == g2s@.len() / 128,
    ensures
        r == pairing_product_is_one(g1s@, g2s@),
        r is Some <==> (forall|i: int|
            0 <= i < g1s@.len() / 64 ==> g1_decodes(#[trigger] g1s@.subrange(64 * i, 64 * i + 64))
                && g2_decodes(g2s@.subrange(128 * i, 128 * i + 128))),
{
    let mut a = Vec::new();
    for c in g1s.chunks_exact(64) {
        a.push(G1Affine::deserialize_uncompressed(c).ok()?);
    }
    let mut b = Vec::new();
    for c in g2s.chunks_exact(128) {
        b.push(G2Affine::deserialize_uncompressed(c).ok()?);
    }
    Some(Bn254::multi_pairing(a, b).is_zero())
}

} // verus!
