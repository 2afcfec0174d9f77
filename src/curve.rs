//! The outside collaborators: curve-group operations and ECDSA verification
//! of secp256k1, SHA-256 and the random source. Points travel as their
//! 33-byte compressed encoding, scalars as 32 big-endian bytes.
use sha2::Digest;
use vstd::prelude::*;

use crate::scalars::{be_val, group_order};

verus! {

/// Whether 33 bytes are the compressed encoding of a point of the curve.
pub uninterp spec fn is_point(p: Seq<u8>) -> bool;

/// The encoding of `k * G`, G the generator, for the 32-byte big-endian `k`.
pub uninterp spec fn base_mul(k: Seq<u8>) -> Seq<u8>;

/// The encoding of `k * P` for the encoded point `p` and 32-byte `k`.
pub uninterp spec fn point_mul(p: Seq<u8>, k: Seq<u8>) -> Seq<u8>;

/// The encoding of `P + Q` for two encoded points.
pub uninterp spec fn point_add(p: Seq<u8>, q: Seq<u8>) -> Seq<u8>;

/// Whether two encoded points can be added: both are points and the sum is
/// not the point at infinity.
pub uninterp spec fn sum_defined(p: Seq<u8>, q: Seq<u8>) -> bool;

/// The SHA-256 digest of a byte string.
pub uninterp spec fn sha256_of(data: Seq<u8>) -> Seq<u8>;

/// Whether a 64-byte compact signature `(r, s)` verifies for the 32-byte
/// message against the encoded public key.
pub uninterp spec fn ecdsa_valid(msg: Seq<u8>, sig: Seq<u8>, pk: Seq<u8>) -> bool;

/// Relies on `secp256k1::PublicKey::from_slice`, which parses an encoded point
/// and fails on bytes that encode none.
#[verifier::external_body]
pub(crate) fn is_valid_point(p: &[u8; 33]) -> (r: bool)
    ensures
        r == is_point(p@),
{
    secp256k1::PublicKey::from_slice(&p[..]).is_ok()
}

/// Relies on `secp256k1::SecretKey::from_slice`, which accepts exactly the
/// keys in `1..n`, and `secp256k1::PublicKey::from_secret_key`, which
/// multiplies the generator by such a key.
#[verifier::external_body]
pub(crate) fn public_key_of(k: &[u8; 32]) -> (r: Option<[u8; 33]>)
    ensures
        r.is_some() == (0 < be_val(*k) < group_order()),
        r matches Some(p) ==> p@ == base_mul(k@) && is_point(p@),
{
    let secp = secp256k1::Secp256k1::signing_only();
    match secp256k1::SecretKey::from_slice(&k[..]) {
        Ok(sk) => Some(secp256k1::PublicKey::from_secret_key(&secp, &sk).serialize()),
        Err(_) => None,
    }
}

/// Relies on `secp256k1::PublicKey::mul_tweak`, which multiplies a point by a
/// scalar in `1..n` and fails for a zero scalar; the point is parsed with
/// `PublicKey::from_slice` and the scalar with `Scalar::from_be_bytes`,
/// which refuses values from `n` up.
#[verifier::external_body]
pub(crate) fn mul_point(p: &[u8; 33], k: &[u8; 32]) -> (r: Option<[u8; 33]>)
    ensures
        r.is_some() == (is_point(p@) && 0 < be_val(*k) < group_order()),
        r matches Some(q) ==> q@ == point_mul(p@, k@) && is_point(q@),
{
    let secp = secp256k1::Secp256k1::verification_only();
    let pk = secp256k1::PublicKey::from_slice(&p[..]).ok()?;
    let tweak = secp256k1::Scalar::from_be_bytes(*k).ok()?;
    pk.mul_tweak(&secp, &tweak).ok().map(|q| q.serialize())
}

/// Relies on `secp256k1::PublicKey::combine`, which adds two points and fails
/// where the sum is the point at infinity.
#[verifier::external_body]
pub(crate) fn add_points(p: &[u8; 33], q: &[u8; 33]) -> (r: Option<[u8; 33]>)
    ensures
        r.is_some() == sum_defined(p@, q@),
        r matches Some(s) ==> s@ == point_add(p@, q@) && is_point(s@),
{
    let a = secp256k1::PublicKey::from_slice(&p[..]).ok()?;
    let b = secp256k1::PublicKey::from_slice(&q[..]).ok()?;
    a.combine(&b).ok().map(|s| s.serialize())
}

/// Relies on `sha2::Sha256::digest`, the SHA-256 digest of its input.
#[verifier::external_body]
pub(crate) fn sha256(data: &[u8]) -> (r: [u8; 32])
    ensures
        r@ == sha256_of(data@),
{
    sha2::Sha256::digest(data).into()
}

/// Relies on `secp256k1::Secp256k1::verify_ecdsa`, with the signature parsed
/// by `ecdsa::Signature::from_compact`, the key by `PublicKey::from_slice` and
/// the message by `Message::from_slice`.
#[verifier::external_body]
pub(crate) fn verify_signature(msg: &[u8; 32], sig: &[u8; 64], pk: &[u8; 33]) -> (r: bool)
    ensures
        r == ecdsa_valid(msg@, sig@, pk@),
{
    let secp = secp256k1::Secp256k1::verification_only();
    let m = secp256k1::Message::from_slice(&msg[..]);
    let s = secp256k1::ecdsa::Signature::from_compact(&sig[..]);
    let p = secp256k1::PublicKey::from_slice(&pk[..]);
    match (m, s, p) {
        (Ok(m), Ok(s), Ok(p)) => secp.verify_ecdsa(&m, &s, &p).is_ok(),
        _ => false,
    }
}

/// Relies on `rand::random`: 32 bytes from the thread-local generator, which
/// is cryptographically secure. Nothing is known of their value.
#[verifier::external_body]
pub(crate) fn random_bytes() -> (r: [u8; 32]) {
    rand::random::<[u8; 32]>()
}

} // verus!
