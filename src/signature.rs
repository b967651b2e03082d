//! ECDSA (secp256k1) verification of hex-encoded signatures against hex-encoded
//! public keys, over a 32-byte message digest.
use vstd::prelude::*;
use crate::encoding::{hex_bytes, hex_decode, is_hex_text};
use crate::error::PlatariumError;

verus! {

/// Whether a 64-byte compact signature verifies for the digest under the
/// public key (false where either does not parse).
pub uninterp spec fn compact_signature_valid(digest: Seq<u8>, sig: Seq<u8>, key: Seq<u8>) -> bool;

/// Whether a DER signature verifies for the digest under the public key
/// (false where either does not parse).
pub uninterp spec fn der_signature_valid(digest: Seq<u8>, sig: Seq<u8>, key: Seq<u8>) -> bool;

/// Relies on secp256k1 0.29: `Message::from_digest_slice`, `ecdsa::Signature::from_compact`,
/// `PublicKey::from_slice` and `Secp256k1::verify_ecdsa`; the verdict depends on the bytes alone.
#[verifier::external_body]
fn verify_compact(digest: &[u8], sig: &[u8], key: &[u8]) -> (r: bool)
    ensures
        r == compact_signature_valid(digest@, sig@, key@),
{
    let secp = secp256k1::Secp256k1::verification_only();
    match (
        secp256k1::Message::from_digest_slice(digest),
        secp256k1::ecdsa::Signature::from_compact(sig),
        secp256k1::PublicKey::from_slice(key),
    ) {
        (Ok(m), Ok(s), Ok(k)) => secp.verify_ecdsa(&m, &s, &k).is_ok(),
        _ => false,
    }
}

/// Relies on secp256k1 0.29: `Message::from_digest_slice`, `ecdsa::Signature::from_der`,
/// `PublicKey::from_slice` and `Secp256k1::verify_ecdsa`; the verdict depends on the bytes alone.
#[verifier::external_body]
fn verify_der(digest: &[u8], sig: &[u8], key: &[u8]) -> (r: bool)
    ensures
        r == der_signature_valid(digest@, sig@, key@),
{
    let secp = secp256k1::Secp256k1::verification_only();
    match (
        secp256k1::Message::from_digest_slice(digest),
        secp256k1::ecdsa::Signature::from_der(sig),
        secp256k1::PublicKey::from_slice(key),
    ) {
        (Ok(m), Ok(s), Ok(k)) => secp.verify_ecdsa(&m, &s, &k).is_ok(),
        _ => false,
    }
}

/// The verdict on a hex signature and a hex public key: `None` where either is
/// not hexadecimal; otherwise a 64-byte signature is read as compact, any other
/// as DER.
pub open spec fn signature_verdict(digest: Seq<u8>, sig: Seq<char>, key: Seq<char>) -> Option<bool> {
    if !is_hex_text(sig) || !is_hex_text(key) {
        None
    } else if hex_bytes(sig).len() == 64 {
        Some(compact_signature_valid(digest, hex_bytes(sig), hex_bytes(key)))
    } else {
        Some(der_signature_valid(digest, hex_bytes(sig), hex_bytes(key)))
    }
}

/// Checks a hex-encoded signature of `digest` against a hex-encoded public key.
/// Fails where either text is not hexadecimal.
pub fn verify_signature(digest: &[u8], signature_hex: &str, pub_key_hex: &str) -> (r: Result<
    bool,
    PlatariumError,
>)
    ensures
        match r {
            Ok(v) => signature_verdict(digest@, signature_hex@, pub_key_hex@) == Some(v),
            Err(e) => signature_verdict(digest@, signature_hex@, pub_key_hex@).is_none()
                && e is Signature,
        },
{
    let sig = match hex_decode(signature_hex) {
        Some(b) => b,
        None => {
            return Err(PlatariumError::Signature(String::from_str("Invalid signature hex")));
        },
    };
    let key = match hex_decode(pub_key_hex) {
        Some(b) => b,
        None => {
            return Err(PlatariumError::Signature(String::from_str("Invalid public key hex")));
        },
    };
    if sig.len() == 64 {
        Ok(verify_compact(digest, sig.as_slice(), key.as_slice()))
    } else {
        Ok(verify_der(digest, sig.as_slice(), key.as_slice()))
    }
}

} // verus!
