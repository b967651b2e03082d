//! Signing of JSON messages: the domain-separated SHA-256 digest, an ECDSA
//! signature with its parts, and a pair of signatures from two derived keys.
use vstd::prelude::*;
use crate::encoding::{hex_encode, hex_of, sha256, sha256_of};
use crate::error::PlatariumError;
use crate::keys::{bip39_accepts, bip39_seed, compressed_public_key, hkdf_sha256, hkdf_sha256_of, phrase_seed, public_key_of};
use crate::order::text_bytes;

verus! {

/// The 64-byte compact ECDSA signature (RFC 6979 nonce) of a digest under a secret key.
pub uninterp spec fn compact_signature_of(digest: Seq<u8>, secret: Seq<u8>) -> Seq<u8>;

/// The DER encoding of that signature.
pub uninterp spec fn der_signature_of(digest: Seq<u8>, secret: Seq<u8>) -> Seq<u8>;

/// Relies on secp256k1's `Message::from_digest_slice`, `SecretKey::from_slice`,
/// `Secp256k1::sign_ecdsa` (deterministic, RFC 6979) and the signature's
/// `serialize_compact` and `serialize_der`.
#[verifier::external_body]
fn sign_digest(digest: &[u8], secret: &[u8]) -> (r: Option<(Vec<u8>, Vec<u8>)>)
    ensures
        r.is_some() == (digest@.len() == 32 && public_key_of(secret@).is_some()),
        r matches Some((c, d)) ==> c@ == compact_signature_of(digest@, secret@) && c@.len() == 64
            && d@ == der_signature_of(digest@, secret@),
{
    let secp = secp256k1::Secp256k1::signing_only();
    let msg = secp256k1::Message::from_digest_slice(digest).ok()?;
    let sk = secp256k1::SecretKey::from_slice(secret).ok()?;
    let sig = secp.sign_ecdsa(&msg, &sk);
    Some((sig.serialize_compact().to_vec(), sig.serialize_der().to_vec()))
}

/// The JSON text that serde_json writes back for a JSON document, if the
/// text is one.
pub uninterp spec fn canonical_json_of(text: Seq<char>) -> Option<Seq<char>>;

/// Relies on `serde_json::from_str` into a `serde_json::Value` and
/// `serde_json::to_string` of it: the document rewritten in serde_json's own
/// form (object keys in order, no spaces); `None` where the text is not JSON.
#[verifier::external_body]
pub(crate) fn reserialize_json(text: &str) -> (r: Option<String>)
    ensures
        r.is_some() == canonical_json_of(text@).is_some(),
        r.is_some() ==> r.unwrap()@ == canonical_json_of(text@).unwrap(),
{
    let value: serde_json::Value = serde_json::from_str(text).ok()?;
    serde_json::to_string(&value).ok()
}

/// A JSON message in the form that is hashed and signed; fails where the text
/// is not JSON.
pub fn canonical_json(message: &str) -> (r: Result<String, PlatariumError>)
    ensures
        r.is_ok() == canonical_json_of(message@).is_some(),
        r matches Ok(s) ==> s@ == canonical_json_of(message@).unwrap(),
{
    match reserialize_json(message) {
        Some(s) => Ok(s),
        None => Err(PlatariumError::Validation(String::from_str("Invalid JSON message"))),
    }
}

/// The digest that is signed: SHA-256 of the domain separator and the JSON text.
pub open spec fn message_digest(json: Seq<char>) -> Seq<u8> {
    sha256_of(text_bytes("PlatariumSignature:"@ + json))
}

/// The parts of a signature, as hex where they are text.
#[derive(Debug, Clone)]
pub struct SignatureComponents {
    pub r: String,
    pub s: String,
    pub pub_key: String,
    pub der: Vec<u8>,
    pub signature_compact: String,
}

/// One signature of a dual signature, with the kind of key that made it.
#[derive(Debug, Clone)]
pub struct SignatureWithType {
    pub sig_type: String,
    pub r: String,
    pub s: String,
    pub pub_key: String,
    pub der: String,
    pub signature_compact: String,
}

/// The message hash and the signatures of the main and the HKDF key.
#[derive(Debug, Clone)]
pub struct DualSignature {
    pub hash: String,
    pub signatures: Vec<SignatureWithType>,
}

/// The digest of a serialised (JSON) message.
pub fn hash_message(json: &str) -> (r: Vec<u8>)
    ensures
        r@ == message_digest(json@),
        r@.len() == 32,
{
    let mut text = String::from_str("PlatariumSignature:");
    text.append(json);
    sha256(text.as_str().as_bytes())
}

fn sub_bytes(v: &Vec<u8>, from: usize, to: usize) -> (r: Vec<u8>)
    requires
        from <= to <= v@.len(),
    ensures
        r@ == v@.subrange(from as int, to as int),
{
    let mut r: Vec<u8> = Vec::new();
    let mut i: usize = from;
    while i < to
        invariant
            from <= i <= to,
            to <= v@.len(),
            r@ == v@.subrange(from as int, i as int),
        decreases to - i,
    {
        r.push(v[i]);
        assert(r@ =~= v@.subrange(from as int, i + 1));
        i = i + 1;
    }
    r
}

/// Signs a serialised message with a secret key: `r` and `s` as 64 hex digits
/// each, the compressed public key, the DER bytes, and the compact form with a
/// `01` suffix. Fails where the bytes are not a secret key.
pub fn sign_message(private_key: &[u8], json: &str) -> (r: Result<SignatureComponents, PlatariumError>)
    ensures
        r.is_ok() == public_key_of(private_key@).is_some(),
        r matches Ok(c) ==> {
            let sig = compact_signature_of(message_digest(json@), private_key@);
            &&& c.r@ == hex_of(sig.subrange(0, 32))
            &&& c.s@ == hex_of(sig.subrange(32, 64))
            &&& c.pub_key@ == hex_of(public_key_of(private_key@).unwrap())
            &&& c.der@ == der_signature_of(message_digest(json@), private_key@)
            &&& c.signature_compact@ == hex_of(sig) + "01"@
        },
{
    let digest = hash_message(json);
    let (compact, der) = match sign_digest(digest.as_slice(), private_key) {
        Some(p) => p,
        None => {
            return Err(PlatariumError::Crypto(String::from_str("Invalid private key")));
        },
    };
    let public = match compressed_public_key(private_key) {
        Some(p) => p,
        None => {
            return Err(PlatariumError::Crypto(String::from_str("Invalid private key")));
        },
    };
    let r_part = sub_bytes(&compact, 0, 32);
    let s_part = sub_bytes(&compact, 32, 64);
    let mut compact_hex = hex_encode(compact.as_slice());
    compact_hex.append("01");
    Ok(SignatureComponents {
        r: hex_encode(r_part.as_slice()),
        s: hex_encode(s_part.as_slice()),
        pub_key: hex_encode(public.as_slice()),
        der,
        signature_compact: compact_hex,
    })
}

/// The HKDF info of a derived signing key: its prefix, then the passphrase.
pub open spec fn key_info(prefix: Seq<char>, alphanumeric_part: Seq<char>) -> Seq<u8> {
    text_bytes(prefix + alphanumeric_part)
}

/// The signing key of a kind: HKDF-SHA256 of the seed, with no salt (a zero
/// salt of 32 bytes).
pub open spec fn signing_key(seed: Seq<u8>, prefix: Seq<char>, alphanumeric_part: Seq<char>) -> Seq<u8> {
    hkdf_sha256_of(Seq::new(32, |i: int| 0u8), seed, key_info(prefix, alphanumeric_part))
}

fn with_type(kind: &str, c: SignatureComponents) -> (r: SignatureWithType)
    ensures
        r.sig_type@ == kind@,
        r.r == c.r,
        r.s == c.s,
        r.pub_key == c.pub_key,
        r.der@ == hex_of(c.der@),
        r.signature_compact == c.signature_compact,
{
    let der = hex_encode(c.der.as_slice());
    SignatureWithType {
        sig_type: String::from_str(kind),
        r: c.r,
        s: c.s,
        pub_key: c.pub_key,
        der,
        signature_compact: c.signature_compact,
    }
}

/// Signs a serialised message with the two keys derived from a mnemonic and
/// passphrase (`mainKey-` and `hkdfKey-` HKDF infos). Fails on an invalid
/// mnemonic or where a derived key is not a secret key.
pub fn sign_with_both_keys(json: &str, mnemonic: &str, alphanumeric_part: &str) -> (r: Result<
    DualSignature,
    PlatariumError,
>)
    ensures
        r.is_ok() == (bip39_accepts(mnemonic@) && public_key_of(
            signing_key(bip39_seed(mnemonic@, alphanumeric_part@), "mainKey-"@, alphanumeric_part@),
        ).is_some() && public_key_of(
            signing_key(bip39_seed(mnemonic@, alphanumeric_part@), "hkdfKey-"@, alphanumeric_part@),
        ).is_some()),
        r matches Ok(d) ==> {
            let seed = bip39_seed(mnemonic@, alphanumeric_part@);
            let main = signing_key(seed, "mainKey-"@, alphanumeric_part@);
            let other = signing_key(seed, "hkdfKey-"@, alphanumeric_part@);
            &&& d.hash@ == hex_of(message_digest(json@))
            &&& d.signatures@.len() == 2
            &&& d.signatures@[0].sig_type@ == "main"@
            &&& d.signatures@[1].sig_type@ == "hkdf"@
            &&& d.signatures@[0].pub_key@ == hex_of(public_key_of(main).unwrap())
            &&& d.signatures@[1].pub_key@ == hex_of(public_key_of(other).unwrap())
            &&& d.signatures@[0].signature_compact@ == hex_of(compact_signature_of(message_digest(json@), main))
                + "01"@
            &&& d.signatures@[1].signature_compact@ == hex_of(compact_signature_of(message_digest(json@), other))
                + "01"@
        },
{
    let seed = match phrase_seed(mnemonic, alphanumeric_part) {
        Some(s) => s,
        None => {
            return Err(PlatariumError::Bip39(String::from_str("invalid mnemonic")));
        },
    };
    let digest = hash_message(json);
    let hash_hex = hex_encode(digest.as_slice());
    let mut main_info = String::from_str("mainKey-");
    main_info.append(alphanumeric_part);
    let mut hkdf_info = String::from_str("hkdfKey-");
    hkdf_info.append(alphanumeric_part);
    let zero_salt: Vec<u8> = vec![0u8; 32];
    assert(zero_salt@ =~= Seq::new(32, |i: int| 0u8));
    let main_key = hkdf_sha256(zero_salt.as_slice(), seed.as_slice(), main_info.as_str().as_bytes());
    let other_key = hkdf_sha256(zero_salt.as_slice(), seed.as_slice(), hkdf_info.as_str().as_bytes());
    let main_signature = sign_message(main_key.as_slice(), json)?;
    let hkdf_signature = sign_message(other_key.as_slice(), json)?;
    let mut signatures: Vec<SignatureWithType> = Vec::new();
    signatures.push(with_type("main", main_signature));
    signatures.push(with_type("hkdf", hkdf_signature));
    Ok(DualSignature { hash: hash_hex, signatures })
}

} // verus!
