//! Key material for accounts: BIP39 mnemonics with an alphanumeric passphrase,
//! a BIP32 main key, and a signature key derived from the seed with HKDF.
use vstd::prelude::*;
use bip32::PrivateKey;
use rand::Rng;
use crate::encoding::{decimal, hex_alphabet, hex_encode, hex_of, push_decimal};
use crate::error::PlatariumError;
use crate::order::text_bytes;
use vstd::string::StringSliceAdditionalSpecFns;

verus! {

/// Characters of the alphanumeric passphrase.
pub const CHARACTER_SET: &'static str = "ABCDEFGHIJKLMNOPQRSTUVWXYZ0123456789";

/// Default HKDF salt of the signature key.
pub const HKDF_SALT: &'static str = "PlatariumSignatureKeySalt2050";

/// Default HKDF info of the signature key.
pub const HKDF_INFO: &'static str = "Signature Key Derivation";

/// Whether a phrase is a valid English BIP39 mnemonic.
pub uninterp spec fn bip39_accepts(phrase: Seq<char>) -> bool;

/// The English BIP39 phrase of some entropy.
pub uninterp spec fn bip39_phrase(entropy: Seq<u8>) -> Seq<char>;

/// The BIP39 seed of a valid phrase with a passphrase.
pub uninterp spec fn bip39_seed(phrase: Seq<char>, passphrase: Seq<char>) -> Seq<u8>;

/// The BIP32 private key at a derivation path, if the seed and path allow one.
pub uninterp spec fn bip32_key(seed: Seq<u8>, path: Seq<char>) -> Option<Seq<u8>>;

/// HKDF-SHA256 output of 32 bytes.
pub uninterp spec fn hkdf_sha256_of(salt: Seq<u8>, ikm: Seq<u8>, info: Seq<u8>) -> Seq<u8>;

/// The compressed secp256k1 public key of a secret key, if the bytes are one.
pub uninterp spec fn public_key_of(secret: Seq<u8>) -> Option<Seq<u8>>;

/// Relies on `rand::thread_rng().fill`: 32 random bytes.
#[verifier::external_body]
fn random_entropy() -> (r: Vec<u8>)
    ensures
        r@.len() == 32,
{
    let mut entropy = [0u8; 32];
    rand::thread_rng().fill(&mut entropy);
    entropy.to_vec()
}

/// Relies on `Rng::gen_range`: a random index below `n`.
#[verifier::external_body]
fn random_index(n: usize) -> (r: usize)
    requires
        n > 0,
    ensures
        r < n,
{
    rand::thread_rng().gen_range(0..n)
}

/// Relies on bip39's `Mnemonic::from_entropy_in` (English) and its `Display`:
/// 32 bytes of entropy always give a phrase, which parses again.
#[verifier::external_body]
fn phrase_from_entropy(entropy: &[u8]) -> (r: Option<String>)
    ensures
        entropy@.len() == 32 ==> r.is_some(),
        r.is_some() ==> r.unwrap()@ == bip39_phrase(entropy@) && bip39_accepts(r.unwrap()@),
{
    bip39::Mnemonic::from_entropy_in(bip39::Language::English, entropy).ok().map(|m| m.to_string())
}

/// Relies on bip39's `Mnemonic::parse_in_normalized` (English).
#[verifier::external_body]
fn phrase_is_valid(phrase: &str) -> (r: bool)
    ensures
        r == bip39_accepts(phrase@),
{
    bip39::Mnemonic::parse_in_normalized(bip39::Language::English, phrase).is_ok()
}

/// Relies on bip39's `Mnemonic::parse_in_normalized` (English) and `Mnemonic::to_seed`:
/// the 64-byte seed of a valid phrase.
#[verifier::external_body]
pub(crate) fn phrase_seed(phrase: &str, passphrase: &str) -> (r: Option<Vec<u8>>)
    ensures
        r.is_some() == bip39_accepts(phrase@),
        r.is_some() ==> r.unwrap()@ == bip39_seed(phrase@, passphrase@) && r.unwrap()@.len() == 64,
{
    match bip39::Mnemonic::parse_in_normalized(bip39::Language::English, phrase) {
        Ok(m) => Some(m.to_seed(passphrase).to_vec()),
        Err(_) => None,
    }
}

/// Relies on bip32: `XPrv::new`, `DerivationPath::from_str`, `XPrv::derive_child`
/// along the path, and the private key's `to_bytes` (32 bytes).
#[verifier::external_body]
fn derive_path_key(seed: &[u8], path: &str) -> (r: Option<Vec<u8>>)
    ensures
        r.is_some() == bip32_key(seed@, path@).is_some(),
        r.is_some() ==> r.unwrap()@ == bip32_key(seed@, path@).unwrap() && r.unwrap()@.len() == 32,
{
    let root = bip32::XPrv::new(seed).ok()?;
    let parsed: bip32::DerivationPath = path.parse().ok()?;
    let node = parsed.iter().try_fold(root, |acc, child| acc.derive_child(child)).ok()?;
    Some(node.private_key().to_bytes().to_vec())
}

/// Relies on hkdf's `Hkdf::<Sha256>::new` and `expand` into 32 bytes, which cannot fail.
#[verifier::external_body]
pub(crate) fn hkdf_sha256(salt: &[u8], ikm: &[u8], info: &[u8]) -> (r: Vec<u8>)
    ensures
        r@ == hkdf_sha256_of(salt@, ikm@, info@),
        r@.len() == 32,
{
    let hk = hkdf::Hkdf::<sha2::Sha256>::new(Some(salt), ikm);
    let mut okm = [0u8; 32];
    let _ = hk.expand(info, &mut okm);
    okm.to_vec()
}

/// Relies on secp256k1's `SecretKey::from_slice`, `PublicKey::from_secret_key`
/// and `PublicKey::serialize` (33 bytes).
#[verifier::external_body]
pub(crate) fn compressed_public_key(secret: &[u8]) -> (r: Option<Vec<u8>>)
    ensures
        r.is_some() == public_key_of(secret@).is_some(),
        r.is_some() ==> r.unwrap()@ == public_key_of(secret@).unwrap(),
{
    let secp = secp256k1::Secp256k1::signing_only();
    let sk = secp256k1::SecretKey::from_slice(secret).ok()?;
    Some(secp256k1::PublicKey::from_secret_key(&secp, &sk).serialize().to_vec())
}

/// The lower-case form of a text.
pub uninterp spec fn lower_of(s: Seq<char>) -> Seq<char>;

/// Relies on `str::to_lowercase`: the result depends on the characters alone.
#[verifier::external_body]
fn lowercase(s: &str) -> (r: String)
    ensures
        r@ == lower_of(s@),
{
    s.to_lowercase()
}

/// A text of `length` characters of `CHARACTER_SET`.
pub open spec fn is_alphanumeric_text(s: Seq<char>, length: nat) -> bool {
    s.len() == length && forall|i: int| 0 <= i < s.len() ==> CHARACTER_SET@.contains(#[trigger] s[i])
}

fn character_at(i: usize) -> (r: &'static str)
    requires
        i < 36,
    ensures
        r@ == seq![CHARACTER_SET@[i as int]],
{
    proof {
        reveal_strlit("ABCDEFGHIJKLMNOPQRSTUVWXYZ0123456789");
    }
    let c = CHARACTER_SET.substring_char(i, i + 1);
    assert(c@ =~= seq![CHARACTER_SET@[i as int]]);
    c
}

fn random_characters(length: usize) -> (r: String)
    ensures
        is_alphanumeric_text(r@, length as nat),
{
    let mut s = String::new();
    let mut i: usize = 0;
    while i < length
        invariant
            i <= length,
            is_alphanumeric_text(s@, i as nat),
        decreases length - i,
    {
        let k = random_index(36);
        let c = character_at(k);
        proof {
            reveal_strlit("ABCDEFGHIJKLMNOPQRSTUVWXYZ0123456789");
            assert(CHARACTER_SET@.contains(CHARACTER_SET@[k as int]));
        }
        let ghost before = s@;
        s.append(c);
        assert(s@ =~= before.push(CHARACTER_SET@[k as int]));
        i = i + 1;
    }
    s
}

/// A random passphrase of `length` characters from `CHARACTER_SET`; fails on length 0.
pub fn generate_alphanumeric_part(length: usize) -> (r: Result<String, PlatariumError>)
    ensures
        length == 0 <==> r.is_err(),
        r matches Ok(s) ==> is_alphanumeric_text(s@, length as nat),
{
    if length == 0 {
        return Err(PlatariumError::Validation(String::from_str("length must be a positive integer")));
    }
    Ok(random_characters(length))
}

/// A random 24-word English mnemonic and a 12-character passphrase.
pub fn generate_mnemonic() -> (r: Result<(String, String), PlatariumError>)
    ensures
        r matches Ok((m, a)) && bip39_accepts(m@) && is_alphanumeric_text(a@, 12),
{
    let entropy = random_entropy();
    let phrase = match phrase_from_entropy(entropy.as_slice()) {
        Some(p) => p,
        None => {
            return Err(PlatariumError::Bip39(String::from_str("entropy rejected")));
        },
    };
    Ok((phrase, random_characters(12)))
}

/// Whether `mnemonic` is a valid English BIP39 phrase.
pub fn validate_mnemonic(mnemonic: &str) -> (r: bool)
    ensures
        r == bip39_accepts(mnemonic@),
{
    phrase_is_valid(mnemonic)
}

/// The 32-byte signature seed: HKDF-SHA256 of the master seed with the salt and
/// info (the defaults where none is given). Fails on an empty master seed.
pub fn derive_signature_seed_from_master_seed(
    master_seed: &[u8],
    salt: Option<&[u8]>,
    info: Option<&[u8]>,
) -> (r: Result<Vec<u8>, PlatariumError>)
    ensures
        master_seed@.len() == 0 <==> r.is_err(),
        r matches Ok(v) ==> v@ == hkdf_sha256_of(
            match salt {
                Some(s) => s@,
                None => text_bytes(HKDF_SALT@),
            },
            master_seed@,
            match info {
                Some(i) => i@,
                None => text_bytes(HKDF_INFO@),
            },
        ) && v@.len() == 32,
{
    if master_seed.len() == 0 {
        return Err(PlatariumError::Validation(String::from_str("masterSeed must be non-empty")));
    }
    let salt = match salt {
        Some(s) => s,
        None => HKDF_SALT.as_bytes(),
    };
    let info = match info {
        Some(i) => i,
        None => HKDF_INFO.as_bytes(),
    };
    Ok(hkdf_sha256(salt, master_seed, info))
}

/// Hex of at most 32 bytes, padded with zeros on the left to 64 digits.
pub fn bn_to_hex32(value: &[u8]) -> (r: Result<String, PlatariumError>)
    ensures
        value@.len() > 32 <==> r.is_err(),
        r matches Ok(s) ==> s@ == Seq::new((64 - 2 * value@.len()) as nat, |i: int| '0') + hex_of(value@),
{
    if value.len() > 32 {
        return Err(PlatariumError::Validation(String::from_str("Value length is greater than 32 bytes")));
    }
    let mut s = String::new();
    let mut i: usize = 0;
    let pad = 64 - 2 * value.len();
    proof {
        reveal_strlit("0");
    }
    while i < pad
        invariant
            i <= pad,
            s@ == Seq::new(i as nat, |k: int| '0'),
        decreases pad - i,
    {
        proof {
            reveal_strlit("0");
        }
        s.append("0");
        assert(s@ =~= Seq::new((i + 1) as nat, |k: int| '0'));
        i = i + 1;
    }
    let h = hex_encode(value);
    s.append(h.as_str());
    Ok(s)
}

/// Whether the signature key is the one HKDF derives from the master seed
/// (compared without regard to case). Fails unless both keys are 64 bytes of
/// text, or on an empty master seed.
pub fn verify_correlation(
    private_key_hex: &str,
    signature_key_hex: &str,
    master_seed: &[u8],
    hkdf_salt: Option<&[u8]>,
    hkdf_info: Option<&[u8]>,
) -> (r: Result<bool, PlatariumError>)
    ensures
        (text_bytes(private_key_hex@).len() as usize != 64 || text_bytes(signature_key_hex@).len() as usize
            != 64 || master_seed@.len() == 0) <==> r.is_err(),
        r matches Ok(b) ==> b == (lower_of(
            hex_of(
                hkdf_sha256_of(
                    match hkdf_salt {
                        Some(s) => s@,
                        None => text_bytes(HKDF_SALT@),
                    },
                    master_seed@,
                    match hkdf_info {
                        Some(i) => i@,
                        None => text_bytes(HKDF_INFO@),
                    },
                ),
            ),
        ) == lower_of(signature_key_hex@)),
{
    if private_key_hex.len() != 64 || signature_key_hex.len() != 64 {
        return Err(
            PlatariumError::Validation(String::from_str("Invalid format of private keys for verification")),
        );
    }
    let signature_seed = derive_signature_seed_from_master_seed(master_seed, hkdf_salt, hkdf_info)?;
    let derived = hex_encode(signature_seed.as_slice());
    let a = lowercase(derived.as_str());
    let b = lowercase(signature_key_hex);
    Ok(a == b)
}

/// Hex text is ASCII, one byte per digit.
pub proof fn lemma_hex_text_bytes(b: Seq<u8>)
    ensures
        text_bytes(hex_of(b)).len() == 2 * b.len(),
{
    let h = hex_of(b);
    assert forall|k: int| 0 <= k < 16 implies '\0' <= #[trigger] hex_alphabet()[k] <= '\u{7f}' by {
        if k == 0 {
        } else if k == 1 {
        } else if k == 2 {
        } else if k == 3 {
        } else if k == 4 {
        } else if k == 5 {
        } else if k == 6 {
        } else if k == 7 {
        } else if k == 8 {
        } else if k == 9 {
        } else if k == 10 {
        } else if k == 11 {
        } else if k == 12 {
        } else if k == 13 {
        } else if k == 14 {
        } else {
        }
    }
    assert forall|i: int| 0 <= i < h.len() implies '\0' <= #[trigger] h[i] <= '\u{7f}' by {
        if i % 2 == 0 {
            assert(h[i] == hex_alphabet()[(b[i / 2] / 16) as int]);
        } else {
            assert(h[i] == hex_alphabet()[(b[i / 2] % 16) as int]);
        }
    }
    vstd::utf8::is_ascii_chars_encode_utf8(h);
}

/// Where the two keys of a key pair come from.
#[derive(Debug, Clone)]
pub struct DerivationPaths {
    pub main_path: String,
    pub signature_path: String,
}

/// A mnemonic, its passphrase, and the keys derived from them, as prefixed hex.
#[derive(Debug, Clone)]
pub struct KeyPair {
    pub mnemonic: String,
    pub alphanumeric_part: String,
    pub derivation_paths: DerivationPaths,
    pub public_key: String,
    pub private_key: String,
    pub signature_key: String,
}

/// Derives key pairs at a seed index, with the HKDF parameters of the signature key.
#[derive(Debug)]
pub struct KeyGenerator {
    seed_index: u32,
    hkdf_salt: Vec<u8>,
    hkdf_info: Vec<u8>,
    custom_path: Option<String>,
}

/// The main key's default path for a seed index.
pub open spec fn default_path(seed_index: u32) -> Seq<char> {
    "m/44'/60'/0'/0/"@ + decimal(seed_index as nat)
}

/// The views of an optional text.
pub open spec fn text_option(p: Option<String>) -> Option<Seq<char>> {
    match p {
        Some(t) => Some(t@),
        None => None,
    }
}

/// The main key's path: the one given, else the default for the seed index.
pub open spec fn path_of(custom: Option<Seq<char>>, seed_index: u32) -> Seq<char> {
    match custom {
        Some(p) => p,
        None => default_path(seed_index),
    }
}

/// `kp` holds the mnemonic and passphrase, the main key derived at `path` from
/// their BIP39 seed with its public key, and the signature key derived from
/// the seed by HKDF with `salt` and `info`.
pub open spec fn is_key_pair_of(
    kp: KeyPair,
    mnemonic: Seq<char>,
    passphrase: Seq<char>,
    path: Seq<char>,
    salt: Seq<u8>,
    info: Seq<u8>,
) -> bool {
    let seed = bip39_seed(mnemonic, passphrase);
    let main = bip32_key(seed, path);
    let sig = hkdf_sha256_of(salt, seed, info);
    &&& bip39_accepts(mnemonic)
    &&& kp.mnemonic@ == mnemonic
    &&& kp.alphanumeric_part@ == passphrase
    &&& kp.derivation_paths.main_path@ == path
    &&& kp.derivation_paths.signature_path@ == "HKDF-derived"@
    &&& main.is_some()
    &&& public_key_of(main.unwrap()).is_some()
    &&& public_key_of(sig).is_some()
    &&& kp.public_key@ == "Px"@ + hex_of(public_key_of(main.unwrap()).unwrap())
    &&& kp.private_key@ == key_text("PSx"@, main.unwrap())
    &&& kp.signature_key@ == key_text("Sx"@, sig)
}

/// A key as prefixed hex, padded with zeros on the left to 64 digits.
pub open spec fn key_text(prefix: Seq<char>, key: Seq<u8>) -> Seq<char> {
    prefix + Seq::new((64 - 2 * key.len()) as nat, |i: int| '0') + hex_of(key)
}

fn copy_bytes(b: &[u8]) -> (r: Vec<u8>)
    ensures
        r@ == b@,
{
    let mut r: Vec<u8> = Vec::new();
    let mut i: usize = 0;
    while i < b.len()
        invariant
            i <= b@.len(),
            r@ == b@.subrange(0, i as int),
        decreases b.len() - i,
    {
        r.push(b[i]);
        assert(r@ =~= b@.subrange(0, i + 1));
        i = i + 1;
    }
    assert(b@.subrange(0, b@.len() as int) =~= b@);
    r
}

fn prefixed(prefix: &str, body: &String) -> (r: String)
    ensures
        r@ == prefix@ + body@,
{
    let mut s = String::from_str(prefix);
    s.append(body.as_str());
    s
}

impl KeyGenerator {
    pub closed spec fn salt(&self) -> Seq<u8> {
        self.hkdf_salt@
    }

    pub closed spec fn info(&self) -> Seq<u8> {
        self.hkdf_info@
    }

    pub closed spec fn index(&self) -> u32 {
        self.seed_index
    }

    pub closed spec fn custom(&self) -> Option<Seq<char>> {
        text_option(self.custom_path)
    }

    /// A generator for `seed_index` (below 2^31 - 1), with the given HKDF salt and
    /// info or the defaults, and an optional fixed derivation path.
    pub fn new(
        seed_index: u32,
        hkdf_salt: Option<&[u8]>,
        hkdf_info: Option<&[u8]>,
        custom_path: Option<String>,
    ) -> (r: Result<Self, PlatariumError>)
        ensures
            seed_index >= 0x7fff_ffff <==> r.is_err(),
            r matches Ok(g) ==> g.index() == seed_index && g.custom() == text_option(custom_path) && g.salt() == match hkdf_salt {
                Some(s) => s@,
                None => text_bytes(HKDF_SALT@),
            } && g.info() == match hkdf_info {
                Some(i) => i@,
                None => text_bytes(HKDF_INFO@),
            },
    {
        if seed_index >= 0x7fff_ffff {
            return Err(
                PlatariumError::Validation(String::from_str("seedIndex must be in range [0, 2147483646]")),
            );
        }
        let salt = match hkdf_salt {
            Some(s) => copy_bytes(s),
            None => copy_bytes(HKDF_SALT.as_bytes()),
        };
        let info = match hkdf_info {
            Some(i) => copy_bytes(i),
            None => copy_bytes(HKDF_INFO.as_bytes()),
        };
        Ok(KeyGenerator { seed_index, hkdf_salt: salt, hkdf_info: info, custom_path })
    }

    /// Generates a fresh mnemonic and passphrase and derives their key pair.
    pub fn generate_keys(&self) -> (r: Result<KeyPair, PlatariumError>)
        ensures
            r matches Ok(kp) ==> is_alphanumeric_text(kp.alphanumeric_part@, 12) && is_key_pair_of(
                kp,
                kp.mnemonic@,
                kp.alphanumeric_part@,
                path_of(self.custom(), self.index()),
                self.salt(),
                self.info(),
            ),
    {
        let (mnemonic, alphanumeric_part) = generate_mnemonic()?;
        if !validate_mnemonic(mnemonic.as_str()) {
            return Err(
                PlatariumError::Validation(
                    String::from_str("Generated mnemonic is not valid according to BIP39"),
                ),
            );
        }
        let path = match &self.custom_path {
            Some(p) => Some(p.clone()),
            None => None,
        };
        self.restore_keys(mnemonic.as_str(), alphanumeric_part.as_str(), self.seed_index, path)
    }

    /// Derives the key pair of a mnemonic and passphrase: the main key at the
    /// path (`m/44'/60'/0'/0/<seed_index>` unless one is given) and the
    /// signature key by HKDF from the seed. Fails on an invalid mnemonic.
    pub fn restore_keys(
        &self,
        mnemonic: &str,
        alphanumeric_part: &str,
        seed_index: u32,
        custom_path: Option<String>,
    ) -> (r: Result<KeyPair, PlatariumError>)
        ensures
            r.is_ok() == (bip39_accepts(mnemonic@) && bip32_key(
                bip39_seed(mnemonic@, alphanumeric_part@),
                path_of(text_option(custom_path), seed_index),
            ).is_some() && public_key_of(
                bip32_key(
                    bip39_seed(mnemonic@, alphanumeric_part@),
                    path_of(text_option(custom_path), seed_index),
                ).unwrap(),
            ).is_some() && public_key_of(
                hkdf_sha256_of(self.salt(), bip39_seed(mnemonic@, alphanumeric_part@), self.info()),
            ).is_some()),
            r matches Ok(kp) ==> is_key_pair_of(
                kp,
                mnemonic@,
                alphanumeric_part@,
                path_of(text_option(custom_path), seed_index),
                self.salt(),
                self.info(),
            ),
    {
        if !validate_mnemonic(mnemonic) {
            return Err(
                PlatariumError::Validation(
                    String::from_str("Provided mnemonic is not valid according to BIP39"),
                ),
            );
        }
        self.build_keys_from_seed(mnemonic, alphanumeric_part, seed_index, custom_path)
    }

    fn build_keys_from_seed(
        &self,
        mnemonic: &str,
        alphanumeric_part: &str,
        seed_index: u32,
        custom_path: Option<String>,
    ) -> (r: Result<KeyPair, PlatariumError>)
        ensures
            r.is_ok() == (bip39_accepts(mnemonic@) && bip32_key(
                bip39_seed(mnemonic@, alphanumeric_part@),
                path_of(text_option(custom_path), seed_index),
            ).is_some() && public_key_of(
                bip32_key(
                    bip39_seed(mnemonic@, alphanumeric_part@),
                    path_of(text_option(custom_path), seed_index),
                ).unwrap(),
            ).is_some() && public_key_of(
                hkdf_sha256_of(self.salt(), bip39_seed(mnemonic@, alphanumeric_part@), self.info()),
            ).is_some()),
            r matches Ok(kp) ==> is_key_pair_of(
                kp,
                mnemonic@,
                alphanumeric_part@,
                path_of(text_option(custom_path), seed_index),
                self.salt(),
                self.info(),
            ),
    {
        let master_seed = match phrase_seed(mnemonic, alphanumeric_part) {
            Some(s) => s,
            None => {
                return Err(PlatariumError::Bip39(String::from_str("invalid mnemonic")));
            },
        };
        let main_path = match custom_path {
            Some(p) => p,
            None => {
                let mut p = String::from_str("m/44'/60'/0'/0/");
                push_decimal(&mut p, seed_index as u128);
                p
            },
        };
        let main_key = match derive_path_key(master_seed.as_slice(), main_path.as_str()) {
            Some(k) => k,
            None => {
                return Err(PlatariumError::Bip32(String::from_str("Invalid derivation path")));
            },
        };
        let main_public = match compressed_public_key(main_key.as_slice()) {
            Some(p) => p,
            None => {
                return Err(PlatariumError::Crypto(String::from_str("Invalid private key")));
            },
        };
        let signature_seed = derive_signature_seed_from_master_seed(
            master_seed.as_slice(),
            Some(self.hkdf_salt.as_slice()),
            Some(self.hkdf_info.as_slice()),
        )?;
        if compressed_public_key(signature_seed.as_slice()).is_none() {
            return Err(PlatariumError::Crypto(String::from_str("Invalid signature key")));
        }
        let private_key_hex = bn_to_hex32(main_key.as_slice())?;
        let signature_key_hex = bn_to_hex32(signature_seed.as_slice())?;
        proof {
            assert(private_key_hex@ =~= hex_of(main_key@));
            assert(signature_key_hex@ =~= hex_of(signature_seed@));
            lemma_hex_text_bytes(main_key@);
            lemma_hex_text_bytes(signature_seed@);
        }
        let is_valid = verify_correlation(
            private_key_hex.as_str(),
            signature_key_hex.as_str(),
            master_seed.as_slice(),
            Some(self.hkdf_salt.as_slice()),
            Some(self.hkdf_info.as_slice()),
        )?;
        if !is_valid {
            return Err(PlatariumError::Validation(String::from_str("Key correlation verification failed")));
        }
        let public_hex = hex_encode(main_public.as_slice());
        Ok(KeyPair {
            mnemonic: String::from_str(mnemonic),
            alphanumeric_part: String::from_str(alphanumeric_part),
            derivation_paths: DerivationPaths {
                main_path,
                signature_path: String::from_str("HKDF-derived"),
            },
            public_key: prefixed("Px", &public_hex),
            private_key: prefixed("PSx", &private_key_hex),
            signature_key: prefixed("Sx", &signature_key_hex),
        })
    }
}

impl Default for KeyGenerator {
    fn default() -> (r: Self)
        ensures
            r.index() == 0 && r.custom().is_none() && r.salt() == text_bytes(HKDF_SALT@) && r.info()
                == text_bytes(HKDF_INFO@),
    {
        KeyGenerator {
            seed_index: 0,
            hkdf_salt: copy_bytes(HKDF_SALT.as_bytes()),
            hkdf_info: copy_bytes(HKDF_INFO.as_bytes()),
            custom_path: None,
        }
    }
}

} // verus!
