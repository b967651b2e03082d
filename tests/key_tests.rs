use platarium_core::keys::{
    bn_to_hex32, derive_signature_seed_from_master_seed, generate_alphanumeric_part, generate_mnemonic,
    validate_mnemonic, verify_correlation, KeyGenerator,
};
use platarium_core::signature::verify_signature;
use platarium_core::signing::{canonical_json, hash_message, sign_message, sign_with_both_keys};

#[test]
fn test_generate_keys() {
    let key_gen = KeyGenerator::default();
    let keys = key_gen.generate_keys().unwrap();
    assert!(!keys.mnemonic.is_empty());
    assert_eq!(keys.alphanumeric_part.len(), 12);
    assert!(keys.public_key.starts_with("Px"));
    assert!(keys.private_key.starts_with("PSx"));
    assert!(keys.signature_key.starts_with("Sx"));
}

#[test]
fn test_restore_keys() {
    let key_gen = KeyGenerator::default();
    let generated = key_gen.generate_keys().unwrap();
    let restored = key_gen.restore_keys(&generated.mnemonic, &generated.alphanumeric_part, 0, None).unwrap();
    assert_eq!(restored.public_key, generated.public_key);
    assert_eq!(restored.private_key, generated.private_key);
    assert_eq!(restored.signature_key, generated.signature_key);
}

#[test]
fn test_generate_mnemonic() {
    let (mnemonic, alphanumeric) = generate_mnemonic().unwrap();
    assert!(!mnemonic.is_empty());
    assert_eq!(alphanumeric.len(), 12);
    assert!(validate_mnemonic(&mnemonic));
}

#[test]
fn test_validate_mnemonic() {
    let (mnemonic, _) = generate_mnemonic().unwrap();
    assert!(validate_mnemonic(&mnemonic));
    assert!(!validate_mnemonic("invalid mnemonic phrase here"));
}

#[test]
fn utils_test_derive_signature_seed() {
    let master_seed = b"test master seed";
    let result = derive_signature_seed_from_master_seed(master_seed, None, None).unwrap();
    assert_eq!(result.len(), 32);
}

#[test]
fn utils_test_bn_to_hex32() {
    let value = b"test";
    let hex = bn_to_hex32(value).unwrap();
    assert_eq!(hex.len(), 64);
    assert!(hex.starts_with("0"));
}

#[test]
fn signature_test_hash_message() {
    let hash = hash_message("{\"test\":\"data\"}");
    assert_eq!(hash.len(), 32);
}

#[test]
fn test_sign_and_verify() {
    let message = "{\"test\":\"message\"}";
    let sig_components = sign_message(&[1u8; 32], message).unwrap();
    let verified = verify_signature(
        &hash_message(message),
        &sig_components.signature_compact[..128],
        &sig_components.pub_key,
    )
    .unwrap();
    assert!(verified);
}

#[test]
fn signer_test_sign_with_both_keys() {
    let (mnemonic, alphanumeric) = generate_mnemonic().unwrap();
    let message = "{\"test\":\"message\"}";
    let result = sign_with_both_keys(message, &mnemonic, &alphanumeric).unwrap();
    assert_eq!(result.signatures.len(), 2);
    assert_eq!(result.signatures[0].sig_type, "main");
    assert_eq!(result.signatures[1].sig_type, "hkdf");
}

#[test]
fn test_mnemonic_generation() {
    let (mnemonic, alphanumeric) = generate_mnemonic().unwrap();
    assert!(!mnemonic.is_empty());
    assert_eq!(alphanumeric.len(), 12);
    assert!(validate_mnemonic(&mnemonic));
}

#[test]
fn test_mnemonic_validation() {
    let (mnemonic, _) = generate_mnemonic().unwrap();
    assert!(validate_mnemonic(&mnemonic));
    assert!(!validate_mnemonic("invalid mnemonic phrase here"));
}

#[test]
fn test_generate_alphanumeric_part() {
    let part = generate_alphanumeric_part(10).unwrap();
    assert_eq!(part.len(), 10);
    assert!(part.chars().all(|c| c.is_ascii_alphanumeric()));
    let part15 = generate_alphanumeric_part(15).unwrap();
    assert_eq!(part15.len(), 15);
}

#[test]
fn test_key_generator_generate_keys() {
    let key_gen = KeyGenerator::new(0, None, None, None).unwrap();
    let keys = key_gen.generate_keys().unwrap();
    assert!(!keys.mnemonic.is_empty());
    assert_eq!(keys.alphanumeric_part.len(), 12);
    assert!(keys.public_key.starts_with("Px"));
    assert!(keys.private_key.starts_with("PSx"));
    assert!(keys.signature_key.starts_with("Sx"));
    assert_eq!(keys.private_key.len(), 67);
    assert_eq!(keys.signature_key.len(), 66);
}

#[test]
fn test_key_generator_restore_keys() {
    let key_gen = KeyGenerator::new(0, None, None, None).unwrap();
    let generated = key_gen.generate_keys().unwrap();
    let restored = key_gen.restore_keys(&generated.mnemonic, &generated.alphanumeric_part, 0, None).unwrap();
    assert_eq!(restored.public_key, generated.public_key);
    assert_eq!(restored.private_key, generated.private_key);
    assert_eq!(restored.signature_key, generated.signature_key);
}

#[test]
fn test_key_correlation_verification() {
    let key_gen = KeyGenerator::new(0, None, None, None).unwrap();
    let keys = key_gen.generate_keys().unwrap();
    let private_key_hex = keys.private_key.strip_prefix("PSx").unwrap();
    let signature_key_hex = keys.signature_key.strip_prefix("Sx").unwrap();
    let mnemonic_obj = bip39::Mnemonic::parse_in_normalized(bip39::Language::English, &keys.mnemonic).unwrap();
    let master_seed = mnemonic_obj.to_seed(&keys.alphanumeric_part);
    let is_valid = verify_correlation(private_key_hex, signature_key_hex, &master_seed, None, None).unwrap();
    assert!(is_valid, "Key correlation verification failed");
}

#[test]
fn test_custom_derivation_path() {
    let custom_path = "m/44'/60'/1'/0/0";
    let key_gen = KeyGenerator::new(0, None, None, Some(custom_path.to_string())).unwrap();
    let keys = key_gen.generate_keys().unwrap();
    assert_eq!(keys.derivation_paths.main_path, custom_path);
}

#[test]
fn integration_test_test_sign_with_both_keys() {
    let (mnemonic, alphanumeric) = generate_mnemonic().unwrap();
    let message = "{\"test\":\"message\",\"timestamp\":1234567890}";
    let result = sign_with_both_keys(message, &mnemonic, &alphanumeric).unwrap();
    assert_eq!(result.signatures.len(), 2);
    assert_eq!(result.signatures[0].sig_type, "main");
    assert_eq!(result.signatures[1].sig_type, "hkdf");
    assert!(!result.hash.is_empty());
}

#[test]
fn test_sign_and_verify_signature() {
    let message = "{\"from\":\"Px1234\",\"timestamp\":1234567890,\"to\":\"Px5678\",\"value\":\"100\"}";
    let sig_components = sign_message(&[1u8; 32], message).unwrap();
    let verified = verify_signature(
        &hash_message(message),
        &sig_components.signature_compact[..128],
        &sig_components.pub_key,
    )
    .unwrap();
    assert!(verified, "Signature verification failed");
}

#[test]
fn integration_test_test_hash_message() {
    let message = "{\"number\":42,\"test\":\"data\"}";
    let hash1 = hash_message(message);
    let hash2 = hash_message(message);
    assert_eq!(hash1, hash2);
    assert_eq!(hash1.len(), 32);
}

#[test]
fn integration_test_test_bn_to_hex32() {
    let value = b"test";
    let hex = bn_to_hex32(value).unwrap();
    assert_eq!(hex.len(), 64);
    assert!(hex.starts_with("0"));
}

#[test]
fn integration_test_test_derive_signature_seed() {
    let master_seed = b"test master seed for hkdf derivation";
    let signature_seed = derive_signature_seed_from_master_seed(master_seed, None, None).unwrap();
    assert_eq!(signature_seed.len(), 32);
    let signature_seed2 = derive_signature_seed_from_master_seed(master_seed, None, None).unwrap();
    assert_eq!(signature_seed, signature_seed2);
}

#[test]
fn test_full_workflow() {
    let (_mnemonic, _alphanumeric) = generate_mnemonic().unwrap();
    let key_gen = KeyGenerator::new(0, None, None, None).unwrap();
    let keys = key_gen.generate_keys().unwrap();
    let transaction = format!(
        "{{\"from\":\"{}\",\"nonce\":1,\"timestamp\":1234567890,\"to\":\"Px1234567890abcdef\",\"value\":\"100\"}}",
        keys.public_key
    );
    let signature_result = sign_with_both_keys(&transaction, &keys.mnemonic, &keys.alphanumeric_part).unwrap();
    let digest = hash_message(&transaction);
    let main_sig_verified = verify_signature(
        &digest,
        &signature_result.signatures[0].signature_compact[..128],
        &signature_result.signatures[0].pub_key,
    )
    .unwrap();
    let hkdf_sig_verified = verify_signature(
        &digest,
        &signature_result.signatures[1].signature_compact[..128],
        &signature_result.signatures[1].pub_key,
    )
    .unwrap();
    assert!(main_sig_verified, "Main signature verification failed");
    assert!(hkdf_sig_verified, "HKDF signature verification failed");
}

#[test]
fn test_all_modules_loaded() {
    let _key_gen = KeyGenerator::default();
    let (_, _) = generate_mnemonic().unwrap();
    let _part = generate_alphanumeric_part(10).unwrap();
}

#[test]
fn test_error_handling() {
    assert!(generate_alphanumeric_part(0).is_err());
    assert!(!validate_mnemonic("invalid mnemonic phrase"));
    assert!(KeyGenerator::new(2u32.pow(31), None, None, None).is_err());
}

#[test]
fn test_key_generator_different_indices() {
    let key_gen0 = KeyGenerator::new(0, None, None, None).unwrap();
    let key_gen1 = KeyGenerator::new(1, None, None, None).unwrap();
    let keys0 = key_gen0.generate_keys().unwrap();
    let keys1 = key_gen1.generate_keys().unwrap();
    assert_ne!(keys0.public_key, keys1.public_key);
    assert_ne!(keys0.private_key, keys1.private_key);
}

#[test]
fn test_signature_components() {
    let sig = sign_message(&[2u8; 32], "{\"test\":\"data\"}").unwrap();
    assert_eq!(sig.r.len(), 64);
    assert_eq!(sig.s.len(), 64);
    assert!(!sig.pub_key.is_empty());
    assert!(!sig.der.is_empty());
    assert!(!sig.signature_compact.is_empty());
}

#[test]
fn test_multiple_signatures_same_message() {
    let (mnemonic, alphanumeric) = generate_mnemonic().unwrap();
    let message = "{\"test\":\"message\"}";
    let sig1 = sign_with_both_keys(message, &mnemonic, &alphanumeric).unwrap();
    let sig2 = sign_with_both_keys(message, &mnemonic, &alphanumeric).unwrap();
    assert_eq!(sig1.hash, sig2.hash);
    assert_eq!(sig1.signatures[0].r, sig2.signatures[0].r);
    assert_eq!(sig1.signatures[1].r, sig2.signatures[1].r);
}

#[test]
fn test_different_messages_different_hashes() {
    let hash1 = hash_message("{\"value\":1}");
    let hash2 = hash_message("{\"value\":2}");
    assert_ne!(hash1, hash2);
}

#[test]
fn restore_is_reproducible_and_path_shaped() {
    let phrase = "abandon abandon abandon abandon abandon abandon abandon abandon abandon abandon abandon about";
    let key_gen = KeyGenerator::new(3, None, None, None).unwrap();
    let a = key_gen.restore_keys(phrase, "PASS", 3, None).unwrap();
    let b = key_gen.restore_keys(phrase, "PASS", 3, None).unwrap();
    assert_eq!(a.public_key, b.public_key);
    assert_eq!(a.derivation_paths.main_path, "m/44'/60'/0'/0/3");
    assert_eq!(a.derivation_paths.signature_path, "HKDF-derived");
    assert_eq!(a.public_key.len(), 2 + 66);
    let c = key_gen.restore_keys(phrase, "OTHER", 3, None).unwrap();
    assert_ne!(a.signature_key, c.signature_key);
    assert!(key_gen.restore_keys("not a phrase", "PASS", 3, None).is_err());
    assert!(KeyGenerator::new(0x7fff_fffe, None, None, None).is_ok());
    assert!(KeyGenerator::new(0x7fff_ffff, None, None, None).is_err());
    assert!(bn_to_hex32(&[0u8; 33]).is_err());
    assert_eq!(bn_to_hex32(&[0xab]).unwrap(), format!("{}ab", "0".repeat(62)));
    assert!(verify_correlation("short", "short", b"seed", None, None).is_err());
}

#[test]
fn correlation_ignores_case() {
    let seed = b"some master seed";
    let derived = derive_signature_seed_from_master_seed(seed, None, None).unwrap();
    let upper = hex::encode(&derived).to_uppercase();
    assert!(verify_correlation(&"0".repeat(64), &upper, seed, None, None).unwrap());
    assert!(!verify_correlation(&"0".repeat(64), &"0".repeat(64), seed, None, None).unwrap());
}

#[test]
fn canonical_json_reorders_keys() {
    assert_eq!(canonical_json("{ \"value\": 1, \"a\" : [1, 2] }").unwrap(), "{\"a\":[1,2],\"value\":1}");
    assert!(canonical_json("not json").is_err());
}
