use base64::Engine;
use fairsched::crypto::{
    decrypt, encrypt, extract_inline_script_hashes, generate_session_token, generate_token,
    hash_token, migration_action,
};

const TEST_KEY: &str = "test-encryption-key-with-enough-entropy";
const NEW_KEY: &str = "new-encryption-key-for-rotation-test";

#[test]
fn encrypt_decrypt_roundtrip() {
    let plaintext = "my-secret-client-secret";
    let encrypted = encrypt(plaintext, TEST_KEY).unwrap();
    let decrypted = decrypt(&encrypted, TEST_KEY).unwrap();
    assert_eq!(decrypted, plaintext);
}

#[test]
fn decrypt_with_wrong_key_fails() {
    let encrypted = encrypt("secret", TEST_KEY).unwrap();
    let result = decrypt(&encrypted, "wrong-key");
    assert!(result.is_err());
}

#[test]
fn decrypt_with_invalid_base64_fails() {
    let result = decrypt("not-valid-base64!!!", TEST_KEY);
    assert!(result.is_err());
}

#[test]
fn decrypt_with_truncated_ciphertext_fails() {
    let encrypted = encrypt("secret", TEST_KEY).unwrap();
    // Decode, truncate to less than 12 bytes (nonce size), re-encode
    let bytes = base64::engine::general_purpose::STANDARD
        .decode(&encrypted)
        .unwrap();
    let truncated = base64::engine::general_purpose::STANDARD.encode(&bytes[..8]);
    let result = decrypt(&truncated, TEST_KEY);
    assert!(result.is_err());
}

#[test]
fn same_plaintext_same_key_produces_different_ciphertexts() {
    let a = encrypt("same-input", TEST_KEY).unwrap();
    let b = encrypt("same-input", TEST_KEY).unwrap();
    assert_ne!(a, b, "random nonce should produce different ciphertexts");
}

#[test]
fn migration_keeps_current_key_ciphertext() {
    let enc = encrypt("already-encrypted", TEST_KEY).unwrap();
    assert!(migration_action(&enc, TEST_KEY, None).is_none());
}

#[test]
fn migration_rotates_old_key_ciphertext() {
    let secret = "rotatable-secret";
    let enc_old = encrypt(secret, TEST_KEY).unwrap();
    let migrated = migration_action(&enc_old, NEW_KEY, Some(TEST_KEY)).unwrap();
    assert_ne!(migrated, enc_old);
    assert_eq!(decrypt(&migrated, NEW_KEY).unwrap(), secret);
}

#[test]
fn migration_encrypts_plaintext() {
    let migrated = migration_action("plaintext-secret", TEST_KEY, None).unwrap();
    assert_eq!(decrypt(&migrated, TEST_KEY).unwrap(), "plaintext-secret");
}

#[test]
fn migration_recovers_empty_key_ciphertext() {
    let secret = "secret-encrypted-with-empty-key";
    let enc_empty = encrypt(secret, "").unwrap();
    let migrated = migration_action(&enc_empty, TEST_KEY, None).unwrap();
    assert_eq!(decrypt(&migrated, TEST_KEY).unwrap(), secret);
}

#[test]
fn derive_key_is_deterministic() {
    // The derived key is a function of the key string alone: one ciphertext
    // decrypts to the same value on every call with the same key.
    let enc = encrypt("probe", TEST_KEY).unwrap();
    let d1 = decrypt(&enc, TEST_KEY).unwrap();
    let d2 = decrypt(&enc, TEST_KEY).unwrap();
    assert_eq!(d1, d2);
    assert_eq!(d1, "probe");
}

// -----------------------------------------------------------------------
// tokens and sessions
// -----------------------------------------------------------------------

#[test]
fn generate_session_token_is_64_char_hex() {
    let token = generate_session_token();
    assert_eq!(token.len(), 64);
    assert!(
        token.chars().all(|c| c.is_ascii_hexdigit()),
        "token should be valid hex, got: {token}"
    );
}

#[test]
fn generate_token_has_correct_prefix_and_uuid() {
    let token = generate_token();
    assert!(token.starts_with("se-"), "token should start with 'se-'");
    let uuid_part = &token[3..];
    assert!(
        uuid::Uuid::parse_str(uuid_part).is_ok(),
        "part after 'se-' should be a valid UUID, got: {uuid_part}"
    );
}

#[test]
fn hash_token_is_deterministic() {
    let hash1 = hash_token("se-test-token");
    let hash2 = hash_token("se-test-token");
    assert_eq!(hash1, hash2);
}

#[test]
fn hash_token_output_is_64_char_hex() {
    let hash = hash_token("se-anything");
    assert_eq!(hash.len(), 64);
    assert!(
        hash.chars().all(|c| c.is_ascii_hexdigit()),
        "hash should be valid hex, got: {hash}"
    );
}

#[test]
fn hash_token_different_inputs_produce_different_hashes() {
    let h1 = hash_token("se-token-a");
    let h2 = hash_token("se-token-b");
    assert_ne!(h1, h2);
}

// -----------------------------------------------------------------------
// content-security-policy script digests
// -----------------------------------------------------------------------

#[test]
fn no_scripts_returns_empty_vec() {
    let html = "<html><body><p>Hello</p></body></html>";
    let hashes = extract_inline_script_hashes(html);
    assert!(hashes.is_empty());
}

#[test]
fn single_inline_script_returns_one_hash() {
    let html = r#"<html><head><script>console.log("hi")</script></head></html>"#;
    let hashes = extract_inline_script_hashes(html);
    assert_eq!(hashes.len(), 1);
    assert!(hashes[0].starts_with("sha256-"));
}

#[test]
fn single_inline_script_hash_is_deterministic() {
    let html = "<script>var x = 1;</script>";
    let h1 = extract_inline_script_hashes(html);
    let h2 = extract_inline_script_hashes(html);
    assert_eq!(h1, h2);
}

#[test]
fn multiple_inline_scripts_returns_all_hashes() {
    let html = r#"
        <script>var a = 1;</script>
        <script>var b = 2;</script>
        <script>var c = 3;</script>
    "#;
    let hashes = extract_inline_script_hashes(html);
    assert_eq!(hashes.len(), 3);
    // All hashes should be distinct (different content)
    assert_ne!(hashes[0], hashes[1]);
    assert_ne!(hashes[1], hashes[2]);
    assert_ne!(hashes[0], hashes[2]);
}

#[test]
fn script_with_src_attribute_is_not_matched() {
    // The scanner looks for "<script>" exactly — a <script src="..."> tag won't match
    let html = r#"<script src="app.js"></script><script>inline()</script>"#;
    let hashes = extract_inline_script_hashes(html);
    assert_eq!(hashes.len(), 1);
    // The hash should be for "inline()" not the src tag
}

#[test]
fn empty_inline_script_still_hashed() {
    let html = "<script></script>";
    let hashes = extract_inline_script_hashes(html);
    assert_eq!(hashes.len(), 1);
    assert!(hashes[0].starts_with("sha256-"));
}

#[test]
fn hash_matches_known_value() {
    // SHA-256 of empty string = 47DEQpj8HBSa+/TImW+5JCeuQeRkm5NMpJWZG3hSuFU=
    let html = "<script></script>";
    let hashes = extract_inline_script_hashes(html);
    assert_eq!(
        hashes[0],
        "sha256-47DEQpj8HBSa+/TImW+5JCeuQeRkm5NMpJWZG3hSuFU="
    );
}

#[test]
fn unclosed_script_tag_stops_parsing() {
    let html = "<script>var x = 1;";
    let hashes = extract_inline_script_hashes(html);
    assert!(hashes.is_empty());
}
