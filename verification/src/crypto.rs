//! Hashing, token generation, secret encryption at rest, and the inline
//! script digests for the content-security policy.
//!
//! The outside primitives — SHA-256, hex, base64, HKDF, AES-256-GCM, the
//! random generator, and UUIDs — stand behind trusted wrappers; everything
//! that combines them is verified against the names those wrappers give
//! their results.

use aes_gcm::aead::Aead;
use aes_gcm::KeyInit;
use base64::Engine;
use sha2::Digest;
use vstd::prelude::*;
use vstd::string::StringSliceAdditionalSpecFns;

verus! {

/// The SHA-256 digest of a byte sequence.
pub uninterp spec fn sha256_of(data: Seq<u8>) -> Seq<u8>;

/// The lowercase hex rendering of a byte sequence.
pub uninterp spec fn hex_of(data: Seq<u8>) -> Seq<char>;

/// The standard base64 rendering of a byte sequence.
pub uninterp spec fn b64_of(data: Seq<u8>) -> Seq<char>;

/// The bytes a standard base64 string decodes to.
pub uninterp spec fn b64_bytes_of(s: Seq<char>) -> Seq<u8>;

/// The 32-byte key the key-derivation function yields for a key string.
pub uninterp spec fn derived_key_of(key_str: Seq<char>) -> Seq<u8>;

/// The 32-byte key the legacy bare-hash derivation yields for a key string.
pub uninterp spec fn legacy_key_of(key_str: Seq<char>) -> Seq<u8>;

/// The plaintext an authenticated decryption yields for a key, nonce and
/// ciphertext, when the tag verifies.
pub uninterp spec fn aead_plain_of(key: Seq<u8>, nonce: Seq<u8>, ct: Seq<u8>) -> Seq<u8>;

pub open spec fn is_hex_digit(c: char) -> bool {
    ('0' <= c && c <= '9') || ('a' <= c && c <= 'f')
}

/// Relies on `sha2::Sha256::digest`: a 32-byte digest determined by the
/// input alone.
#[verifier::external_body]
fn sha256(data: &[u8]) -> (r: Vec<u8>)
    ensures
        r@ == sha256_of(data@),
        r@.len() == 32,
{
    sha2::Sha256::digest(data).to_vec()
}

/// Relies on `hex::encode`: two lowercase hex digits per input byte,
/// determined by the input alone.
#[verifier::external_body]
fn hex_encode(data: &Vec<u8>) -> (r: String)
    ensures
        r@ == hex_of(data@),
        r@.len() == 2 * data@.len(),
        forall|i: int| 0 <= i < r@.len() ==> is_hex_digit(#[trigger] r@[i]),
{
    hex::encode(data)
}

/// Relies on `base64::engine::general_purpose::STANDARD.encode`: the padded
/// standard-alphabet rendering, determined by the input alone.
#[verifier::external_body]
fn b64_encode(data: &Vec<u8>) -> (r: String)
    ensures
        r@ == b64_of(data@),
{
    base64::engine::general_purpose::STANDARD.encode(data)
}

/// Relies on `base64::engine::general_purpose::STANDARD.decode`: on success
/// the bytes are determined by the input alone; malformed input fails.
#[verifier::external_body]
fn b64_decode(s: &str) -> (r: Option<Vec<u8>>)
    ensures
        r matches Some(v) ==> v@ == b64_bytes_of(s@),
{
    base64::engine::general_purpose::STANDARD.decode(s).ok()
}

/// Relies on `hkdf::Hkdf::<Sha256>` with a fixed salt and info string: a
/// 32-byte key determined by the key string alone. Expanding to 32 bytes
/// cannot fail for SHA-256.
#[verifier::external_body]
fn derive_key(key_str: &str) -> (r: Vec<u8>)
    ensures
        r@ == derived_key_of(key_str@),
        r@.len() == 32,
{
    let hk = hkdf::Hkdf::<sha2::Sha256>::new(
        Some(b"sovereign-engine-db-encryption"),
        key_str.as_bytes(),
    );
    let mut okm = [0u8; 32];
    let _ = hk.expand(b"aes-256-gcm-key", &mut okm);
    okm.to_vec()
}

/// Relies on `sha2::Sha256::digest`: the legacy key is the bare digest of
/// the key string, 32 bytes determined by it alone.
#[verifier::external_body]
fn derive_key_legacy(key_str: &str) -> (r: Vec<u8>)
    ensures
        r@ == legacy_key_of(key_str@),
        r@.len() == 32,
{
    sha2::Sha256::digest(key_str.as_bytes()).to_vec()
}

/// Relies on `aes_gcm::Aes256Gcm` via `aead::Aead::decrypt`: on success the
/// plaintext is determined by key, nonce and ciphertext alone; a bad tag or
/// malformed input fails.
#[verifier::external_body]
fn aead_open(key: &Vec<u8>, nonce: &[u8], ct: &[u8]) -> (r: Option<Vec<u8>>)
    requires
        key@.len() == 32,
        nonce@.len() == 12,
    ensures
        r matches Some(v) ==> v@ == aead_plain_of(key@, nonce@, ct@),
{
    let key = aes_gcm::Key::<aes_gcm::Aes256Gcm>::try_from(&key[..]).ok()?;
    let cipher = aes_gcm::Aes256Gcm::new(&key);
    let nonce = aes_gcm::Nonce::<aes_gcm::aes::cipher::consts::U12>::try_from(nonce).ok()?;
    cipher.decrypt(&nonce, ct).ok()
}

/// Relies on `aes_gcm::Aes256Gcm` via `aead::Aead::encrypt` under a fresh
/// random 12-byte nonce: whatever nonce was drawn, the result is the nonce
/// followed by the ciphertext, which carries a 16-byte tag.
#[verifier::external_body]
fn aead_seal(key: &Vec<u8>, plaintext: &[u8]) -> (r: Option<Vec<u8>>)
    requires
        key@.len() == 32,
    ensures
        r matches Some(v) ==> v@.len() == plaintext@.len() + 28,
{
    let key = aes_gcm::Key::<aes_gcm::Aes256Gcm>::try_from(&key[..]).ok()?;
    let cipher = aes_gcm::Aes256Gcm::new(&key);
    let nonce_bytes: [u8; 12] = rand::random();
    let nonce = aes_gcm::Nonce::<aes_gcm::aes::cipher::consts::U12>::from(nonce_bytes);
    let ct = cipher.encrypt(&nonce, plaintext).ok()?;
    let mut out = nonce_bytes.to_vec();
    out.extend_from_slice(&ct);
    Some(out)
}

/// Relies on `rand::random`: 32 bytes from the thread-local cryptographic
/// generator; nothing is promised of their values.
#[verifier::external_body]
fn random_bytes32() -> (r: Vec<u8>)
    ensures
        r@.len() == 32,
{
    let bytes: [u8; 32] = rand::random();
    bytes.to_vec()
}

/// Relies on `uuid::Uuid::new_v4` and its display form: a random
/// hyphenated identifier of 36 characters.
#[verifier::external_body]
fn new_uuid() -> (r: String)
    ensures
        r@.len() == 36,
{
    uuid::Uuid::new_v4().to_string()
}

/// Relies on `String::from_utf8`: on success the string's bytes are exactly
/// the input bytes.
#[verifier::external_body]
fn utf8_string(v: Vec<u8>) -> (r: Option<String>)
    ensures
        r matches Some(s) ==> vstd::utf8::encode_utf8(s@) == v@,
{
    String::from_utf8(v).ok()
}

// ---------------------------------------------------------------------------
// Token and session material
// ---------------------------------------------------------------------------

/// Hashes a token for storage: the hex form of its SHA-256 digest.
pub fn hash_token(token: &str) -> (r: String)
    ensures
        r@ == hex_of(sha256_of(token.spec_bytes())),
        r@.len() == 64,
        forall|i: int| 0 <= i < r@.len() ==> is_hex_digit(#[trigger] r@[i]),
{
    let digest = sha256(token.as_bytes());
    hex_encode(&digest)
}

/// A fresh random session token: 64 lowercase hex digits.
pub fn generate_session_token() -> (r: String)
    ensures
        r@.len() == 64,
        forall|i: int| 0 <= i < r@.len() ==> is_hex_digit(#[trigger] r@[i]),
{
    let bytes = random_bytes32();
    hex_encode(&bytes)
}

/// A fresh API token: a random identifier under the `se-` prefix.
pub fn generate_token() -> (r: String)
    ensures
        r@.len() == 39,
        r@.subrange(0, 3) == "se-"@,
{
    let mut s = String::from_str("se-");
    let id = new_uuid();
    s.append(id.as_str());
    proof {
        reveal_strlit("se-");
        assert(s@.subrange(0, 3) =~= "se-"@);
    }
    s
}

// ---------------------------------------------------------------------------
// Secrets at rest
// ---------------------------------------------------------------------------

/// Why a stored secret failed to decrypt.
#[derive(Debug, Clone, Copy, PartialEq, Eq, Structural)]
pub enum CryptoError {
    InvalidBase64,
    TooShort,
    DecryptFailed,
    InvalidUtf8,
}

impl CryptoError {
    /// The human-readable description of this error.
    pub fn message(&self) -> (r: String)
        ensures
            *self == CryptoError::InvalidBase64 ==> r@ == "invalid base64"@,
            *self == CryptoError::TooShort ==> r@ == "ciphertext too short"@,
            *self == CryptoError::DecryptFailed ==> r@
                == "decryption failed — wrong key or corrupted data"@,
            *self == CryptoError::InvalidUtf8 ==> r@ == "decrypted value is not valid UTF-8"@,
    {
        match self {
            CryptoError::InvalidBase64 => String::from_str("invalid base64"),
            CryptoError::TooShort => String::from_str("ciphertext too short"),
            CryptoError::DecryptFailed => String::from_str(
                "decryption failed — wrong key or corrupted data",
            ),
            CryptoError::InvalidUtf8 => String::from_str("decrypted value is not valid UTF-8"),
        }
    }
}

/// Decrypts `base64(nonce || ciphertext)` with a key derived from
/// `key_str`. On success the plaintext is the authenticated decryption of
/// the decoded payload under the derived key.
pub fn decrypt(encrypted: &str, key_str: &str) -> (r: Result<String, CryptoError>)
    ensures
        r matches Ok(s) ==> ({
            let v = b64_bytes_of(encrypted@);
            v.len() >= 12 && vstd::utf8::encode_utf8(s@) == aead_plain_of(
                derived_key_of(key_str@),
                v.subrange(0, 12),
                v.subrange(12, v.len() as int),
            )
        }),
{
    let key = derive_key(key_str);
    decrypt_with_key_bytes(&key, encrypted, Ghost(derived_key_of(key_str@)))
}

/// Decrypts with an already-derived 32-byte key.
fn decrypt_with_key_bytes(key: &Vec<u8>, encrypted: &str, Ghost(key_name): Ghost<Seq<u8>>) -> (r:
    Result<String, CryptoError>)
    requires
        key@.len() == 32,
        key@ == key_name,
    ensures
        r matches Ok(s) ==> ({
            let v = b64_bytes_of(encrypted@);
            v.len() >= 12 && vstd::utf8::encode_utf8(s@) == aead_plain_of(
                key_name,
                v.subrange(0, 12),
                v.subrange(12, v.len() as int),
            )
        }),
{
    let combined = match b64_decode(encrypted) {
        Some(v) => v,
        None => {
            return Err(CryptoError::InvalidBase64);
        },
    };
    if combined.len() < 12 {
        return Err(CryptoError::TooShort);
    }
    let (nonce, ct) = combined.as_slice().split_at(12);
    let plain = match aead_open(key, nonce, ct) {
        Some(p) => p,
        None => {
            return Err(CryptoError::DecryptFailed);
        },
    };
    match utf8_string(plain) {
        Some(s) => Ok(s),
        None => Err(CryptoError::InvalidUtf8),
    }
}

/// Encrypts a secret with a key derived from `key_str`, producing
/// `base64(nonce || ciphertext)` under a fresh random nonce. Encryption of
/// reasonable inputs does not fail; `None` reports an internal refusal of
/// the cipher.
pub fn encrypt(plaintext: &str, key_str: &str) -> (r: Option<String>)
{
    let key = derive_key(key_str);
    match aead_seal(&key, plaintext.as_bytes()) {
        Some(sealed) => Some(b64_encode(&sealed)),
        None => None,
    }
}

/// What the startup migration should do with one stored secret value: keep
/// it (already under the current key), or replace it with the returned
/// re-encrypted value. Tries, in order: the current key, the old key if
/// rotating, the legacy derivation of both, the empty-key derivation, and
/// finally treats the value as plaintext.
pub fn migration_action(secret_enc: &str, key: &str, old_key: Option<&str>) -> (r: Option<String>)
{
    let current = derive_key(key);
    if decrypt_with_key_bytes(&current, secret_enc, Ghost(derived_key_of(key@))).is_ok() {
        return None;
    }
    if let Some(old) = old_key {
        let old_hkdf = derive_key(old);
        if let Ok(plain) = decrypt_with_key_bytes(
            &old_hkdf,
            secret_enc,
            Ghost(derived_key_of(old@)),
        ) {
            return encrypt(plain.as_str(), key);
        }
    }
    let legacy_current = derive_key_legacy(key);
    if let Ok(plain) = decrypt_with_key_bytes(
        &legacy_current,
        secret_enc,
        Ghost(legacy_key_of(key@)),
    ) {
        return encrypt(plain.as_str(), key);
    }
    if let Some(old) = old_key {
        let legacy_old = derive_key_legacy(old);
        if let Ok(plain) = decrypt_with_key_bytes(
            &legacy_old,
            secret_enc,
            Ghost(legacy_key_of(old@)),
        ) {
            return encrypt(plain.as_str(), key);
        }
    }
    if !key.is_empty() {
        let empty_key = derive_key("");
        if let Ok(plain) = decrypt_with_key_bytes(
            &empty_key,
            secret_enc,
            Ghost(derived_key_of(""@)),
        ) {
            return encrypt(plain.as_str(), key);
        }
    }
    encrypt(secret_enc, key)
}

// ---------------------------------------------------------------------------
// Content-security-policy script digests
// ---------------------------------------------------------------------------

/// Finds the first occurrence of `needle` in `haystack` at or after `from`.
fn find_bytes(haystack: &[u8], needle: &[u8], from: usize) -> (r: Option<usize>)
    requires
        from <= haystack@.len(),
        needle@.len() >= 1,
    ensures
        r matches Some(p) ==> from <= p && p + needle@.len() <= haystack@.len()
            && haystack@.subrange(p as int, p + needle@.len()) == needle@,
        r is None ==> forall|q: int|
            from <= q && q + needle@.len() <= haystack@.len() ==> #[trigger] haystack@.subrange(
                q,
                q + needle@.len(),
            ) != needle@,
{
    let n = haystack.len();
    let m = needle.len();
    if m > n {
        return None;
    }
    let last = n - m;
    if from > last {
        return None;
    }
    let mut p: usize = from;
    while p <= last
        invariant
            from <= p,
            m == needle@.len(),
            n == haystack@.len(),
            1 <= m <= n,
            last == n - m,
            p <= last + 1,
            forall|q: int|
                from <= q < p && q + m <= n ==> #[trigger] haystack@.subrange(q, q + m)
                    != needle@,
        decreases last + 1 - p,
    {
        let window = &haystack[p..p + m];
        if crate::util::bytes_eq(window, needle) {
            proof {
                assert(haystack@.subrange(p as int, p + m) == needle@);
            }
            return Some(p);
        }
        proof {
            assert(haystack@.subrange(p as int, p as int + m) != needle@);
        }
        p += 1;
    }
    None
}

/// Every listed hash is the digest tag of some span of the document.
pub open spec fn hashes_ok(hs: Seq<String>, doc: Seq<u8>) -> bool {
    forall|i: int|
        0 <= i < hs.len() ==> exists|a: int, b: int|
            0 <= a <= b <= doc.len() && (#[trigger] hs[i])@ == "sha256-"@ + b64_of(
                sha256_of(doc.subrange(a, b)),
            )
}

proof fn lemma_hashes_push(hs: Seq<String>, doc: Seq<u8>, t: String, a: int, b: int)
    requires
        hashes_ok(hs, doc),
        0 <= a <= b <= doc.len(),
        t@ == "sha256-"@ + b64_of(sha256_of(doc.subrange(a, b))),
    ensures
        hashes_ok(hs.push(t), doc),
{
    let hs2 = hs.push(t);
    assert forall|i: int| 0 <= i < hs2.len() implies exists|a2: int, b2: int|
        0 <= a2 <= b2 <= doc.len() && (#[trigger] hs2[i])@ == "sha256-"@ + b64_of(
            sha256_of(doc.subrange(a2, b2)),
        ) by {
        if i < hs.len() {
            assert(hs2[i] == hs[i]);
        } else {
            assert(hs2[i] == t);
        }
    }
}

/// The base64 SHA-256 digests of the inline script blocks of an HTML page:
/// for every returned entry there is a block of the page whose digest it is.
/// Blocks are `<script>...</script>` spans without attributes, scanned left
/// to right; an unclosed tag ends the scan.
pub fn extract_inline_script_hashes(html: &str) -> (r: Vec<String>)
    ensures
        hashes_ok(r@, html.spec_bytes()),
{
    let bytes = html.as_bytes();
    let open_tag: [u8; 8] = [60, 115, 99, 114, 105, 112, 116, 62];  // <script>
    let close_tag: [u8; 9] = [60, 47, 115, 99, 114, 105, 112, 116, 62];  // </script>
    let mut hashes: Vec<String> = Vec::new();
    let mut search_from: usize = 0;
    let n = bytes.len();
    while search_from <= n
        invariant
            search_from <= n + 1,
            n == html.spec_bytes().len(),
            bytes@ == html.spec_bytes(),
            hashes_ok(hashes@, html.spec_bytes()),
        decreases n + 1 - search_from,
    {
        let open_at = match find_bytes(bytes, &open_tag, search_from) {
            Some(p) => p,
            None => {
                break ;
            },
        };
        let content_start = open_at + 8;
        let close_at = match find_bytes(bytes, &close_tag, content_start) {
            Some(p) => p,
            None => {
                break ;
            },
        };
        let content = &bytes[content_start..close_at];
        let digest = sha256(content);
        let b64 = b64_encode(&digest);
        let mut tag = String::from_str("sha256-");
        tag.append(b64.as_str());
        let ghost prior = hashes@;
        proof {
            assert(content@ == html.spec_bytes().subrange(content_start as int, close_at as int));
            assert(tag@ == "sha256-"@ + b64_of(
                sha256_of(html.spec_bytes().subrange(content_start as int, close_at as int)),
            ));
            lemma_hashes_push(
                prior,
                html.spec_bytes(),
                tag,
                content_start as int,
                close_at as int,
            );
        }
        hashes.push(tag);
        let next = close_at + 9;
        if next <= search_from {
            break ;
        }
        search_from = next;
    }
    hashes
}

} // verus!
