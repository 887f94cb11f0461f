//! The vault's encryption: PBKDF2-HMAC-SHA256 key derivation and AES-256-GCM
//! sealing through `ring`, and the hex envelope the vault file stores.

use vstd::prelude::*;
use ring::aead;
use ring::rand::SecureRandom;
use crate::codec::{hex_bytes, hex_decode, hex_encode, hex_text, lemma_hex_roundtrip};

verus! {

broadcast use vstd::string::group_string_axioms;

/// PBKDF2 iteration count of the vault key derivation.
pub const PBKDF2_ITERATIONS: u32 = 100000;
/// Length of the derived AES-256 key, in bytes.
pub const KEY_LEN: usize = 32;
/// Length of the random salt, in bytes.
pub const SALT_LEN: usize = 32;
/// Length of an AES-GCM nonce, in bytes.
pub const NONCE_LEN: usize = 12;
/// Length of an AES-GCM authentication tag, in bytes.
pub const TAG_LEN: usize = 16;
/// Largest plaintext that AES-GCM in `ring` accepts: (2^32 - 2) blocks of 16 bytes.
pub const MAX_PLAINTEXT_LEN: u64 = 0xF_FFFF_FFE0;

/// What `ring::pbkdf2::derive` with `PBKDF2_HMAC_SHA256` writes into an output
/// buffer of `len` bytes.
pub uninterp spec fn pbkdf2_hmac_sha256(iterations: u32, salt: Seq<u8>, secret: Seq<u8>, len: usize) -> Seq<u8>;

/// What `LessSafeKey::seal_in_place_append_tag` with `AES_256_GCM` and an empty
/// associated data leaves in its buffer: the ciphertext followed by the tag.
pub uninterp spec fn aes_256_gcm_seal(key: Seq<u8>, nonce: Seq<u8>, plaintext: Seq<u8>) -> Seq<u8>;

/// What `LessSafeKey::open_in_place` with `AES_256_GCM` and an empty associated
/// data returns: the plaintext when the tag authenticates, `None` otherwise.
pub uninterp spec fn aes_256_gcm_open(key: Seq<u8>, nonce: Seq<u8>, sealed: Seq<u8>) -> Option<Seq<u8>>;

/// `ring::pbkdf2::derive` with `PBKDF2_HMAC_SHA256` into a fresh buffer of `len`
/// bytes. The contract claims that the result is a function of the arguments
/// and has `len` bytes; the inputs that `derive` panics on are left out.
#[verifier::external_body]
fn pbkdf2_derive(iterations: u32, salt: &[u8], secret: &[u8], len: usize) -> (r: Vec<u8>)
    requires
        iterations > 0,
        len <= 32 * 0xFFFF_FFFFu64,
        salt@.len() + 4 < 0x1F00_0000_0000_0000u64,
        secret@.len() < 0x1F00_0000_0000_0000u64,
    ensures
        r@ == pbkdf2_hmac_sha256(iterations, salt@, secret@, len),
        r@.len() == len,
{
    let mut out = vec![0u8; len];
    let n = std::num::NonZeroU32::new(iterations).unwrap();
    ring::pbkdf2::derive(ring::pbkdf2::PBKDF2_HMAC_SHA256, n, salt, secret, &mut out);
    out
}

/// `LessSafeKey::seal_in_place_append_tag` with `AES_256_GCM` and empty
/// associated data. The contract claims that the output is the plaintext's
/// length plus the 16-byte tag, and that opening it with the same key and
/// nonce gives the plaintext back (AEAD correctness).
#[verifier::external_body]
fn gcm_seal(key: &[u8], nonce: &[u8], plaintext: &[u8]) -> (r: Vec<u8>)
    requires
        key@.len() == 32,
        nonce@.len() == 12,
        plaintext@.len() <= 0xF_FFFF_FFE0u64,
    ensures
        r@ == aes_256_gcm_seal(key@, nonce@, plaintext@),
        r@.len() == plaintext@.len() + 16,
        aes_256_gcm_open(key@, nonce@, r@) == Some(plaintext@),
{
    let k = aead::LessSafeKey::new(aead::UnboundKey::new(&aead::AES_256_GCM, key).unwrap());
    let n = aead::Nonce::try_assume_unique_for_key(nonce).unwrap();
    let mut out = plaintext.to_vec();
    k.seal_in_place_append_tag(n, aead::Aad::empty(), &mut out).unwrap();
    out
}

/// `LessSafeKey::open_in_place` with `AES_256_GCM` and empty associated data:
/// the authenticated plaintext, or `None` when `ring` refuses the input.
#[verifier::external_body]
fn gcm_open(key: &[u8], nonce: &[u8], sealed: &[u8]) -> (r: Option<Vec<u8>>)
    requires
        key@.len() == 32,
        nonce@.len() == 12,
    ensures
        match r {
            Some(p) => aes_256_gcm_open(key@, nonce@, sealed@) == Some(p@),
            None => aes_256_gcm_open(key@, nonce@, sealed@) is None,
        },
{
    let k = aead::LessSafeKey::new(aead::UnboundKey::new(&aead::AES_256_GCM, key).unwrap());
    let n = aead::Nonce::try_assume_unique_for_key(nonce).unwrap();
    let mut buf = sealed.to_vec();
    match k.open_in_place(n, aead::Aad::empty(), &mut buf) {
        Ok(p) => Some(p.to_vec()),
        Err(_) => None,
    }
}

/// `SystemRandom::fill` on a fresh buffer of `len` bytes; `None` when the
/// system generator fails. Nothing is claimed of the bytes but their number.
#[verifier::external_body]
pub(crate) fn random_bytes(len: usize) -> (r: Option<Vec<u8>>)
    ensures
        r matches Some(v) ==> v@.len() == len,
{
    let mut out = vec![0u8; len];
    match ring::rand::SystemRandom::new().fill(&mut out) {
        Ok(()) => Some(out),
        Err(_) => None,
    }
}


/// The vault envelope: every field is hex text. `salt` is the PBKDF2 salt
/// (32 bytes), `iv` the AES-GCM nonce (12 bytes), `auth_tag` the GCM tag
/// (16 bytes) and `ciphertext` the encrypted vault.
#[derive(Debug, Clone)]
pub struct VaultEnvelope {
    pub salt: String,
    pub iv: String,
    pub auth_tag: String,
    pub ciphertext: String,
}

/// A `String` holding the given text.
pub fn message(s: &str) -> (r: String)
    ensures
        r@ == s@,
{
    s.to_string()
}

/// The inputs on which key derivation is defined: the salt is hex text, and
/// neither input is too long for SHA-256.
pub open spec fn key_derivable(password: Seq<char>, salt_hex: Seq<char>) -> bool {
    &&& hex_bytes(vstd::utf8::encode_utf8(salt_hex)) is Some
    &&& vstd::utf8::encode_utf8(salt_hex).len() < 0x1F00_0000_0000_0000u64
    &&& vstd::utf8::encode_utf8(password).len() < 0x1F00_0000_0000_0000u64
}

/// Whether a key can be derived from a password and a salt: the salt is hex
/// text and neither is too long (the test to make before `derive_key`).
pub fn can_derive_key(password: &str, salt_hex: &str) -> (r: bool)
    ensures
        r == key_derivable(password@, salt_hex@),
{
    let salt = salt_hex.as_bytes();
    let pw = password.as_bytes();
    hex_decode(salt).is_some() && (salt.len() as u64) < 0x1F00_0000_0000_0000u64
        && (pw.len() as u64) < 0x1F00_0000_0000_0000u64
}

/// The vault key of a password and a hex salt: PBKDF2-HMAC-SHA256 over the
/// UTF-8 bytes of the password and the decoded salt, 100000 rounds, 32 bytes.
pub open spec fn vault_key(password: Seq<char>, salt_hex: Seq<char>) -> Seq<u8> {
    pbkdf2_hmac_sha256(
        PBKDF2_ITERATIONS,
        hex_bytes(vstd::utf8::encode_utf8(salt_hex)).unwrap(),
        vstd::utf8::encode_utf8(password),
        KEY_LEN,
    )
}

/// A random 32-byte salt as lowercase hex text; `None` when the system
/// random generator fails.
pub fn generate_salt() -> (r: Option<String>)
    ensures
        r matches Some(s) ==> exists|b: Seq<u8>| b.len() == SALT_LEN && s@ == #[trigger] hex_text(b),
{
    match random_bytes(SALT_LEN) {
        Some(b) => Some(hex_encode(b.as_slice())),
        None => None,
    }
}

/// Derives the 32-byte AES key of a password and a hex salt.
pub fn derive_key(password: &str, salt_hex: &str) -> (r: Vec<u8>)
    requires
        key_derivable(password@, salt_hex@),
    ensures
        r@ == vault_key(password@, salt_hex@),
        r@.len() == KEY_LEN,
{
    proof {
        crate::codec::lemma_hex_bytes_len(vstd::utf8::encode_utf8(salt_hex@));
    }
    let salt = hex_decode(salt_hex.as_bytes()).unwrap();
    pbkdf2_derive(PBKDF2_ITERATIONS, salt.as_slice(), password.as_bytes(), KEY_LEN)
}

/// The envelope that sealing `plaintext` under `key` with nonce `iv` gives:
/// the salt kept as given, the nonce, the ciphertext and the tag in hex.
pub open spec fn sealed_envelope(
    env: VaultEnvelope,
    plaintext: Seq<u8>,
    key: Seq<u8>,
    salt_hex: Seq<char>,
    iv: Seq<u8>,
) -> bool {
    let sealed = aes_256_gcm_seal(key, iv, plaintext);
    &&& env.salt@ == salt_hex
    &&& env.iv@ == hex_text(iv)
    &&& env.ciphertext@ == hex_text(sealed.subrange(0, plaintext.len() as int))
    &&& env.auth_tag@ == hex_text(sealed.subrange(plaintext.len() as int, sealed.len() as int))
}

/// The envelope's shape: the salt as given, a 12-byte nonce, a 16-byte tag
/// and as many ciphertext bytes as plaintext bytes, each as lowercase hex.
pub open spec fn envelope_shape(env: VaultEnvelope, plaintext_len: nat, salt_hex: Seq<char>) -> bool {
    &&& env.salt@ == salt_hex
    &&& env.iv@.len() == 2 * NONCE_LEN
    &&& env.auth_tag@.len() == 2 * TAG_LEN
    &&& env.ciphertext@.len() == 2 * plaintext_len
}

/// The envelope is `plaintext` sealed under `key` with some 12-byte nonce.
pub open spec fn sealed_with_some_nonce(env: VaultEnvelope, plaintext: Seq<u8>, key: Seq<u8>, salt_hex: Seq<char>) -> bool {
    exists|iv: Seq<u8>| iv.len() == NONCE_LEN && #[trigger] sealed_envelope(env, plaintext, key, salt_hex, iv)
}

/// Seals `plaintext` with AES-256-GCM under `key` and the given 12-byte nonce.
pub fn seal_envelope(plaintext: &[u8], key: &[u8], salt_hex: &str, iv: &[u8]) -> (r: VaultEnvelope)
    requires
        key@.len() == KEY_LEN,
        iv@.len() == NONCE_LEN,
        plaintext@.len() <= MAX_PLAINTEXT_LEN,
    ensures
        sealed_envelope(r, plaintext@, key@, salt_hex@, iv@),
        envelope_shape(r, plaintext@.len(), salt_hex@),
        opened_envelope(r.iv@, r.ciphertext@, r.auth_tag@, key@) == Ok::<Seq<u8>, Seq<char>>(plaintext@),
{
    let mut body = gcm_seal(key, iv, plaintext);
    let tag = body.split_off(plaintext.len());
    let r = VaultEnvelope {
        salt: message(salt_hex),
        iv: hex_encode(iv),
        auth_tag: hex_encode(tag.as_slice()),
        ciphertext: hex_encode(body.as_slice()),
    };
    proof {
        lemma_open_sealed(r, plaintext@, key@, salt_hex@, iv@);
        let sealed = aes_256_gcm_seal(key@, iv@, plaintext@);
        crate::codec::lemma_hex_text_len(iv@);
        crate::codec::lemma_hex_text_len(sealed.subrange(0, plaintext@.len() as int));
        crate::codec::lemma_hex_text_len(sealed.subrange(plaintext@.len() as int, sealed.len() as int));
    }
    r
}

/// What an envelope from `encrypt` is: `plaintext` sealed under `key` with
/// some 12-byte nonce, in the envelope's shape, opening to the plaintext.
pub open spec fn encrypted(env: VaultEnvelope, plaintext: Seq<u8>, key: Seq<u8>, salt_hex: Seq<char>) -> bool {
    &&& sealed_with_some_nonce(env, plaintext, key, salt_hex)
    &&& envelope_shape(env, plaintext.len(), salt_hex)
    &&& opened_envelope(env.iv@, env.ciphertext@, env.auth_tag@, key) == Ok::<Seq<u8>, Seq<char>>(plaintext)
}

/// The text of a decryption's outcome.
pub open spec fn outcome_view(r: Result<Vec<u8>, String>) -> Result<Seq<u8>, Seq<char>> {
    match r {
        Ok(p) => Ok(p@),
        Err(e) => Err(e@),
    }
}

/// Encrypts `plaintext` under `key` with a fresh random nonce; `None` when the
/// system random generator fails.
pub fn encrypt(plaintext: &[u8], key: &[u8], salt_hex: &str) -> (r: Option<VaultEnvelope>)
    requires
        key@.len() == KEY_LEN,
        plaintext@.len() <= MAX_PLAINTEXT_LEN,
    ensures
        r matches Some(env) ==> encrypted(env, plaintext@, key@, salt_hex@),
{
    match random_bytes(NONCE_LEN) {
        Some(iv) => {
            let env = seal_envelope(plaintext, key, salt_hex, iv.as_slice());
            assert(iv@.len() == NONCE_LEN);
            assert(sealed_envelope(env, plaintext@, key@, salt_hex@, iv@));
            let r = Some(env);
            assert(exists|n: Seq<u8>| n.len() == NONCE_LEN && #[trigger] sealed_envelope(env, plaintext@, key@, salt_hex@, n));
            r
        },
        None => None,
    }
}

/// What decrypting an envelope whose fields are `iv`, `ciphertext` and
/// `auth_tag` under `key` gives, errors in the order they are checked.
pub open spec fn opened_envelope(iv: Seq<char>, ciphertext: Seq<char>, auth_tag: Seq<char>, key: Seq<u8>) -> Result<Seq<u8>, Seq<char>> {
    match hex_bytes(vstd::utf8::encode_utf8(iv)) {
        None => Err("Invalid IV hex"@),
        Some(n) => if n.len() != NONCE_LEN {
            Err("IV wrong length"@)
        } else {
            match hex_bytes(vstd::utf8::encode_utf8(ciphertext)) {
                None => Err("Invalid ciphertext hex"@),
                Some(c) => match hex_bytes(vstd::utf8::encode_utf8(auth_tag)) {
                    None => Err("Invalid authTag hex"@),
                    Some(t) => if key.len() != KEY_LEN {
                        Err("Bad key length"@)
                    } else {
                        match aes_256_gcm_open(key, n, c + t) {
                            Some(p) => Ok(p),
                            None => Err("WRONG_PASSWORD_OR_CORRUPT"@),
                        }
                    },
                },
            }
        },
    }
}

/// Decrypts an envelope with `key`; the error names the first field that is
/// not valid, and `WRONG_PASSWORD_OR_CORRUPT` when the tag does not match.
pub fn decrypt(envelope: &VaultEnvelope, key: &[u8]) -> (r: Result<Vec<u8>, String>)
    ensures
        outcome_view(r) == opened_envelope(envelope.iv@, envelope.ciphertext@, envelope.auth_tag@, key@),
{
    let iv = match hex_decode(envelope.iv.as_str().as_bytes()) {
        Some(v) => v,
        None => return Err(message("Invalid IV hex")),
    };
    if iv.len() != NONCE_LEN {
        return Err(message("IV wrong length"));
    }
    let mut body = match hex_decode(envelope.ciphertext.as_str().as_bytes()) {
        Some(v) => v,
        None => return Err(message("Invalid ciphertext hex")),
    };
    let mut tag = match hex_decode(envelope.auth_tag.as_str().as_bytes()) {
        Some(v) => v,
        None => return Err(message("Invalid authTag hex")),
    };
    body.append(&mut tag);
    if key.len() != KEY_LEN {
        return Err(message("Bad key length"));
    }
    match gcm_open(key, iv.as_slice(), body.as_slice()) {
        Some(p) => Ok(p),
        None => Err(message("WRONG_PASSWORD_OR_CORRUPT")),
    }
}

proof fn lemma_open_sealed(env: VaultEnvelope, plaintext: Seq<u8>, key: Seq<u8>, salt_hex: Seq<char>, iv: Seq<u8>)
    requires
        key.len() == KEY_LEN,
        iv.len() == NONCE_LEN,
        plaintext.len() <= MAX_PLAINTEXT_LEN,
        sealed_envelope(env, plaintext, key, salt_hex, iv),
        aes_256_gcm_seal(key, iv, plaintext).len() == plaintext.len() + 16,
        aes_256_gcm_open(key, iv, aes_256_gcm_seal(key, iv, plaintext)) == Some(plaintext),
    ensures
        opened_envelope(env.iv@, env.ciphertext@, env.auth_tag@, key) == Ok::<Seq<u8>, Seq<char>>(plaintext),
{
    let sealed = aes_256_gcm_seal(key, iv, plaintext);
    let c = sealed.subrange(0, plaintext.len() as int);
    let t = sealed.subrange(plaintext.len() as int, sealed.len() as int);
    lemma_hex_roundtrip(iv);
    lemma_hex_roundtrip(c);
    lemma_hex_roundtrip(t);
    assert(c + t =~= sealed);
}

/// Decrypting what `encrypt` returned, with the same key, gives the
/// plaintext back.
pub proof fn lemma_decrypt_after_encrypt(
    env: VaultEnvelope,
    plaintext: Seq<u8>,
    key: Seq<u8>,
    salt_hex: Seq<char>,
    r: Result<Vec<u8>, String>,
)
    requires
        encrypted(env, plaintext, key, salt_hex),
        outcome_view(r) == opened_envelope(env.iv@, env.ciphertext@, env.auth_tag@, key),
    ensures
        r matches Ok(p) && p@ == plaintext,
{
}

/// Key derivation is a function of the password and the salt: equal inputs
/// give equal keys.
pub proof fn lemma_key_deterministic(password: Seq<char>, salt_hex: Seq<char>, k1: Seq<u8>, k2: Seq<u8>)
    requires
        k1 == vault_key(password, salt_hex),
        k2 == vault_key(password, salt_hex),
    ensures
        k1 == k2,
{
}

} // verus!
