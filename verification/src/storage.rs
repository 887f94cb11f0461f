//! The vault's life cycle on top of the envelope: creating a vault for a new
//! password, opening one with a password, and sealing it again after a change.
//! Reading and writing the file and the JSON text of the accounts are left to
//! the caller, which hands over the plaintext bytes.

use vstd::prelude::*;
use crate::codec::{hex_text, lemma_hex_roundtrip};
use crate::crypto::{
    decrypt, derive_key, encrypt, envelope_shape, generate_salt, key_derivable, opened_envelope,
    sealed_with_some_nonce, vault_key, VaultEnvelope, KEY_LEN, MAX_PLAINTEXT_LEN, SALT_LEN,
};

verus! {

/// The inputs a vault can be created for: a password whose UTF-8 bytes SHA-256
/// can take, and a plaintext that AES-GCM can take.
pub open spec fn creatable(password: Seq<char>, plaintext: Seq<u8>) -> bool {
    &&& vstd::utf8::encode_utf8(password).len() < 0x1F00_0000_0000_0000u64
    &&& plaintext.len() <= MAX_PLAINTEXT_LEN
}

/// Creates a vault holding `plaintext` for `password`: a fresh random salt, the
/// key derived from it, and the envelope. Returns `(key, salt_hex, envelope)`,
/// or `None` when the system random generator fails.
pub fn create_vault(password: &str, plaintext: &[u8]) -> (r: Option<(Vec<u8>, String, VaultEnvelope)>)
    requires
        creatable(password@, plaintext@),
    ensures
        r matches Some((key, salt, env)) ==> {
            &&& exists|b: Seq<u8>| b.len() == SALT_LEN && salt@ == #[trigger] hex_text(b)
            &&& key_derivable(password@, salt@)
            &&& key@ == vault_key(password@, salt@)
            &&& env.salt@ == salt@
            &&& envelope_shape(env, plaintext@.len(), salt@)
            &&& sealed_with_some_nonce(env, plaintext@, key@, salt@)
            &&& opened_envelope(env.iv@, env.ciphertext@, env.auth_tag@, key@) == Ok::<Seq<u8>, Seq<char>>(plaintext@)
        },
{
    let salt = match generate_salt() {
        Some(s) => s,
        None => return None,
    };
    proof {
        let b = choose|b: Seq<u8>| b.len() == SALT_LEN && salt@ == #[trigger] hex_text(b);
        lemma_hex_roundtrip(b);
        crate::codec::lemma_hex_text_len(b);
        crate::codec::lemma_hex_text_ascii(b);
        vstd::utf8::is_ascii_chars_encode_utf8(salt@);
    }
    let key = derive_key(password, salt.as_str());
    match encrypt(plaintext, key.as_slice(), salt.as_str()) {
        Some(env) => Some((key, salt, env)),
        None => None,
    }
}

/// What opening a vault envelope with a password gives: the key derived from
/// the envelope's salt, and the decryption of the envelope under it.
pub open spec fn opened_with_password(password: Seq<char>, env: VaultEnvelope) -> Result<Seq<u8>, Seq<char>> {
    opened_envelope(env.iv@, env.ciphertext@, env.auth_tag@, vault_key(password, env.salt@))
}

/// Opens a vault envelope with a password. Returns `(key, salt_hex, plaintext)`;
/// a wrong password gives `WRONG_PASSWORD_OR_CORRUPT`.
pub fn open_vault(password: &str, envelope: &VaultEnvelope) -> (r: Result<(Vec<u8>, String, Vec<u8>), String>)
    requires
        key_derivable(password@, envelope.salt@),
    ensures
        match r {
            Ok((key, salt, plaintext)) => {
                &&& key@ == vault_key(password@, envelope.salt@)
                &&& salt@ == envelope.salt@
                &&& opened_with_password(password@, *envelope) == Ok::<Seq<u8>, Seq<char>>(plaintext@)
            },
            Err(e) => opened_with_password(password@, *envelope) == Err::<Seq<u8>, Seq<char>>(e@),
        },
{
    let salt = envelope.salt.clone();
    let key = derive_key(password, salt.as_str());
    match decrypt(envelope, key.as_slice()) {
        Ok(p) => Ok((key, salt, p)),
        Err(e) => Err(e),
    }
}

/// Seals the vault's plaintext again with the session's key and salt, under a
/// fresh nonce; `None` when the system random generator fails.
pub fn save_vault(plaintext: &[u8], key: &[u8], salt_hex: &str) -> (r: Option<VaultEnvelope>)
    requires
        key@.len() == KEY_LEN,
        plaintext@.len() <= MAX_PLAINTEXT_LEN,
    ensures
        r matches Some(env) ==> {
            &&& sealed_with_some_nonce(env, plaintext@, key@, salt_hex@)
            &&& envelope_shape(env, plaintext@.len(), salt_hex@)
            &&& opened_envelope(env.iv@, env.ciphertext@, env.auth_tag@, key@) == Ok::<Seq<u8>, Seq<char>>(plaintext@)
        },
{
    encrypt(plaintext, key, salt_hex)
}

/// A vault saved with the key of a password opens with that password and
/// gives back what was saved: `open_vault` after `create_vault` or
/// `save_vault` returns the saved plaintext.
pub proof fn lemma_open_after_save(password: Seq<char>, salt_hex: Seq<char>, env: VaultEnvelope, plaintext: Seq<u8>)
    requires
        env.salt@ == salt_hex,
        opened_envelope(env.iv@, env.ciphertext@, env.auth_tag@, vault_key(password, salt_hex)) == Ok::<Seq<u8>, Seq<char>>(plaintext),
    ensures
        opened_with_password(password, env) == Ok::<Seq<u8>, Seq<char>>(plaintext),
{
}

} // verus!
