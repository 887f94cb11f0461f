use vaultx::crypto::{can_derive_key, decrypt, derive_key, encrypt, generate_salt, seal_envelope, VaultEnvelope};
use vaultx::storage::{create_vault, open_vault, save_vault};

const ZERO_SALT: &str = "0000000000000000000000000000000000000000000000000000000000000000";
const HUNTER2_KEY: &str = "507f0432da1668a7c74897f0aef16ddb8ec897a52e6f855add699a708337b600";

fn hex_encode(b: &[u8]) -> String {
    b.iter().map(|x| format!("{x:02x}")).collect()
}

fn hunter2_key() -> Vec<u8> {
    (0..HUNTER2_KEY.len()).step_by(2).map(|i| u8::from_str_radix(&HUNTER2_KEY[i..i + 2], 16).unwrap()).collect()
}

#[test]
fn key_derivation_needs_a_hex_salt() {
    assert!(can_derive_key("pw", ZERO_SALT));
    assert!(can_derive_key("", "DEADbeef"));
    assert!(can_derive_key("pw", ""));
    assert!(!can_derive_key("pw", "abc"));
    assert!(!can_derive_key("pw", "zz"));
}

#[test]
fn salt_is_32_random_bytes_in_hex() {
    let a = generate_salt().unwrap();
    let b = generate_salt().unwrap();
    assert_eq!(a.len(), 64);
    assert!(a.chars().all(|c| c.is_ascii_hexdigit() && !c.is_ascii_uppercase()));
    assert_ne!(a, b);
}

#[test]
fn pbkdf2_key_known_answer() {
    assert_eq!(hex_encode(&derive_key("hunter2", ZERO_SALT)), HUNTER2_KEY);
    assert_eq!(
        hex_encode(&derive_key("", "00112233")),
        "0c043e3910940aba8db4c5bd6dd7f4dc3f7042b6ce3aa225f6167e6258285860"
    );
}

#[test]
fn seal_known_answer() {
    let iv: Vec<u8> = (1u8..=12).collect();
    let env = seal_envelope(b"{\"accounts\":[]}", &hunter2_key(), ZERO_SALT, &iv);
    assert_eq!(env.salt, ZERO_SALT);
    assert_eq!(env.iv, "0102030405060708090a0b0c");
    assert_eq!(env.ciphertext, "718de0449da0cb7609b6df57e5e361");
    assert_eq!(env.auth_tag, "60136bd95ce5658ea185c2aa0bf949ab");
}

#[test]
fn decrypt_of_encrypt_gives_plaintext() {
    let key = hunter2_key();
    let env = encrypt(b"hello vault", &key, ZERO_SALT).unwrap();
    assert_eq!(env.iv.len(), 24);
    assert_eq!(env.auth_tag.len(), 32);
    assert_eq!(env.ciphertext.len(), 22);
    assert_eq!(decrypt(&env, &key), Ok(b"hello vault".to_vec()));
    let empty = encrypt(b"", &key, ZERO_SALT).unwrap();
    assert_eq!(decrypt(&empty, &key), Ok(Vec::new()));
}

#[test]
fn decrypt_errors_in_order() {
    let key = hunter2_key();
    let good = seal_envelope(b"data", &key, ZERO_SALT, &[7u8; 12]);
    let with = |iv: &str, ct: &str, tag: &str| VaultEnvelope {
        salt: ZERO_SALT.to_string(),
        iv: iv.to_string(),
        auth_tag: tag.to_string(),
        ciphertext: ct.to_string(),
    };
    let e = with("xx", &good.ciphertext, &good.auth_tag);
    assert_eq!(decrypt(&e, &key), Err("Invalid IV hex".to_string()));
    let e = with("0102", &good.ciphertext, &good.auth_tag);
    assert_eq!(decrypt(&e, &key), Err("IV wrong length".to_string()));
    let e = with(&good.iv, "q", &good.auth_tag);
    assert_eq!(decrypt(&e, &key), Err("Invalid ciphertext hex".to_string()));
    let e = with(&good.iv, &good.ciphertext, "zz");
    assert_eq!(decrypt(&e, &key), Err("Invalid authTag hex".to_string()));
    assert_eq!(decrypt(&good, &key[..16]), Err("Bad key length".to_string()));
    let mut wrong = key.clone();
    wrong[0] ^= 1;
    assert_eq!(decrypt(&good, &wrong), Err("WRONG_PASSWORD_OR_CORRUPT".to_string()));
    let mut tampered = good.clone();
    tampered.ciphertext = "00000000".to_string();
    assert_eq!(decrypt(&tampered, &key), Err("WRONG_PASSWORD_OR_CORRUPT".to_string()));
}

#[test]
fn vault_opens_with_its_password_only() {
    let (key, salt, env) = create_vault("correct horse", b"{\"accounts\":[]}").unwrap();
    assert_eq!(key.len(), 32);
    assert_eq!(env.salt, salt);
    assert_eq!(hex_encode(&derive_key("correct horse", &salt)), hex_encode(&key));
    let (key2, salt2, plain) = open_vault("correct horse", &env).unwrap();
    assert_eq!(key2, key);
    assert_eq!(salt2, salt);
    assert_eq!(plain, b"{\"accounts\":[]}".to_vec());
    assert_eq!(open_vault("wrong", &env).err(), Some("WRONG_PASSWORD_OR_CORRUPT".to_string()));
}

#[test]
fn saved_vault_opens_to_new_contents() {
    let (key, salt, _) = create_vault("pw", b"[]").unwrap();
    let env = save_vault(b"{\"accounts\":[1]}", &key, &salt).unwrap();
    assert_eq!(env.salt, salt);
    let (_, _, plain) = open_vault("pw", &env).unwrap();
    assert_eq!(plain, b"{\"accounts\":[1]}".to_vec());
}
