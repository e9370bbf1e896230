use argon2::Argon2;
use chacha20poly1305::aead::{Aead, KeyInit};
use chacha20poly1305::{XChaCha20Poly1305, XNonce};
use novault::commands::{fetch_password, prompt_password};
use novault::error::VaultError;
use novault::hex::{digit_of, from_hex, to_hex};
use novault::keys::{CachedPassword, MasterVaultKey, UserVaultKey, WrappedKey};

fn password(text: &str) -> CachedPassword {
    CachedPassword::from_string(text.to_string())
}

#[test]
fn hex_writes_two_lower_case_digits_per_byte() {
    assert_eq!(to_hex(&vec![0x00, 0xff, 0x1a, 0x07]), "00ff1a07");
    assert_eq!(to_hex(&Vec::new()), "");
}

#[test]
fn hex_reads_both_cases() {
    assert_eq!(from_hex("00FF1a07"), Some(vec![0x00, 0xff, 0x1a, 0x07]));
    assert_eq!(from_hex(""), Some(Vec::new()));
}

#[test]
fn hex_refuses_what_is_not_hex() {
    assert_eq!(from_hex("abc"), None);
    assert_eq!(from_hex("zz"), None);
    assert_eq!(from_hex("0g"), None);
    assert_eq!(from_hex("a "), None);
    assert_eq!(digit_of('g'), None);
    assert_eq!(digit_of('F'), Some(15));
    assert_eq!(digit_of('9'), Some(9));
}

#[test]
fn hex_round_trips_every_byte() {
    let all: Vec<u8> = (0..=255u8).collect();
    assert_eq!(from_hex(&to_hex(&all)), Some(all));
}

#[test]
fn passwords_compare_by_their_bytes() {
    assert!(password("hunter2").same_as(&password("hunter2")));
    assert!(!password("hunter2").same_as(&password("hunter3")));
    assert!(!password("hunter2").same_as(&password("hunter")));
    assert!(password("").same_as(&password("")));
    assert!(password("pässword").same_as(&password("pässword")));
}

#[test]
fn a_wiped_password_is_all_zero() {
    let mut p = password("hunter2");
    p.wipe();
    let mut zeros = CachedPassword::from_string("\0\0\0\0\0\0\0".to_string());
    assert!(p.same_as(&zeros));
    zeros.wipe();
    assert!(p.same_as(&zeros));
}

#[test]
fn a_wiped_master_key_is_all_zero() {
    let mut key = MasterVaultKey::generate();
    assert_ne!(key.key_bytes(), &[0u8; 32]);
    key.wipe();
    assert_eq!(key.key_bytes(), &[0u8; 32]);
}

#[test]
fn the_master_key_is_drawn_at_random() {
    let a = MasterVaultKey::generate();
    let b = MasterVaultKey::generate();
    assert_ne!(a.key_bytes(), b.key_bytes());
    assert_eq!(a.clone().key_bytes(), a.key_bytes());
}

#[test]
fn wrap_then_unwrap_gives_the_master_key() {
    let pw = password("hunter2");
    let user = UserVaultKey::init_fresh(&pw).unwrap();
    let master = MasterVaultKey::generate();
    let wrapped = WrappedKey::init(&user, &master).unwrap();
    let opened = wrapped.get_master_key_with_no_rewrap(&pw).unwrap();
    assert_eq!(opened.key_bytes(), master.key_bytes());
}

#[test]
fn unwrap_with_the_wrong_password_is_an_auth_failure() {
    let user = UserVaultKey::init_fresh(&password("hunter2")).unwrap();
    let wrapped = WrappedKey::init(&user, &MasterVaultKey::generate()).unwrap();
    assert!(matches!(
        wrapped.get_master_key_with_no_rewrap(&password("wrong")),
        Err(VaultError::AuthError)
    ));
    assert!(matches!(wrapped.get_master_key(&password("")), Err(VaultError::AuthError)));
}

#[test]
fn rewrap_keeps_the_master_key_and_the_salt() {
    let pw = password("hunter2");
    let user = UserVaultKey::init_fresh(&pw).unwrap();
    let master = MasterVaultKey::generate();
    let wrapped = WrappedKey::init(&user, &master).unwrap();
    let (fresh, opened) = wrapped.get_master_key(&pw).unwrap();
    assert_eq!(opened.key_bytes(), master.key_bytes());
    let (old_hex, new_hex) = (wrapped.to_hex(), fresh.to_hex());
    assert_eq!(old_hex[..32], new_hex[..32]);
    assert_ne!(old_hex[32..80], new_hex[32..80]);
    let again = fresh.get_master_key_with_no_rewrap(&pw).unwrap();
    assert_eq!(again.key_bytes(), master.key_bytes());
}

#[test]
fn the_wrapped_key_is_salt_nonce_and_ciphertext_in_hex() {
    let pw = password("correct horse");
    let user = UserVaultKey::init_fresh(&pw).unwrap();
    let master = MasterVaultKey::generate();
    let wrapped = WrappedKey::init(&user, &master).unwrap();
    let bytes = from_hex(&wrapped.to_hex()).unwrap();
    assert_eq!(bytes.len(), 16 + 24 + 32 + 16);

    // The record can be opened with the outside crates alone.
    let mut user_key = [0u8; 32];
    Argon2::default().hash_password_into(b"correct horse", &bytes[..16], &mut user_key).unwrap();
    let cipher = XChaCha20Poly1305::new((&user_key).into());
    let opened = cipher.decrypt(XNonce::from_slice(&bytes[16..40]), &bytes[40..]).unwrap();
    assert_eq!(opened.as_slice(), master.key_bytes());
}

#[test]
fn the_user_key_depends_on_password_and_salt() {
    let pw = password("hunter2");
    let salt = [1u8; 16];
    let a = UserVaultKey::derive(&pw, &salt).unwrap();
    let b = UserVaultKey::derive(&pw, &salt).unwrap();
    let master = MasterVaultKey::generate();
    let wrapped = WrappedKey::init(&a, &master).unwrap();
    // A key derived again from the same password and salt opens it: the
    // wrapped key records that salt.
    assert!(wrapped.get_master_key_with_no_rewrap(&pw).is_ok());
    let other = WrappedKey::init(&b, &master).unwrap();
    assert_eq!(wrapped.to_hex()[..32], other.to_hex()[..32]);
    assert_eq!(&wrapped.to_hex()[..32], "01010101010101010101010101010101");
}

#[test]
fn wrapped_key_hex_round_trips() {
    let pw = password("pw");
    let user = UserVaultKey::init_fresh(&pw).unwrap();
    let wrapped = WrappedKey::init(&user, &MasterVaultKey::generate()).unwrap();
    let read = WrappedKey::from_hex(&wrapped.to_hex()).unwrap();
    assert_eq!(read.to_hex(), wrapped.to_hex());
    assert!(read.get_master_key_with_no_rewrap(&pw).is_ok());
}

#[test]
fn wrapped_key_refuses_bad_hex() {
    assert!(matches!(WrappedKey::from_hex("xyz"), Err(VaultError::StateCorruption)));
    assert!(matches!(WrappedKey::from_hex("abc"), Err(VaultError::StateCorruption)));
    assert!(matches!(WrappedKey::from_hex(""), Err(VaultError::StateCorruption)));
    assert!(matches!(WrappedKey::from_hex(&"00".repeat(39)), Err(VaultError::StateCorruption)));
    let shortest = WrappedKey::from_hex(&"00".repeat(40)).unwrap();
    assert_eq!(shortest.to_hex(), "00".repeat(40));
    assert!(matches!(
        shortest.get_master_key_with_no_rewrap(&password("pw")),
        Err(VaultError::AuthError)
    ));
}

#[test]
fn confirmation_must_match() {
    assert!(prompt_password(password("a"), None).unwrap().same_as(&password("a")));
    assert!(prompt_password(password("a"), Some(password("a"))).unwrap().same_as(&password("a")));
    assert!(matches!(
        prompt_password(password("a"), Some(password("b"))),
        Err(VaultError::AuthError)
    ));
}

#[test]
fn the_offered_password_is_taken_only_if_it_opens_the_key() {
    let pw = password("hunter2");
    let user = UserVaultKey::init_fresh(&pw).unwrap();
    let wrapped = WrappedKey::init(&user, &MasterVaultKey::generate()).unwrap();
    assert!(fetch_password(&wrapped, None).is_none());
    assert!(fetch_password(&wrapped, Some("wrong".to_string())).is_none());
    assert!(fetch_password(&wrapped, Some("hunter2".to_string())).unwrap().same_as(&pw));
}
