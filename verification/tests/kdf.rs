use vaultkey::kdf::{
    derive_key, derive_key_in_place, KDF_ITERATIONS, KDF_LANES, KDF_MEMORY_KIB, KEY_LEN,
    MIN_SALT_LEN,
};

fn reference(pin: &str, salt: &[u8]) -> Vec<u8> {
    let params = argon2::Params::new(2048, 3, 1, Some(32)).unwrap();
    let context = argon2::Argon2::new(argon2::Algorithm::Argon2id, argon2::Version::V0x13, params);
    let mut out = [0u8; 32];
    context.hash_password_into(pin.as_bytes(), salt, &mut out).unwrap();
    out.to_vec()
}

#[test]
fn work_parameters() {
    assert_eq!(KDF_MEMORY_KIB, 2048);
    assert_eq!(KDF_ITERATIONS, 3);
    assert_eq!(KDF_LANES, 1);
    assert_eq!(KEY_LEN, 32);
    assert_eq!(MIN_SALT_LEN, 8);
}

#[test]
fn same_input_same_key() {
    let salt = b"0123456789abcdef".to_vec();
    let first = derive_key("1234".to_string(), salt.clone()).unwrap();
    let second = derive_key("1234".to_string(), salt).unwrap();
    assert_eq!(first.len(), 32);
    assert_eq!(first, second);
}

#[test]
fn another_salt_another_key() {
    let first = derive_key("1234".to_string(), b"0123456789abcdef".to_vec()).unwrap();
    let second = derive_key("1234".to_string(), b"0123456789abcdeg".to_vec()).unwrap();
    assert_ne!(first, second);
}

#[test]
fn another_pin_another_key() {
    let first = derive_key("1234".to_string(), b"0123456789abcdef".to_vec()).unwrap();
    let second = derive_key("1235".to_string(), b"0123456789abcdef".to_vec()).unwrap();
    assert_ne!(first, second);
}

#[test]
fn the_key_is_the_argon2id_hash() {
    let salt = b"saltsalt".to_vec();
    let key = derive_key("000000".to_string(), salt.clone()).unwrap();
    assert_eq!(key, reference("000000", &salt));
    assert_ne!(key, vec![0u8; 32]);
    let key = derive_key(String::new(), salt.clone()).unwrap();
    assert_eq!(key, reference("", &salt));
    let key = derive_key("p\u{ef}n".to_string(), vec![0xff; 64]).unwrap();
    assert_eq!(key, reference("p\u{ef}n", &[0xff; 64]));
}

#[test]
fn known_key() {
    let key = derive_key("1234".to_string(), b"0123456789abcdef".to_vec()).unwrap();
    assert_eq!(key, reference("1234", b"0123456789abcdef"));
    assert_eq!(key.len(), KEY_LEN);
}

#[test]
fn a_short_salt_is_refused() {
    for len in 0..8usize {
        let r = derive_key("1234".to_string(), vec![7u8; len]);
        assert_eq!(r, Err("salt is too short".to_string()), "salt of {} bytes", len);
    }
    assert!(derive_key("1234".to_string(), vec![7u8; 8]).is_ok());
}

#[test]
fn pin_and_scratch_are_wiped() {
    let mut pin = "1234".to_string();
    let mut scratch = vec![9u8; 5];
    let key = derive_key_in_place(&mut pin, b"0123456789abcdef", &mut scratch).unwrap();
    assert_eq!(key, reference("1234", b"0123456789abcdef"));
    assert!(pin.is_empty());
    assert!(scratch.is_empty());
}

#[test]
fn pin_and_scratch_are_wiped_on_failure() {
    let mut pin = "1234".to_string();
    let mut scratch = Vec::new();
    let r = derive_key_in_place(&mut pin, b"short", &mut scratch);
    assert_eq!(r, Err("salt is too short".to_string()));
    assert!(pin.is_empty());
    assert!(scratch.is_empty());
}

#[test]
fn in_place_and_owned_derivation_agree() {
    let mut pin = "80085".to_string();
    let mut scratch = Vec::new();
    let in_place = derive_key_in_place(&mut pin, &[1, 2, 3, 4, 5, 6, 7, 8], &mut scratch);
    let owned = derive_key("80085".to_string(), vec![1, 2, 3, 4, 5, 6, 7, 8]);
    assert_eq!(in_place, owned);
    assert!(owned.is_ok());
}
