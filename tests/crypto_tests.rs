use pixelvault::crypto::{decrypt, derive_key, encrypt, generate_salt, CryptoError};
use std::collections::HashSet;

fn fixed_key(seed: u8) -> [u8; 32] {
    let mut k = [0u8; 32];
    for (i, b) in k.iter_mut().enumerate() {
        *b = seed.wrapping_add(i as u8);
    }
    k
}

#[test]
fn test_encrypt_decrypt() {
    let data = b"Hello, World!";
    let salt = generate_salt();
    let key = derive_key("test_password", &salt).unwrap();

    let encrypted = encrypt(data, &key).unwrap();
    let decrypted = decrypt(&encrypted, &key).unwrap();

    assert_eq!(data.to_vec(), decrypted);
}

#[test]
fn round_trip_various_lengths() {
    let key = fixed_key(7);
    for len in [0usize, 1, 15, 16, 17, 100, 1000] {
        let data: Vec<u8> = (0..len).map(|i| (i * 31 % 251) as u8).collect();
        let blob = encrypt(&data, &key).unwrap();
        assert_eq!(blob.len(), 12 + len + 16);
        assert_eq!(decrypt(&blob, &key).unwrap(), data);
    }
}

#[test]
fn ciphertext_differs_from_plaintext() {
    let key = fixed_key(1);
    let data = b"plain text that must not show";
    let blob = encrypt(data, &key).unwrap();
    assert_ne!(&blob[12..12 + data.len()], &data[..]);
}

#[test]
fn every_single_bit_flip_is_detected() {
    let key = fixed_key(3);
    let blob = encrypt(b"Hello, World!", &key).unwrap();
    for byte in 12..blob.len() {
        for bit in 0..8 {
            let mut t = blob.clone();
            t[byte] ^= 1 << bit;
            assert_eq!(decrypt(&t, &key), Err(CryptoError::Authentication));
        }
    }
}

#[test]
fn nonce_bit_flip_is_detected() {
    let key = fixed_key(4);
    let blob = encrypt(b"abc", &key).unwrap();
    let mut t = blob.clone();
    t[0] ^= 0x80;
    assert_eq!(decrypt(&t, &key), Err(CryptoError::Authentication));
}

#[test]
fn wrong_key_fails_authentication() {
    let blob = encrypt(b"secret", &fixed_key(5)).unwrap();
    assert_eq!(decrypt(&blob, &fixed_key(6)), Err(CryptoError::Authentication));
}

#[test]
fn short_input_is_malformed() {
    let key = fixed_key(0);
    assert_eq!(decrypt(&[0u8; 11], &key), Err(CryptoError::MalformedInput));
    assert_eq!(decrypt(&[], &key), Err(CryptoError::MalformedInput));
    assert_eq!(decrypt(&[0u8; 12], &key), Err(CryptoError::Authentication));
}

#[test]
fn nonces_are_distinct() {
    let key = fixed_key(9);
    let mut seen = HashSet::new();
    for _ in 0..10_000 {
        let blob = encrypt(b"x", &key).unwrap();
        assert!(seen.insert(blob[..12].to_vec()));
    }
    assert_eq!(seen.len(), 10_000);
}

#[test]
fn derive_key_is_deterministic() {
    let salt = [42u8; 16];
    let a = derive_key("correct horse", &salt).unwrap();
    let b = derive_key("correct horse", &salt).unwrap();
    assert_eq!(a, b);
    assert_ne!(&a[..], "correct horse".as_bytes());
}

#[test]
fn different_salts_give_different_keys() {
    let a = derive_key("correct horse", &[1u8; 16]).unwrap();
    let b = derive_key("correct horse", &[2u8; 16]).unwrap();
    assert_ne!(a, b);
}

#[test]
fn short_salt_is_rejected() {
    assert_eq!(derive_key("pw", &[0u8; 7]), Err(CryptoError::Derivation));
}

#[test]
fn salts_are_sixteen_fresh_bytes() {
    let a = generate_salt();
    let b = generate_salt();
    assert_eq!(a.len(), 16);
    assert_ne!(a, b);
}

#[test]
fn salt_length_bounds() {
    assert_eq!(derive_key("pw", &[]), Err(CryptoError::Derivation));
    assert_eq!(derive_key("pw", &[0u8; 2]), Err(CryptoError::Derivation));
    assert!(derive_key("pw", &[9u8; 48]).is_ok());
    assert_eq!(derive_key("pw", &[9u8; 49]), Err(CryptoError::Derivation));
}
