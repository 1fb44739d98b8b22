//! Password-based key derivation (Argon2id) and authenticated encryption
//! (AES-256-GCM) with a fresh random nonce for every message.

use aes_gcm::aead::{Aead, KeyInit};
use aes_gcm::aead::rand_core::RngCore;
use argon2::password_hash::PasswordHasher;
use vstd::prelude::*;
use vstd::string::StringSliceAdditionalSpecFns;

verus! {

/// Bytes of a symmetric key.
pub const KEY_SIZE: usize = 32;

/// Bytes of a salt.
pub const SALT_SIZE: usize = 16;

/// Bytes of a GCM nonce.
pub const NONCE_SIZE: usize = 12;

/// Longest plaintext AES-GCM accepts, in bytes.
pub const P_MAX: u64 = 0x10_0000_0000;

/// Failure kinds of key derivation and the cipher.
#[derive(Clone, Copy, Debug, PartialEq, Eq, Structural)]
pub enum CryptoError {
    /// The password or salt is outside what Argon2 accepts.
    Derivation,
    /// The plaintext is longer than AES-GCM accepts.
    Encryption,
    /// The tag did not verify: wrong key or altered data.
    Authentication,
    /// The input is shorter than a nonce.
    MalformedInput,
}

#[verifier::external_type_specification]
#[verifier::external_body]
pub struct ExPasswordHashError(argon2::password_hash::Error);

#[verifier::external_type_specification]
#[verifier::external_body]
pub struct ExAeadError(aes_gcm::Error);

/// The 32-byte Argon2id output (default parameters) for a password and a salt.
pub uninterp spec fn argon2id_of(password: Seq<u8>, salt: Seq<u8>) -> Seq<u8>;

/// The AES-256-GCM ciphertext with its 16-byte tag appended, for a key, a
/// nonce and a plaintext, without associated data.
pub uninterp spec fn aes_gcm_seal_of(key: Seq<u8>, nonce: Seq<u8>, plaintext: Seq<u8>) -> Seq<u8>;

/// Relies on `password_hash::SaltString::encode_b64`, which fails when the
/// salt's B64 form would exceed 64 characters (a salt over 48 bytes), and on
/// `argon2::Argon2::hash_password` with default parameters (Argon2id, v0x13,
/// 32-byte output), which decodes the salt and calls `hash_password_into`: that
/// fails when the password is longer than `0xFFFF_FFFF` bytes (salts under 8
/// bytes are kept out, as `encode_b64`'s salt would panic under 3), and
/// otherwise always sets `hash` to an output that depends on the password and
/// salt alone.
#[verifier::external_body]
fn argon2_hash(password: &[u8], salt: &[u8]) -> (r: Result<[u8; 32], argon2::password_hash::Error>)
    requires
        salt@.len() >= 8,
    ensures
        r is Ok <==> (password@.len() <= 0xFFFF_FFFF && salt@.len() <= 48),
        r matches Ok(k) ==> k@ == argon2id_of(password@, salt@),
{
    let salt_string = argon2::password_hash::SaltString::encode_b64(salt)?;
    let hash = argon2::Argon2::default().hash_password(password, &salt_string)?;
    let output = hash.hash.ok_or(argon2::password_hash::Error::Crypto)?;
    let mut key = [0u8; 32];
    key.copy_from_slice(&output.as_bytes()[..32]);
    Ok(key)
}

/// Relies on `rand_core::OsRng::fill_bytes`: fills a buffer of `n` bytes from
/// the operating system's secure random source. Nothing is known of the bytes.
#[verifier::external_body]
fn random_bytes(n: usize) -> (r: Vec<u8>)
    ensures
        r@.len() == n,
{
    let mut buf = vec![0u8; n];
    aes_gcm::aead::OsRng.fill_bytes(&mut buf);
    buf
}

/// Relies on `Aes256Gcm::encrypt` (via `aead::AeadInPlace::encrypt_in_place_detached`):
/// it fails exactly when the plaintext is longer than `P_MAX` bytes, and otherwise
/// returns the ciphertext, as long as the plaintext, followed by the 16-byte tag.
#[verifier::external_body]
fn aes_gcm_seal(key: &[u8; 32], nonce: &[u8], plaintext: &[u8]) -> (r: Result<Vec<u8>, aes_gcm::Error>)
    requires
        nonce@.len() == NONCE_SIZE,
    ensures
        r is Ok <==> plaintext@.len() <= P_MAX,
        r matches Ok(c) ==> c@ == aes_gcm_seal_of(key@, nonce@, plaintext@) && c@.len()
            == plaintext@.len() + 16,
{
    let cipher = aes_gcm::Aes256Gcm::new(key.into());
    cipher.encrypt(aes_gcm::Nonce::from_slice(nonce), plaintext)
}

/// `r` holds exactly `p`.
pub open spec fn opened_as(r: Result<Vec<u8>, aes_gcm::Error>, p: Seq<u8>) -> bool {
    r matches Ok(q) && q@ == p
}

/// Relies on `Aes256Gcm::decrypt` (via `aead::AeadInPlace::decrypt_in_place_detached`):
/// it returns a plaintext only when the input is that plaintext's ciphertext and
/// tag under this key and nonce, and it returns it whenever that is so (the
/// ciphertext is the plaintext XOR the key stream, so one input seals one
/// plaintext).
#[verifier::external_body]
fn aes_gcm_open(key: &[u8; 32], nonce: &[u8], sealed: &[u8]) -> (r: Result<Vec<u8>, aes_gcm::Error>)
    requires
        nonce@.len() == NONCE_SIZE,
    ensures
        r matches Ok(p) ==> p@.len() + 16 == sealed@.len() && sealed@ == aes_gcm_seal_of(
            key@,
            nonce@,
            p@,
        ),
        forall|p: Seq<u8>|
            p.len() <= P_MAX && sealed@ == aes_gcm_seal_of(key@, nonce@, p) ==> opened_as(r, p),
{
    let cipher = aes_gcm::Aes256Gcm::new(key.into());
    cipher.decrypt(aes_gcm::Nonce::from_slice(nonce), sealed)
}

/// Argon2 accepts this password, and this salt has between 8 bytes and the 48
/// bytes whose B64 form fits a PHC salt string.
pub open spec fn derivation_accepts(password: Seq<u8>, salt: Seq<u8>) -> bool {
    password.len() <= 0xFFFF_FFFF && 8 <= salt.len() <= 48
}

/// Derives a 32-byte key from a password and a salt with Argon2id; the same
/// inputs always give the same key.
pub fn derive_key(password: &str, salt: &[u8]) -> (r: Result<[u8; 32], CryptoError>)
    ensures
        r is Ok <==> derivation_accepts(password.spec_bytes(), salt@),
        r matches Ok(k) ==> k@ == argon2id_of(password.spec_bytes(), salt@),
        r is Err ==> r == Err::<[u8; 32], CryptoError>(CryptoError::Derivation),
{
    if salt.len() < 8 {
        return Err(CryptoError::Derivation);
    }
    let pw = password.as_bytes();
    match argon2_hash(pw, salt) {
        Ok(k) => Ok(k),
        Err(_) => Err(CryptoError::Derivation),
    }
}

/// Sixteen bytes from the operating system's secure random source.
pub fn generate_salt() -> (r: [u8; 16])
    ensures
        r@.len() == SALT_SIZE,
{
    let b = random_bytes(SALT_SIZE);
    [
        b[0], b[1], b[2], b[3], b[4], b[5], b[6], b[7], b[8], b[9], b[10], b[11], b[12], b[13],
        b[14], b[15],
    ]
}

/// `blob` is a nonce followed by the AES-256-GCM sealing of `plaintext` under
/// `key` and that nonce.
pub open spec fn sealed_by(key: Seq<u8>, blob: Seq<u8>, plaintext: Seq<u8>) -> bool {
    &&& blob.len() >= NONCE_SIZE
    &&& blob.subrange(NONCE_SIZE as int, blob.len() as int) == aes_gcm_seal_of(
        key,
        blob.subrange(0, NONCE_SIZE as int),
        plaintext,
    )
}

/// What decryption of `blob` under `key` may return.
pub open spec fn decrypt_outcome(key: Seq<u8>, blob: Seq<u8>, r: Result<Seq<u8>, CryptoError>) -> bool {
    if blob.len() < NONCE_SIZE {
        r == Err::<Seq<u8>, CryptoError>(CryptoError::MalformedInput)
    } else {
        match r {
            Ok(p) => sealed_by(key, blob, p) && forall|q: Seq<u8>|
                q.len() <= P_MAX && sealed_by(key, blob, q) ==> q == p,
            Err(e) => e == CryptoError::Authentication && forall|q: Seq<u8>|
                q.len() <= P_MAX ==> !sealed_by(key, blob, q),
        }
    }
}

/// A result with its bytes seen as a sequence.
pub open spec fn seq_result(r: Result<Vec<u8>, CryptoError>) -> Result<Seq<u8>, CryptoError> {
    match r {
        Ok(v) => Ok(v@),
        Err(e) => Err(e),
    }
}

/// Encrypts `data` under `key` with a fresh random nonce; the blob is the
/// nonce followed by ciphertext and tag.
pub fn encrypt(data: &[u8], key: &[u8; 32]) -> (r: Result<Vec<u8>, CryptoError>)
    ensures
        r is Ok <==> data@.len() <= P_MAX,
        r matches Ok(blob) ==> sealed_by(key@, blob@, data@) && blob@.len() == NONCE_SIZE
            + data@.len() + 16,
        r is Err ==> r == Err::<Vec<u8>, CryptoError>(CryptoError::Encryption),
{
    let nonce = random_bytes(NONCE_SIZE);
    match aes_gcm_seal(key, nonce.as_slice(), data) {
        Ok(c) => {
            let mut blob = nonce;
            let mut i: usize = 0;
            while i < c.len()
                invariant
                    i <= c@.len(),
                    blob@ == nonce@ + c@.subrange(0, i as int),
                decreases c@.len() - i,
            {
                blob.push(c[i]);
                i += 1;
                assert(blob@ =~= nonce@ + c@.subrange(0, i as int));
            }
            assert(blob@.subrange(0, NONCE_SIZE as int) =~= nonce@);
            assert(blob@.subrange(NONCE_SIZE as int, blob@.len() as int) =~= c@);
            Ok(blob)
        },
        Err(_) => Err(CryptoError::Encryption),
    }
}

/// Splits off the nonce and opens the rest; fails unless the tag verifies.
pub fn decrypt(encrypted_data: &[u8], key: &[u8; 32]) -> (r: Result<Vec<u8>, CryptoError>)
    ensures
        decrypt_outcome(key@, encrypted_data@, seq_result(r)),
{
    if encrypted_data.len() < NONCE_SIZE {
        return Err(CryptoError::MalformedInput);
    }
    let (nonce, sealed) = encrypted_data.split_at(NONCE_SIZE);
    assert(nonce@ =~= encrypted_data@.subrange(0, NONCE_SIZE as int));
    assert(sealed@ =~= encrypted_data@.subrange(NONCE_SIZE as int, encrypted_data@.len() as int));
    let opened = aes_gcm_open(key, nonce, sealed);
    match opened {
        Ok(p) => {
            assert forall|q: Seq<u8>| q.len() <= P_MAX && sealed_by(key@, encrypted_data@, q) implies q == p@ by {
                assert(opened_as(opened, q));
            }
            Ok(p)
        },
        Err(_) => {
            assert forall|q: Seq<u8>| q.len() <= P_MAX implies !sealed_by(key@, encrypted_data@, q) by {
                if sealed_by(key@, encrypted_data@, q) {
                    assert(opened_as(opened, q));
                }
            }
            Err(CryptoError::Authentication)
        },
    }
}

/// Decryption undoes encryption: whatever `decrypt` may return, under the same
/// key, on a blob that `encrypt` produced from `plaintext` is `plaintext`.
pub proof fn lemma_crypto_round_trip(
    key: Seq<u8>,
    blob: Seq<u8>,
    plaintext: Seq<u8>,
    r: Result<Seq<u8>, CryptoError>,
)
    requires
        plaintext.len() <= P_MAX,
        sealed_by(key, blob, plaintext),
        decrypt_outcome(key, blob, r),
    ensures
        r == Ok::<Seq<u8>, CryptoError>(plaintext),
{
}

/// Key derivation is deterministic: two results for the same password and salt
/// are the same key.
pub proof fn lemma_derive_key_deterministic(
    password: Seq<u8>,
    salt: Seq<u8>,
    k1: Seq<u8>,
    k2: Seq<u8>,
)
    requires
        k1 == argon2id_of(password, salt),
        k2 == argon2id_of(password, salt),
    ensures
        k1 == k2,
{
}

} // verus!
