//! A record sealed into an image: the record's bytes are encrypted under a key
//! derived from the master password, and `salt ‖ nonce ‖ ciphertext ‖ tag` is
//! embedded in the image's low bits.

use vstd::prelude::*;
use zeroize::Zeroize;
use crate::crypto::{
    aes_gcm_seal_of, argon2id_of, decrypt, decrypt_outcome, derivation_accepts, derive_key,
    encrypt, sealed_by, seq_result, CryptoError, NONCE_SIZE, P_MAX, SALT_SIZE,
};
use crate::stego::{
    decode, embedded, encode, extract_frame, frame, raw_capacity, RgbaImage, StegoError,
    HEADER_LEN,
};
use vstd::string::StringSliceAdditionalSpecFns;

verus! {

/// One stored credential.
#[derive(Clone, Debug)]
pub struct PasswordEntry {
    pub name: String,
    pub username: String,
    pub password: String,
    pub url: Option<String>,
    pub notes: Option<String>,
}

/// Why a record could not be sealed into, or opened from, an image.
#[derive(Clone, Copy, Debug, PartialEq, Eq, Structural)]
pub enum VaultError {
    /// Key derivation or the cipher failed.
    Crypto(CryptoError),
    /// The image could not carry, or did not hold, a frame.
    Stego(StegoError),
    /// The frame is too short to hold a salt.
    Corrupted,
}

/// Relies on `zeroize::Zeroize` for `[u8; N]`: overwrites every byte with zero
/// through volatile writes that the compiler keeps.
#[verifier::external_body]
fn wipe_key(key: &mut [u8; 32])
    ensures
        final(key)@ == Seq::new(32, |i: int| 0u8),
{
    key.zeroize();
}

/// `a` followed by `b`.
fn concat(a: &[u8], b: &[u8]) -> (r: Vec<u8>)
    ensures
        r@ == a@ + b@,
{
    let mut r: Vec<u8> = Vec::new();
    let mut i: usize = 0;
    while i < a.len()
        invariant
            i <= a@.len(),
            r@ == a@.subrange(0, i as int),
        decreases a@.len() - i,
    {
        r.push(a[i]);
        i += 1;
        assert(r@ =~= a@.subrange(0, i as int));
    }
    let mut j: usize = 0;
    while j < b.len()
        invariant
            j <= b@.len(),
            r@ == a@ + b@.subrange(0, j as int),
        decreases b@.len() - j,
    {
        r.push(b[j]);
        j += 1;
        assert(r@ =~= a@ + b@.subrange(0, j as int));
    }
    assert(b@.subrange(0, j as int) =~= b@);
    assert(a@.subrange(0, i as int) =~= a@);
    r
}

/// The payload that sealing writes: the salt, then the encrypted blob.
pub open spec fn sealed_payload(salt: Seq<u8>, blob: Seq<u8>) -> Seq<u8> {
    salt + blob
}

/// Encrypts `record` under the key that `master_password` and `salt` derive,
/// wipes the key, and embeds `salt ‖ blob` into a copy of `image`.
pub fn seal_record(record: &[u8], master_password: &str, salt: &[u8; 16], image: &RgbaImage) -> (r:
    Result<RgbaImage, VaultError>)
    requires
        image.wf(),
    ensures
        !derivation_accepts(master_password.spec_bytes(), salt@) ==> r == Err::<
            RgbaImage,
            VaultError,
        >(VaultError::Crypto(CryptoError::Derivation)),
        derivation_accepts(master_password.spec_bytes(), salt@) && record@.len() > P_MAX ==> r
            == Err::<RgbaImage, VaultError>(VaultError::Crypto(CryptoError::Encryption)),
        derivation_accepts(master_password.spec_bytes(), salt@) && record@.len() <= P_MAX ==> (r
            is Err <==> (HEADER_LEN + SALT_SIZE + 28 + record@.len() > raw_capacity(
            image.width as int,
            image.height as int,
        ) || SALT_SIZE + 28 + record@.len() > u32::MAX)),
        derivation_accepts(master_password.spec_bytes(), salt@) && record@.len() <= P_MAX && r
            is Err ==> r == Err::<RgbaImage, VaultError>(
            VaultError::Stego(StegoError::CapacityExceeded),
        ),
        r matches Ok(out) ==> {
            &&& out.width == image.width
            &&& out.height == image.height
            &&& out.wf()
            &&& exists|blob: Seq<u8>|
                {
                    &&& sealed_by(
                        argon2id_of(master_password.spec_bytes(), salt@),
                        blob,
                        record@,
                    )
                    &&& blob.len() == NONCE_SIZE + record@.len() + 16
                    &&& #[trigger] embedded(image.pixels@, frame(sealed_payload(salt@, blob)))
                        == out.pixels@
                }
        },
{
    let mut key = match derive_key(master_password, salt.as_slice()) {
        Ok(k) => k,
        Err(e) => {
            return Err(VaultError::Crypto(e));
        },
    };
    let ghost k = key@;
    let encrypted = encrypt(record, &key);
    wipe_key(&mut key);
    let blob = match encrypted {
        Ok(b) => b,
        Err(e) => {
            return Err(VaultError::Crypto(e));
        },
    };
    let payload = concat(salt.as_slice(), blob.as_slice());
    assert(payload@ == sealed_payload(salt@, blob@));
    if payload.len() > 0xFFFF_FFFFusize {
        return Err(VaultError::Stego(StegoError::CapacityExceeded));
    }
    match encode(image, payload.as_slice()) {
        Ok(out) => {
            assert(embedded(image.pixels@, frame(sealed_payload(salt@, blob@))) == out.pixels@);
            Ok(out)
        },
        Err(e) => Err(VaultError::Stego(e)),
    }
}

/// A result with its bytes seen as a sequence.
pub open spec fn vault_result(r: Result<Vec<u8>, VaultError>) -> Result<Seq<u8>, VaultError> {
    match r {
        Ok(v) => Ok(v@),
        Err(e) => Err(e),
    }
}

/// What opening may return for the bytes decoded from an image's low bits and a
/// password: the frame's payload is split into a 16-byte salt and an encrypted
/// blob, which is decrypted under the key the password and salt derive.
pub open spec fn open_outcome(decoded: Seq<u8>, password: Seq<u8>, r: Result<Seq<u8>, VaultError>) -> bool {
    match extract_frame(decoded) {
        Err(e) => r == Err::<Seq<u8>, VaultError>(VaultError::Stego(e)),
        Ok(payload) => if payload.len() < SALT_SIZE {
            r == Err::<Seq<u8>, VaultError>(VaultError::Corrupted)
        } else {
            let salt = payload.subrange(0, SALT_SIZE as int);
            let blob = payload.subrange(SALT_SIZE as int, payload.len() as int);
            if !derivation_accepts(password, salt) {
                r == Err::<Seq<u8>, VaultError>(VaultError::Crypto(CryptoError::Derivation))
            } else {
                match r {
                    Ok(p) => decrypt_outcome(argon2id_of(password, salt), blob, Ok(p)),
                    Err(VaultError::Crypto(e)) => decrypt_outcome(
                        argon2id_of(password, salt),
                        blob,
                        Err(e),
                    ),
                    Err(_) => false,
                }
            }
        },
    }
}

/// Reads the frame out of `image`, splits off the salt, derives the key from
/// `master_password`, decrypts the rest, and wipes the key.
pub fn open_record(image: &RgbaImage, master_password: &str) -> (r: Result<Vec<u8>, VaultError>)
    requires
        image.wf(),
    ensures
        open_outcome(image.decoded(), master_password.spec_bytes(), vault_result(r)),
{
    let payload = match decode(image) {
        Ok(p) => p,
        Err(e) => {
            return Err(VaultError::Stego(e));
        },
    };
    if payload.len() < SALT_SIZE {
        return Err(VaultError::Corrupted);
    }
    let (salt, blob) = payload.as_slice().split_at(SALT_SIZE);
    assert(salt@ =~= payload@.subrange(0, SALT_SIZE as int));
    assert(blob@ =~= payload@.subrange(SALT_SIZE as int, payload@.len() as int));
    let mut key = match derive_key(master_password, salt) {
        Ok(k) => k,
        Err(e) => {
            return Err(VaultError::Crypto(e));
        },
    };
    let plain = decrypt(blob, &key);
    wipe_key(&mut key);
    match plain {
        Ok(p) => Ok(p),
        Err(e) => Err(VaultError::Crypto(e)),
    }
}

/// Opening undoes sealing: for every well-formed image, password, 16-byte salt
/// and record, whatever `open_record` may return on the image that
/// `seal_record` produced, with the same password, is the record.
pub proof fn lemma_vault_round_trip(
    image: RgbaImage,
    password: Seq<u8>,
    salt: Seq<u8>,
    record: Seq<u8>,
    blob: Seq<u8>,
    r: Result<Seq<u8>, VaultError>,
)
    requires
        image.wf(),
        salt.len() == SALT_SIZE,
        derivation_accepts(password, salt),
        record.len() <= P_MAX,
        sealed_by(argon2id_of(password, salt), blob, record),
        sealed_payload(salt, blob).len() <= u32::MAX,
        HEADER_LEN + sealed_payload(salt, blob).len() <= raw_capacity(
            image.width as int,
            image.height as int,
        ),
        open_outcome(
            crate::stego::lsb_bytes(
                embedded(image.pixels@, frame(sealed_payload(salt, blob))),
                image.slots(),
            ),
            password,
            r,
        ),
    ensures
        r == Ok::<Seq<u8>, VaultError>(record),
{
    let payload = sealed_payload(salt, blob);
    crate::stego::lemma_stego_round_trip(image, payload);
    assert(payload.subrange(0, SALT_SIZE as int) =~= salt);
    assert(payload.subrange(SALT_SIZE as int, payload.len() as int) =~= blob);
    let key = argon2id_of(password, salt);
    match r {
        Ok(p) => {
            crate::crypto::lemma_crypto_round_trip(key, blob, record, Ok(p));
        },
        Err(VaultError::Crypto(e)) => {
            crate::crypto::lemma_crypto_round_trip(key, blob, record, Err(e));
        },
        Err(_) => {},
    }
}

} // verus!
