use pixelvault::crypto::CryptoError;
use pixelvault::password::{alphabet_char, generate_password};
use pixelvault::stego::{encode, RgbaImage, StegoError};
use pixelvault::vault::{open_record, seal_record, VaultError};

#[test]
fn sealed_record_opens_with_the_password() {
    let img = RgbaImage::from_pixel(64, 64, [12, 34, 56, 255]);
    let record = br#"{"name":"mail","username":"me","password":"pw"}"#;
    let salt = [5u8; 16];
    let sealed = seal_record(record, "master", &salt, &img).unwrap();
    assert_eq!(sealed.dimensions(), (64, 64));
    assert_eq!(open_record(&sealed, "master").unwrap(), record.to_vec());
    assert_eq!(
        open_record(&sealed, "other"),
        Err(VaultError::Crypto(CryptoError::Authentication))
    );
}

#[test]
fn record_too_large_for_image() {
    let img = RgbaImage::from_pixel(10, 10, [0, 0, 0, 255]);
    let salt = [1u8; 16];
    assert_eq!(
        seal_record(b"a record that cannot fit", "pw", &salt, &img).unwrap_err(),
        VaultError::Stego(StegoError::CapacityExceeded)
    );
}

#[test]
fn plain_image_is_not_a_vault() {
    let img = RgbaImage::from_pixel(20, 20, [255, 0, 0, 255]);
    assert_eq!(
        open_record(&img, "pw"),
        Err(VaultError::Stego(StegoError::NotAVaultImage))
    );
}

#[test]
fn payload_without_salt_is_corrupted() {
    let img = RgbaImage::from_pixel(20, 20, [255, 0, 0, 255]);
    let short = encode(&img, b"short").unwrap();
    assert_eq!(open_record(&short, "pw"), Err(VaultError::Corrupted));
}

#[test]
fn generated_password_uses_the_alphabet() {
    let p = generate_password();
    assert_eq!(p.chars().count(), 20);
    let allowed = "ABCDEFGHIJKLMNOPQRSTUVWXYZabcdefghijklmnopqrstuvwxyz0123456789!@#$%^&*";
    assert!(p.chars().all(|c| allowed.contains(c)));
}

#[test]
fn alphabet_order() {
    let all: String = (0..70).map(alphabet_char).collect();
    assert_eq!(all, "ABCDEFGHIJKLMNOPQRSTUVWXYZabcdefghijklmnopqrstuvwxyz0123456789!@#$%^&*");
}
