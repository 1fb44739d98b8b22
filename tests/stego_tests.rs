use pixelvault::stego::{calculate_capacity, decode, encode, RgbaImage, StegoError};

fn frame_bits(bytes: &[u8]) -> Vec<u8> {
    bytes.iter().flat_map(|b| (0..8).rev().map(move |i| (b >> i) & 1)).collect()
}

/// Writes `bits` into the low bits of the R, G, B channels, in order.
fn write_low_bits(img: &mut RgbaImage, bits: &[u8]) {
    let mut k = 0;
    for (i, px) in img.pixels.iter_mut().enumerate() {
        if i % 4 == 3 {
            continue;
        }
        if k == bits.len() {
            break;
        }
        *px = (*px & 0xfe) | bits[k];
        k += 1;
    }
}

#[test]
fn test_encode_decode() {
    let img = RgbaImage::from_pixel(100, 100, [255, 0, 0, 255]);

    let data = b"Test data for steganography";

    let encoded = encode(&img, data).unwrap();
    let decoded = decode(&encoded).unwrap();

    assert_eq!(data.to_vec(), decoded);
}

#[test]
fn abc_in_ten_by_ten_keeps_alpha() {
    let img = RgbaImage::from_pixel(10, 10, [255, 0, 0, 255]);
    let encoded = encode(&img, b"abc").unwrap();
    assert_eq!(decode(&encoded).unwrap(), b"abc".to_vec());
    for p in encoded.pixels.chunks(4) {
        assert_eq!(p[3], 255);
    }
    // 'P' = 0101_0000: the first pixel carries 0, 1, 0.
    assert_eq!(&encoded.pixels[0..4], &[254, 1, 0, 255]);
    // 12 frame bytes = 96 bits = 32 pixels; the rest is untouched.
    assert_eq!(&encoded.pixels[32 * 4..], &img.pixels[32 * 4..]);
}

#[test]
fn capacity_values() {
    assert_eq!(calculate_capacity(10, 10), 28);
    assert_eq!(calculate_capacity(100, 100), 3741);
    assert_eq!(calculate_capacity(1, 1), 0);
    assert_eq!(calculate_capacity(4, 6), 0);
    assert_eq!(calculate_capacity(0, 50), 0);
}

#[test]
fn frame_exactly_at_capacity_round_trips() {
    let img = RgbaImage::from_pixel(10, 10, [10, 20, 30, 40]);
    let data: Vec<u8> = (0..28u8).collect();
    let encoded = encode(&img, &data).unwrap();
    assert_eq!(decode(&encoded).unwrap(), data);
}

#[test]
fn frame_over_capacity_is_rejected() {
    let img = RgbaImage::from_pixel(10, 10, [10, 20, 30, 40]);
    let before = img.pixels.clone();
    let data = vec![7u8; 29];
    assert_eq!(encode(&img, &data).unwrap_err(), StegoError::CapacityExceeded);
    assert_eq!(img.pixels, before);
}

#[test]
fn untouched_image_is_not_a_vault() {
    let img = RgbaImage::from_pixel(100, 100, [255, 0, 0, 255]);
    assert_eq!(decode(&img), Err(StegoError::NotAVaultImage));
    let pixels: Vec<u8> = (0..40_000u32).map(|i| (i.wrapping_mul(2654435761) >> 13) as u8).collect();
    let noisy = RgbaImage::from_raw(100, 100, pixels).unwrap();
    assert_eq!(decode(&noisy), Err(StegoError::NotAVaultImage));
}

#[test]
fn tiny_image_has_no_data() {
    let img = RgbaImage::from_pixel(1, 1, [1, 1, 1, 1]);
    assert_eq!(decode(&img), Err(StegoError::NoData));
}

#[test]
fn missing_length_is_truncated_header() {
    // 5×3 pixels: 45 bits, 6 bytes decoded.
    let mut img = RgbaImage::from_pixel(5, 3, [0, 0, 0, 0]);
    write_low_bits(&mut img, &frame_bits(b"PXVLT"));
    assert_eq!(decode(&img), Err(StegoError::TruncatedHeader));
}

#[test]
fn overlong_length_is_corrupt() {
    let mut img = RgbaImage::from_pixel(10, 10, [0, 0, 0, 0]);
    let mut frame = b"PXVLT".to_vec();
    frame.extend_from_slice(&1000u32.to_be_bytes());
    write_low_bits(&mut img, &frame_bits(&frame));
    assert_eq!(decode(&img), Err(StegoError::CorruptLength));
}

#[test]
fn raw_buffer_must_match_dimensions() {
    assert!(RgbaImage::from_raw(2, 2, vec![0; 16]).is_some());
    assert!(RgbaImage::from_raw(2, 2, vec![0; 15]).is_none());
    assert!(RgbaImage::from_raw(2, 3, vec![0; 16]).is_none());
    assert_eq!(RgbaImage::from_pixel(3, 2, [1, 2, 3, 4]).dimensions(), (3, 2));
}
