use image::{GrayImage, ImageFormat, Luma};
use komika::phash::{dhash, dhash_of_gray, hex16_string};
use std::io::Cursor;

/// Encode a small grayscale image to PNG bytes for a round-trip decode+hash.
fn png_bytes(f: impl Fn(u32, u32) -> u8) -> Vec<u8> {
    let img = GrayImage::from_fn(32, 32, |x, y| Luma([f(x, y)]));
    let mut buf = Cursor::new(Vec::new());
    img.write_to(&mut buf, ImageFormat::Png).unwrap();
    buf.into_inner()
}

#[test]
fn dhash_is_16_hex_chars_and_deterministic() {
    let bytes = png_bytes(|x, _| 255u8.saturating_sub((x * 8) as u8));
    let a = dhash(&bytes).expect("decodes");
    let b = dhash(&bytes).expect("decodes");
    assert_eq!(a, b, "same image hashes identically");
    assert_eq!(a.len(), 16, "64-bit hash is 16 hex chars");
    assert!(a.chars().all(|c| c.is_ascii_hexdigit()));
    assert_eq!(a, "ffffffffffffffff");
}

#[test]
fn distinct_images_hash_differently() {
    let left_bright = dhash(&png_bytes(|x, _| 255u8.saturating_sub((x * 8) as u8))).unwrap();
    let right_bright = dhash(&png_bytes(|x, _| (x * 8) as u8)).unwrap();
    assert_ne!(left_bright, right_bright);
}

#[test]
fn garbage_bytes_return_none() {
    assert_eq!(dhash(b"not an image"), None);
}

#[test]
fn right_brighter_image_hashes_to_zero() {
    let h = dhash(&png_bytes(|x, _| (x * 8) as u8)).unwrap();
    assert_eq!(h, "0000000000000000");
}

#[test]
fn hex16_pads_and_lowercases() {
    assert_eq!(hex16_string(0), "0000000000000000");
    assert_eq!(hex16_string(0xab), "00000000000000ab");
    assert_eq!(hex16_string(u64::MAX), "ffffffffffffffff");
    assert_eq!(hex16_string(0x0123_4567_89ab_cdef), "0123456789abcdef");
}

#[test]
fn dhash_bits_follow_row_major_comparisons() {
    // Row 0 falls left to right (all eight bits set), the other rows are flat.
    let mut px = vec![0u8; 72];
    for x in 0..9 {
        px[x] = 200 - (x as u8) * 10;
    }
    assert_eq!(dhash_of_gray(&px), 0xff00_0000_0000_0000);
    // A single fall in the last row, last column: the lowest bit.
    let mut q = vec![0u8; 72];
    q[7 * 9 + 7] = 5;
    assert_eq!(dhash_of_gray(&q), 1);
}
