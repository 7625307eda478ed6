use image::{DynamicImage, GenericImageView, RgbImage};
use komika::media::{
    after_encoding, candidate_edges, check_upload, comment_media_url, process_comment_image, scaled_dims,
    CandidateNext, MediaError, UploadProblem, MAX_MEDIA_BYTES, MAX_UPLOAD_BYTES,
};

fn noisy_png(w: u32, h: u32) -> Vec<u8> {
    let mut img = RgbImage::new(w, h);
    for (x, y, px) in img.enumerate_pixels_mut() {
        let r = ((x * 73 + y * 151) % 256) as u8;
        let g = ((x * 199 + y * 37) % 256) as u8;
        let b = ((x ^ (y.wrapping_mul(101))) % 256) as u8;
        *px = image::Rgb([r, g, b]);
    }
    let mut bytes = Vec::new();
    DynamicImage::ImageRgb8(img)
        .write_to(&mut std::io::Cursor::new(&mut bytes), image::ImageFormat::Png)
        .unwrap();
    bytes
}

fn flat_png(w: u32, h: u32) -> Vec<u8> {
    let img = RgbImage::from_pixel(w, h, image::Rgb([20, 120, 200]));
    let mut bytes = Vec::new();
    DynamicImage::ImageRgb8(img)
        .write_to(&mut std::io::Cursor::new(&mut bytes), image::ImageFormat::Png)
        .unwrap();
    bytes
}

#[test]
fn preserves_aspect_ratio_and_downscales_longest_edge() {
    let src = flat_png(2000, 1000);
    let out = process_comment_image(&src).expect("processes");
    assert_eq!(out.width, 1280, "longest edge clamped to top candidate");
    assert_eq!(out.height, 640, "aspect ratio preserved (2:1)");
    let decoded = image::load_from_memory(&out.webp).expect("valid webp");
    assert_eq!(decoded.dimensions(), (1280, 640));
}

#[test]
fn does_not_upscale_small_images() {
    let src = flat_png(300, 200);
    let out = process_comment_image(&src).unwrap();
    assert_eq!((out.width, out.height), (300, 200), "never upscales");
}

#[test]
fn noisy_image_processes_to_valid_bounded_webp() {
    let src = noisy_png(640, 640);
    let out = process_comment_image(&src).unwrap();
    let longest = out.width.max(out.height);
    assert!(longest <= 640 && candidate_edges().contains(&longest));
    image::load_from_memory(&out.webp).expect("valid webp");
}

#[test]
fn rejects_empty_oversize_and_non_image() {
    assert!(process_comment_image(&[]).is_err());
    assert!(process_comment_image(&vec![0u8; MAX_UPLOAD_BYTES + 1]).is_err());
    assert!(process_comment_image(b"not an image").is_err());
}

#[test]
fn processing_errors_name_their_cause() {
    assert_eq!(process_comment_image(&[]).err(), Some(MediaError::Upload(UploadProblem::Empty)));
    assert_eq!(
        process_comment_image(&vec![0u8; MAX_UPLOAD_BYTES + 1]).err(),
        Some(MediaError::Upload(UploadProblem::TooLarge))
    );
    let e = process_comment_image(b"not an image").err().unwrap();
    assert_eq!(e, MediaError::TooLargeOrUnsupported);
    assert_eq!(e.message(), "image too large or unsupported");
    assert_eq!(MediaError::ZeroDimension.message(), "image has a zero dimension");
}

#[test]
fn flat_image_fits_the_budget_at_the_first_candidate() {
    let out = process_comment_image(&flat_png(1500, 1500)).unwrap();
    assert_eq!((out.width, out.height), (1280, 1280));
    assert!(out.webp.len() <= MAX_MEDIA_BYTES);
}

#[test]
fn scaled_dims_clamps_longest_edge_without_upscaling() {
    assert_eq!(scaled_dims(2000, 1000, 1280), (1280, 640));
    assert_eq!(scaled_dims(1000, 2000, 1280), (640, 1280));
    assert_eq!(scaled_dims(800, 600, 1280), (800, 600));
    let (w, h) = scaled_dims(4000, 3, 1280);
    assert_eq!(w, 1280);
    assert!(h >= 1, "height must stay at least 1px");
}

#[test]
fn media_url_is_id_path() {
    assert_eq!(comment_media_url("abc-123"), "/comment-media/abc-123.webp");
}

#[test]
fn scaling_rounds_to_the_nearest_pixel() {
    // 1000 * 1280 / 3000 = 426.67 -> 427; 3000 -> 1280.
    assert_eq!(scaled_dims(1000, 3000, 1280), (427, 1280));
    // Exactly half a pixel rounds away from zero: 1 * 1 / 2 = 0.5 -> 1.
    assert_eq!(scaled_dims(2, 1, 1), (1, 1));
    // The factor is rounded to double precision first: 629 * (1080 / 1360) lands just
    // below 499.5 and rounds down.
    assert_eq!(scaled_dims(1360, 629, 1080), (1080, 499));
    assert_eq!(scaled_dims(4000, 3, 1280), (1280, 1));
    assert_eq!(scaled_dims(u32::MAX, u32::MAX, 400), (400, 400));
    assert_eq!(scaled_dims(0, 0, 400), (0, 0));
}

#[test]
fn uploads_and_candidates() {
    assert_eq!(check_upload(0), Some(UploadProblem::Empty));
    assert_eq!(check_upload(8 * 1024 * 1024 + 1), Some(UploadProblem::TooLarge));
    assert_eq!(check_upload(8 * 1024 * 1024), None);
    assert_eq!(UploadProblem::TooLarge.message(), "image too large (max 8 MB)");
    assert_eq!(candidate_edges(), vec![1280, 1080, 960, 800, 640, 512, 400]);
    assert_eq!(after_encoding(0, 512_000), CandidateNext::Accept);
    assert_eq!(after_encoding(0, 512_001), CandidateNext::Try(1));
    assert_eq!(after_encoding(6, 512_001), CandidateNext::Fallback);
}

fn float_scaled(w0: u32, h0: u32, max_edge: u32) -> (u32, u32) {
    let longest = w0.max(h0);
    if longest <= max_edge {
        return (w0, h0);
    }
    let scale = max_edge as f64 / longest as f64;
    let w = ((w0 as f64 * scale).round() as u32).max(1);
    let h = ((h0 as f64 * scale).round() as u32).max(1);
    (w, h)
}

#[test]
fn scaled_dims_rounds_as_double_precision_does() {
    let mut state: u64 = 0x9e37_79b9_7f4a_7c15;
    let mut next = || {
        state ^= state << 13;
        state ^= state >> 7;
        state ^= state << 17;
        state
    };
    for edge in [1280u32, 1080, 960, 800, 640, 512, 400, 1, 7] {
        for w0 in 1..=300u32 {
            for h0 in [1u32, 2, 3, 629, 1000, 1359, 2999] {
                assert_eq!(scaled_dims(w0 * 7, h0, edge), float_scaled(w0 * 7, h0, edge));
            }
        }
    }
    for _ in 0..20000 {
        let w0 = (next() % 20000) as u32;
        let h0 = (next() % 20000) as u32;
        let e = (next() % 2000) as u32;
        assert_eq!(scaled_dims(w0, h0, e), float_scaled(w0, h0, e), "{w0}x{h0} at {e}");
        let w0 = next() as u32;
        let h0 = next() as u32;
        let e = next() as u32;
        assert_eq!(scaled_dims(w0, h0, e), float_scaled(w0, h0, e), "{w0}x{h0} at {e}");
    }
}
