//! Comment images: the upload limits, the downscale arithmetic, the choice among the
//! candidate sizes, and the public path of a stored image.
use vstd::prelude::*;
use crate::text::push_str;
use crate::rounding::{lemma_scaled_product_bounds, quotient, scale_edge, scaled_edge};

verus! {

/// Raw uploads larger than this are refused before decoding (8 MB).
pub const MAX_UPLOAD_BYTES: usize = 8388608;

/// The size budget of a stored WebP (500 KB).
pub const MAX_MEDIA_BYTES: usize = 512000;

/// The candidate longest-edge lengths in pixels, largest first.
pub open spec fn candidate_edge_list() -> Seq<u32> {
    seq![1280u32, 1080, 960, 800, 640, 512, 400]
}

/// The candidate longest-edge lengths in pixels, largest first.
pub fn candidate_edges() -> (r: Vec<u32>)
    ensures
        r@ == candidate_edge_list(),
{
    let r: Vec<u32> = vec![1280, 1080, 960, 800, 640, 512, 400];
    assert(r@ == candidate_edge_list());
    r
}

/// A processed comment image: the WebP bytes and the final pixel dimensions.
#[derive(Debug, Clone)]
pub struct ProcessedImage {
    pub webp: Vec<u8>,
    pub width: u32,
    pub height: u32,
}

/// Why an upload is refused before it is decoded.
#[derive(Debug, Clone, Copy, PartialEq, Eq, Structural)]
pub enum UploadProblem {
    Empty,
    TooLarge,
}

impl UploadProblem {
    /// The message shown for the refusal.
    pub fn message(self) -> (r: &'static str)
        ensures
            r@ == (match self {
                UploadProblem::Empty => "empty upload"@,
                UploadProblem::TooLarge => "image too large (max 8 MB)"@,
            }),
    {
        match self {
            UploadProblem::Empty => "empty upload",
            UploadProblem::TooLarge => "image too large (max 8 MB)",
        }
    }
}

/// An upload of `len` bytes is refused when it is empty or over `MAX_UPLOAD_BYTES`.
pub fn check_upload(len: usize) -> (r: Option<UploadProblem>)
    ensures
        r == (if len == 0 {
            Some(UploadProblem::Empty)
        } else if len > MAX_UPLOAD_BYTES {
            Some(UploadProblem::TooLarge)
        } else {
            None
        }),
{
    if len == 0 {
        Some(UploadProblem::Empty)
    } else if len > MAX_UPLOAD_BYTES {
        Some(UploadProblem::TooLarge)
    } else {
        None
    }
}

/// The size of `(w0, h0)` scaled so its longest edge is at most `max_edge`, aspect
/// preserved: an image already within the edge is kept as it is; otherwise both edges
/// are multiplied by the double-precision factor `max_edge / longest`, rounded to the
/// nearest pixel (halves away from zero) and kept at least 1 (`scaled_edge`).
pub open spec fn scaled(w0: int, h0: int, max_edge: int) -> (int, int) {
    let longest = if w0 >= h0 { w0 } else { h0 };
    if longest <= max_edge {
        (w0, h0)
    } else {
        let q = quotient(max_edge as nat, longest as nat);
        (scaled_edge(w0 as nat, q) as int, scaled_edge(h0 as nat, q) as int)
    }
}

/// Scaling never upscales: each edge stays within the source's and at least one pixel;
/// a source within the edge is kept as it is, and any other lands within the edge.
pub proof fn lemma_scaling_never_upscales(w0: int, h0: int, max_edge: int)
    requires
        1 <= w0 <= u32::MAX,
        1 <= h0 <= u32::MAX,
        1 <= max_edge,
    ensures
        1 <= scaled(w0, h0, max_edge).0 <= w0,
        1 <= scaled(w0, h0, max_edge).1 <= h0,
        (w0 <= max_edge && h0 <= max_edge) ==> scaled(w0, h0, max_edge) == (w0, h0),
        !(w0 <= max_edge && h0 <= max_edge) ==> scaled(w0, h0, max_edge).0 <= max_edge
            && scaled(w0, h0, max_edge).1 <= max_edge,
{
    let l = if w0 >= h0 { w0 } else { h0 };
    if l > max_edge {
        lemma_scaled_product_bounds(w0 as nat, max_edge as nat, l as nat);
        lemma_scaled_product_bounds(h0 as nat, max_edge as nat, l as nat);
    }
}

/// Scales `(w0, h0)` so the longest edge is at most `max_edge`, preserving the aspect
/// ratio and never upscaling; the factor and the products are rounded as double
/// precision rounds them.
pub fn scaled_dims(w0: u32, h0: u32, max_edge: u32) -> (r: (u32, u32))
    ensures
        (r.0 as int, r.1 as int) == scaled(w0 as int, h0 as int, max_edge as int),
{
    let longest: u32 = if w0 >= h0 { w0 } else { h0 };
    if longest <= max_edge {
        return (w0, h0);
    }
    (scale_edge(w0, max_edge, longest), scale_edge(h0, max_edge, longest))
}

/// What to do after encoding at candidate `index` produced `encoded_len` bytes.
#[derive(Debug, Clone, Copy, PartialEq, Eq, Structural)]
pub enum CandidateNext {
    /// The encoding fits the budget: use it.
    Accept,
    /// Too large: try the next, smaller candidate.
    Try(usize),
    /// Too large, and no smaller candidate is left: use it anyway.
    Fallback,
}

/// The first candidate whose encoding fits `MAX_MEDIA_BYTES` wins; if none does, the
/// last (smallest) is used.
pub fn after_encoding(index: usize, encoded_len: usize) -> (r: CandidateNext)
    requires
        index < candidate_edge_list().len(),
    ensures
        r == (if encoded_len <= MAX_MEDIA_BYTES {
            CandidateNext::Accept
        } else if index + 1 < candidate_edge_list().len() {
            CandidateNext::Try((index + 1) as usize)
        } else {
            CandidateNext::Fallback
        }),
{
    if encoded_len <= MAX_MEDIA_BYTES {
        CandidateNext::Accept
    } else if index + 1 < 7 {
        CandidateNext::Try(index + 1)
    } else {
        CandidateNext::Fallback
    }
}

/// The decoder's pixel-dimension cap on either edge.
pub const MAX_DECODE_EDGE: u32 = 10000;

/// The decoder's allocation cap (256 MB), so a decompression bomb is refused rather
/// than expanded.
pub const MAX_DECODE_ALLOC: u64 = 268435456;

/// How decoding failed.
#[derive(Debug, Clone, Copy, PartialEq, Eq, Structural)]
pub enum DecodeFailure {
    /// Reading the leading bytes to guess the format failed (an I/O error; bytes of an
    /// unknown format are not this, they fail at decoding as `Rejected`).
    UnknownFormat,
    /// The decoder refused the bytes: an unknown or unsupported format, corrupt data,
    /// or an image over a limit.
    Rejected,
}

/// What the `image` crate decodes the bytes to under the given limits: width, height
/// and the RGBA8 pixels, row by row.
pub uninterp spec fn decoded_rgba(bytes: Seq<u8>, max_width: u32, max_height: u32, max_alloc: u64) -> Result<(u32, u32, Seq<u8>), DecodeFailure>;

/// What `image::imageops::resize` with the Lanczos3 filter makes of a `w0`×`h0` RGBA8
/// buffer at `w`×`h`.
pub uninterp spec fn lanczos3_resized(px: Seq<u8>, w0: u32, h0: u32, w: u32, h: u32) -> Seq<u8>;

/// What the `image` crate's lossless WebP encoder writes for a `w`×`h` RGBA8 buffer;
/// `None` when it reports an error.
pub uninterp spec fn webp_lossless(px: Seq<u8>, w: u32, h: u32) -> Option<Seq<u8>>;

/// `image::ImageReader` over the bytes with a guessed format and the given limits,
/// `decode`, then `to_rgba8`. The outcome is only named; an RGBA8 buffer made by
/// `to_rgba8` holds exactly four bytes per pixel.
#[verifier::external_body]
fn decode_rgba(bytes: &[u8], max_width: u32, max_height: u32, max_alloc: u64) -> (r: Result<(u32, u32, Vec<u8>), DecodeFailure>)
    ensures
        match r {
            Ok((w, h, px)) => decoded_rgba(bytes@, max_width, max_height, max_alloc) == Ok::<(u32, u32, Seq<u8>), DecodeFailure>((w, h, px@)) && px@.len() == 4 * w * h,
            Err(e) => decoded_rgba(bytes@, max_width, max_height, max_alloc) == Err::<(u32, u32, Seq<u8>), DecodeFailure>(e),
        },
{
    let Ok(mut reader) = image::ImageReader::new(std::io::Cursor::new(bytes)).with_guessed_format() else {
        return Err(DecodeFailure::UnknownFormat);
    };
    let mut limits = image::Limits::default();
    limits.max_image_width = Some(max_width);
    limits.max_image_height = Some(max_height);
    limits.max_alloc = Some(max_alloc);
    reader.limits(limits);
    match reader.decode() {
        Ok(img) => { let rgba = img.to_rgba8(); Ok((rgba.width(), rgba.height(), rgba.into_raw())) },
        Err(_) => Err(DecodeFailure::Rejected),
    }
}

/// `image::imageops::resize` with `FilterType::Lanczos3`; the output buffer has four
/// bytes per pixel of the new size. The pixels themselves are only named.
#[verifier::external_body]
fn resize_rgba(px: &[u8], w0: u32, h0: u32, w: u32, h: u32) -> (r: Vec<u8>)
    requires
        px@.len() == 4 * w0 * h0,
        w >= 1,
        h >= 1,
    ensures
        r@ == lanczos3_resized(px@, w0, h0, w, h),
        r@.len() == 4 * w * h,
{
    let img = image::RgbaImage::from_raw(w0, h0, px.to_vec()).unwrap();
    image::imageops::resize(&img, w, h, image::imageops::FilterType::Lanczos3).into_raw()
}

/// `image::codecs::webp::WebPEncoder::new_lossless(..).encode(.., Rgba8)` into a byte
/// vector: the bytes on success, `None` on an encoder error. The encoder panics unless
/// the buffer holds four bytes per pixel, hence the `requires`.
#[verifier::external_body]
fn encode_webp_lossless(px: &[u8], w: u32, h: u32) -> (r: Option<Vec<u8>>)
    requires
        px@.len() == 4 * w * h,
    ensures
        match r {
            Some(v) => webp_lossless(px@, w, h) == Some(v@),
            None => webp_lossless(px@, w, h) is None,
        },
{
    let mut out = Vec::new();
    match image::codecs::webp::WebPEncoder::new_lossless(&mut out).encode(px, w, h, image::ExtendedColorType::Rgba8) {
        Ok(()) => Some(out),
        Err(_) => None,
    }
}

/// Why a comment image could not be processed.
#[derive(Debug, Clone, Copy, PartialEq, Eq, Structural)]
pub enum MediaError {
    /// Refused before decoding.
    Upload(UploadProblem),
    /// The bytes could not be read to guess their format.
    CorruptImage,
    /// The decoder refused the image (unknown format, corrupt, or over a limit).
    TooLargeOrUnsupported,
    /// The decoded image has no pixels along one edge.
    ZeroDimension,
    /// The WebP encoder failed.
    EncodeFailed,
}

impl MediaError {
    /// The message shown to the uploader.
    pub fn message(self) -> (r: &'static str)
        ensures
            r@ == (match self {
                MediaError::Upload(UploadProblem::Empty) => "empty upload"@,
                MediaError::Upload(UploadProblem::TooLarge) => "image too large (max 8 MB)"@,
                MediaError::CorruptImage => "unsupported or corrupt image"@,
                MediaError::TooLargeOrUnsupported => "image too large or unsupported"@,
                MediaError::ZeroDimension => "image has a zero dimension"@,
                MediaError::EncodeFailed => "webp encode failed"@,
            }),
    {
        match self {
            MediaError::Upload(p) => p.message(),
            MediaError::CorruptImage => "unsupported or corrupt image",
            MediaError::TooLargeOrUnsupported => "image too large or unsupported",
            MediaError::ZeroDimension => "image has a zero dimension",
            MediaError::EncodeFailed => "webp encode failed",
        }
    }
}

/// The size of candidate `i` for a `w0`×`h0` image.
pub open spec fn candidate_size(w0: u32, h0: u32, i: int) -> (u32, u32) {
    let s = scaled(w0 as int, h0 as int, candidate_edge_list()[i] as int);
    (s.0 as u32, s.1 as u32)
}

/// The pixels encoded at candidate `i`: the decoded ones when the size is unchanged,
/// else their Lanczos3 resize.
pub open spec fn candidate_pixels(px: Seq<u8>, w0: u32, h0: u32, i: int) -> Seq<u8> {
    let (w, h) = candidate_size(w0, h0, i);
    if w == w0 && h == h0 {
        px
    } else {
        lanczos3_resized(px, w0, h0, w, h)
    }
}

/// Trying the candidates from `i` on: the first encoding within `MAX_MEDIA_BYTES`
/// wins; when none fits, the last (smallest) is kept; an encoder error ends the search.
pub open spec fn candidate_result(px: Seq<u8>, w0: u32, h0: u32, i: nat) -> Result<(Seq<u8>, u32, u32), MediaError>
    decreases candidate_edge_list().len() - i,
{
    if i >= candidate_edge_list().len() {
        Err(MediaError::EncodeFailed)
    } else {
        let (w, h) = candidate_size(w0, h0, i as int);
        match webp_lossless(candidate_pixels(px, w0, h0, i as int), w, h) {
            None => Err(MediaError::EncodeFailed),
            Some(webp) => if webp.len() <= MAX_MEDIA_BYTES || i + 1 >= candidate_edge_list().len() {
                Ok((webp, w, h))
            } else {
                candidate_result(px, w0, h0, i + 1)
            },
        }
    }
}

/// The outcome of processing uploaded bytes: the WebP bytes and their size, or why not.
pub open spec fn comment_image_outcome(bytes: Seq<u8>) -> Result<(Seq<u8>, u32, u32), MediaError> {
    if bytes.len() == 0 {
        Err(MediaError::Upload(UploadProblem::Empty))
    } else if bytes.len() > MAX_UPLOAD_BYTES {
        Err(MediaError::Upload(UploadProblem::TooLarge))
    } else {
        match decoded_rgba(bytes, MAX_DECODE_EDGE, MAX_DECODE_EDGE, MAX_DECODE_ALLOC) {
            Err(DecodeFailure::UnknownFormat) => Err(MediaError::CorruptImage),
            Err(DecodeFailure::Rejected) => Err(MediaError::TooLargeOrUnsupported),
            Ok((w0, h0, px)) => if w0 == 0 || h0 == 0 {
                Err(MediaError::ZeroDimension)
            } else {
                candidate_result(px, w0, h0, 0)
            },
        }
    }
}

/// Decodes uploaded image bytes under the decoder limits, downscales them preserving
/// the aspect ratio, and re-encodes them as lossless WebP within the size budget.
pub fn process_comment_image(bytes: &[u8]) -> (r: Result<ProcessedImage, MediaError>)
    ensures
        match r {
            Ok(p) => comment_image_outcome(bytes@) == Ok::<(Seq<u8>, u32, u32), MediaError>((p.webp@, p.width, p.height)),
            Err(e) => comment_image_outcome(bytes@) == Err::<(Seq<u8>, u32, u32), MediaError>(e),
        },
{
    if let Some(p) = check_upload(bytes.len()) {
        return Err(MediaError::Upload(p));
    }
    let (w0, h0, px) = match decode_rgba(bytes, MAX_DECODE_EDGE, MAX_DECODE_EDGE, MAX_DECODE_ALLOC) {
        Ok(d) => d,
        Err(DecodeFailure::UnknownFormat) => return Err(MediaError::CorruptImage),
        Err(DecodeFailure::Rejected) => return Err(MediaError::TooLargeOrUnsupported),
    };
    if w0 == 0 || h0 == 0 {
        return Err(MediaError::ZeroDimension);
    }
    assert(comment_image_outcome(bytes@) == candidate_result(px@, w0, h0, 0));
    let edges = candidate_edges();
    let mut i: usize = 0;
    while i < edges.len()
        invariant
            edges@ == candidate_edge_list(),
            i < edges@.len(),
            w0 >= 1,
            h0 >= 1,
            px@.len() == 4 * w0 * h0,
            comment_image_outcome(bytes@) == candidate_result(px@, w0, h0, i as nat),
        decreases edges@.len() - i,
    {
        let (w, h) = scaled_dims(w0, h0, edges[i]);
        assert(candidate_size(w0, h0, i as int) == (w, h));
        let ghost cp = candidate_pixels(px@, w0, h0, i as int);
        let encoded = if w == w0 && h == h0 {
            encode_webp_lossless(px.as_slice(), w, h)
        } else {
            let resized = resize_rgba(px.as_slice(), w0, h0, w, h);
            assert(resized@ == cp);
            encode_webp_lossless(resized.as_slice(), w, h)
        };
        assert(match encoded {
            Some(v) => webp_lossless(cp, w, h) == Some(v@),
            None => webp_lossless(cp, w, h) is None,
        });
        match encoded {
            None => return Err(MediaError::EncodeFailed),
            Some(webp) => match after_encoding(i, webp.len()) {
                CandidateNext::Try(next) => i = next,
                _ => return Ok(ProcessedImage { webp, width: w, height: h }),
            },
        }
    }
    Err(MediaError::EncodeFailed)
}

/// `/comment-media/{id}.webp`.
pub fn comment_media_url(id: &str) -> (r: String)
    ensures
        r@ == "/comment-media/"@ + id@ + ".webp"@,
{
    let mut r = String::new();
    push_str(&mut r, "/comment-media/");
    push_str(&mut r, id);
    push_str(&mut r, ".webp");
    r
}

} // verus!
