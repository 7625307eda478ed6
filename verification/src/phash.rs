//! The perceptual hash of a cover (a 64-bit difference hash): the image is decoded,
//! turned to grayscale and resized to 9×8 by the `image` crate; each of the 64 bits says
//! whether a pixel is brighter than its right-hand neighbour; the hash is written as 16
//! lowercase hex digits.
use vstd::prelude::*;

verus! {

/// The 9×8 grayscale thumbnail that the `image` crate makes of encoded image bytes.
pub uninterp spec fn gray_9x8(bytes: Seq<u8>) -> Option<Seq<u8>>;

/// `image::load_from_memory`, then `to_luma8` and `imageops::resize` to 9×8 with the
/// triangle filter: the 72 gray pixels, row by row; `None` when the bytes do not decode.
/// The pixels are only named (they are the decoder's and the resampler's), but a 9×8
/// one-channel buffer always holds 72 bytes.
#[verifier::external_body]
fn decode_gray_9x8(bytes: &[u8]) -> (r: Option<Vec<u8>>)
    ensures
        match r {
            Some(v) => gray_9x8(bytes@) == Some(v@) && v@.len() == 72,
            None => gray_9x8(bytes@) is None,
        },
{
    match image::load_from_memory(bytes) {
        Ok(img) => Some(
            image::imageops::resize(&img.to_luma8(), 9, 8, image::imageops::FilterType::Triangle).into_raw(),
        ),
        Err(_) => None,
    }
}

/// Comparison `k` (row `k / 8`, column `k % 8`): the pixel is brighter than its
/// right-hand neighbour.
pub open spec fn brighter(px: Seq<u8>, k: int) -> bool {
    px[(k / 8) * 9 + k % 8] > px[(k / 8) * 9 + k % 8 + 1]
}

/// The hash of the first `n` comparisons, the first one most significant.
pub open spec fn dhash_bits(px: Seq<u8>, n: nat) -> nat
    decreases n,
{
    if n == 0 {
        0
    } else {
        2 * dhash_bits(px, (n - 1) as nat) + (if brighter(px, n - 1) { 1nat } else { 0nat })
    }
}

pub open spec fn hex_char(d: nat) -> char {
    if d < 10 {
        ((d + 48) as u32) as char
    } else {
        ((d + 87) as u32) as char
    }
}

/// The lowest `n` hex digits of `v`, least significant first.
pub open spec fn hex_rev(v: nat, n: nat) -> Seq<char>
    decreases n,
{
    if n == 0 {
        Seq::empty()
    } else {
        seq![hex_char(v % 16)] + hex_rev(v / 16, (n - 1) as nat)
    }
}

/// `v` as 16 lowercase hex digits, zero-padded (`format!("{v:016x}")`).
pub open spec fn hex16(v: nat) -> Seq<char> {
    hex_rev(v, 16).reverse()
}

proof fn lemma_bits_bound(px: Seq<u8>, n: nat)
    ensures
        dhash_bits(px, n) < vstd::arithmetic::power2::pow2(n),
    decreases n,
{
    if n > 0 {
        lemma_bits_bound(px, (n - 1) as nat);
        vstd::arithmetic::power2::lemma_pow2_unfold(n);
    } else {
        vstd::arithmetic::power2::lemma2_to64();
    }
}

/// The difference hash of a 9×8 gray thumbnail.
pub fn dhash_of_gray(px: &[u8]) -> (r: u64)
    requires
        px@.len() == 72,
    ensures
        r == dhash_bits(px@, 64),
{
    let mut bits: u64 = 0;
    let mut k: usize = 0;
    proof {
        vstd::arithmetic::power2::lemma2_to64();
    }
    while k < 64
        invariant
            k <= 64,
            px@.len() == 72,
            bits == dhash_bits(px@, k as nat),
        decreases 64 - k,
    {
        let y = k / 8;
        let x = k % 8;
        let left = px[y * 9 + x];
        let right = px[y * 9 + x + 1];
        proof {
            lemma_bits_bound(px@, k as nat);
            vstd::arithmetic::power2::lemma_pow2_unfold((k + 1) as nat);
            if k + 1 < 64 {
                vstd::arithmetic::power2::lemma_pow2_strictly_increases((k + 1) as nat, 64);
            }
            vstd::arithmetic::power2::lemma2_to64();
            lemma_bits_bound(px@, (k + 1) as nat);
        }
        let b: u64 = if left > right { 1 } else { 0 };
        bits = bits * 2 + b;
        k = k + 1;
    }
    bits
}

fn hex_digit(d: u64) -> (c: char)
    requires
        d < 16,
    ensures
        c == hex_char(d as nat),
{
    if d < 10 {
        let b: u8 = (d + 48) as u8;
        b as char
    } else {
        let b: u8 = (d + 87) as u8;
        b as char
    }
}

proof fn lemma_hex_rev_len(v: nat, n: nat)
    ensures
        hex_rev(v, n).len() == n,
    decreases n,
{
    if n > 0 {
        lemma_hex_rev_len(v / 16, (n - 1) as nat);
    }
}

/// `v` as 16 lowercase hex digits, zero-padded.
pub fn hex16_string(v: u64) -> (r: String)
    ensures
        r@ == hex16(v as nat),
{
    let mut rev: Vec<char> = Vec::new();
    let mut w: u64 = v;
    let mut i: usize = 0;
    while i < 16
        invariant
            i <= 16,
            rev@ + hex_rev(w as nat, (16 - i) as nat) == hex_rev(v as nat, 16),
        decreases 16 - i,
    {
        let c = hex_digit(w % 16);
        let ghost old_rev = rev@;
        rev.push(c);
        assert(hex_rev(w as nat, (16 - i) as nat) == seq![hex_char((w % 16) as nat)] + hex_rev((w / 16) as nat, (16 - i - 1) as nat));
        assert(rev@ + hex_rev((w / 16) as nat, (16 - i - 1) as nat) =~= old_rev + hex_rev(w as nat, (16 - i) as nat));
        w = w / 16;
        i = i + 1;
    }
    proof {
        lemma_hex_rev_len(w as nat, 0);
        lemma_hex_rev_len(v as nat, 16);
    }
    assert(rev@ =~= hex_rev(v as nat, 16));
    let mut out = String::new();
    let mut j: usize = 16;
    while j > 0
        invariant
            j <= 16,
            rev@.len() == 16,
            out@ == rev@.reverse().take(16 - j),
        decreases j,
    {
        crate::text::push_char(&mut out, rev[j - 1]);
        assert(rev@.reverse().take(16 - j + 1) =~= rev@.reverse().take(16 - j).push(rev@[j - 1]));
        j = j - 1;
    }
    assert(rev@.reverse().take(16) =~= rev@.reverse());
    out
}

/// The difference hash of encoded image bytes as 16 lowercase hex digits; `None` when
/// the bytes do not decode (a missing hash is one fewer dedup signal, never an error).
pub fn dhash(bytes: &[u8]) -> (r: Option<String>)
    ensures
        match gray_9x8(bytes@) {
            Some(px) => px.len() == 72 && (r matches Some(h) && h@ == hex16(dhash_bits(px, 64))),
            None => r is None,
        },
{
    match decode_gray_9x8(bytes) {
        Some(px) => {
            let bits = dhash_of_gray(px.as_slice());
            Some(hex16_string(bits))
        },
        None => None,
    }
}

} // verus!
