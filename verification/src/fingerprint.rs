use vstd::prelude::*;
use crate::frame::Frame;

verus! {

/// The perceptual fingerprint of a frame, as the bits that
/// `imagehash::PerceptualHash::hash` computes for the frame's pixels when
/// both the resized image and the hash are `hash_w` wide and `hash_h` tall.
/// The hash is a pure function of its arguments, so the result is given a
/// name here and every caller's contract speaks of that name.
pub uninterp spec fn phash_of(
    pixels: Seq<u8>,
    width: int,
    height: int,
    hash_w: int,
    hash_h: int,
) -> Seq<bool>;

/// Relies on `imagehash::PerceptualHash::hash` (imagehash 0.3.0), configured
/// with both the image size and the hash size set to `hash_w` x `hash_h`:
/// the result depends on the pixel data and the two sizes alone. Its
/// arithmetic is fixed floating point (resampling, a cosine transform), so
/// equal inputs give equal bits within any one build of the library. Each
/// of the `hash_h` DCT rows contributes `hash_w - 1` bits, because the hash
/// skips the first (DC) column of every row.
#[verifier::external_body]
pub fn perceptual_fingerprint(frame: &Frame, hash_w: usize, hash_h: usize) -> (bits: Vec<bool>)
    requires
        frame.wf(),
        1 <= hash_w <= 64,
        1 <= hash_h <= 64,
    ensures
        bits@ == phash_of(
            frame.pixels@,
            frame.width as int,
            frame.height as int,
            hash_w as int,
            hash_h as int,
        ),
        bits@.len() == hash_h * (hash_w - 1),
{
    let img = image::RgbImage::from_raw(frame.width, frame.height, frame.pixels.clone())
        .expect("frame buffer matches its dimensions");
    let hasher = imagehash::PerceptualHash::new()
        .with_image_size(hash_w, hash_h)
        .with_hash_size(hash_w, hash_h);
    hasher.hash(&image::DynamicImage::ImageRgb8(img)).bits
}

/// Count of differing positions among the first `n` positions of `a` and `b`.
pub open spec fn diff_count_upto(a: Seq<bool>, b: Seq<bool>, n: int) -> nat
    decreases n,
{
    if n <= 0 {
        0
    } else {
        diff_count_upto(a, b, n - 1) + (if a[n - 1] != b[n - 1] {
            1nat
        } else {
            0nat
        })
    }
}

/// Hamming distance between two equal-length bit vectors: the count of
/// positions where they differ.
pub open spec fn hamming(a: Seq<bool>, b: Seq<bool>) -> nat {
    diff_count_upto(a, b, a.len() as int)
}

proof fn lemma_diff_count_upto_bound(a: Seq<bool>, b: Seq<bool>, n: int)
    requires
        0 <= n,
    ensures
        diff_count_upto(a, b, n) <= n,
    decreases n,
{
    if n > 0 {
        lemma_diff_count_upto_bound(a, b, n - 1);
    }
}

/// Computes the Hamming distance between two fingerprints of equal length.
pub fn hamming_distance(a: &Vec<bool>, b: &Vec<bool>) -> (d: u32)
    requires
        a@.len() == b@.len(),
        a@.len() <= u32::MAX,
    ensures
        d == hamming(a@, b@),
        d <= a@.len(),
{
    let mut d: u32 = 0;
    let mut i: usize = 0;
    while i < a.len()
        invariant
            0 <= i <= a@.len(),
            a@.len() == b@.len(),
            a@.len() <= u32::MAX,
            d == diff_count_upto(a@, b@, i as int),
            d <= i,
        decreases a@.len() - i,
    {
        if a[i] != b[i] {
            d = d + 1;
        }
        i = i + 1;
    }
    proof {
        lemma_diff_count_upto_bound(a@, b@, a@.len() as int);
    }
    d
}

} // verus!
