use videodocparser::frame::Frame;
use videodocparser::frame_analyzer::{FrameAnalyzer, SENSITIVITY_DENOM};
use videodocparser::fingerprint::{hamming_distance, perceptual_fingerprint};

fn solid_frame(w: u32, h: u32, r: u8, g: u8, b: u8) -> Frame {
    let mut pixels = Vec::new();
    for _ in 0..(w * h) {
        pixels.push(r);
        pixels.push(g);
        pixels.push(b);
    }
    Frame::new(w, h, pixels).unwrap()
}

fn checkerboard_frame(w: u32, h: u32) -> Frame {
    let mut pixels = Vec::new();
    for y in 0..h {
        for x in 0..w {
            let v = if ((x / 8) + (y / 8)) % 2 == 0 { 255u8 } else { 0u8 };
            pixels.push(v);
            pixels.push(v);
            pixels.push(v);
        }
    }
    Frame::new(w, h, pixels).unwrap()
}

fn gradient_frame(w: u32, h: u32) -> Frame {
    let mut pixels = Vec::new();
    for _ in 0..h {
        for x in 0..w {
            let v = ((x * 255) / w.max(1)) as u8;
            pixels.push(v);
            pixels.push(v);
            pixels.push(v);
        }
    }
    Frame::new(w, h, pixels).unwrap()
}

#[test]
fn frame_new_checks_dimensions() {
    assert!(Frame::new(2, 2, vec![0u8; 12]).is_some());
    assert!(Frame::new(2, 2, vec![0u8; 11]).is_none());
    assert!(Frame::new(0, 2, vec![]).is_none());
    assert!(Frame::new(2, 0, vec![]).is_none());
}

#[test]
fn hamming_distance_counts_differing_bits() {
    let a = vec![true, false, true, false];
    let b = vec![true, true, false, false];
    assert_eq!(hamming_distance(&a, &b), 2);
    assert_eq!(hamming_distance(&a, &a), 0);
}

#[test]
fn fingerprint_has_240_bits_and_is_deterministic() {
    let a = checkerboard_frame(64, 64);
    let fa1 = perceptual_fingerprint(&a, 16, 16);
    let fa2 = perceptual_fingerprint(&a, 16, 16);
    assert_eq!(fa1.len(), 240);
    assert_eq!(fa1, fa2);
}

#[test]
fn fingerprints_of_unlike_frames_are_far_apart() {
    // The two patterns used by the scenario tests must differ in well over
    // a tenth of the hash bits, or the dedup scenarios make no sense.
    let a = checkerboard_frame(64, 64);
    let b = gradient_frame(64, 64);
    let fa = perceptual_fingerprint(&a, 16, 16);
    let fb = perceptual_fingerprint(&b, 16, 16);
    let d = hamming_distance(&fa, &fb);
    assert!(d > 25, "distance {} too small for the scenarios", d);
}

#[test]
fn sensitivity_out_of_range_is_rejected() {
    assert!(FrameAnalyzer::new(SENSITIVITY_DENOM + 1).is_err());
    assert!(FrameAnalyzer::new(SENSITIVITY_DENOM).is_ok());
    assert!(FrameAnalyzer::new(0).is_ok());
}

#[test]
fn near_duplicates_collapse_to_two_kept_frames() {
    // 10 near-identical frames then 1 sharply different one, sensitivity
    // 0.9: frames 1..=9 are dropped, frame 10 starts a new baseline.
    let base = checkerboard_frame(64, 64);
    let other = gradient_frame(64, 64);
    let mut analyzer = FrameAnalyzer::new(900_000).unwrap();
    for _ in 0..10 {
        let f = checkerboard_frame(64, 64);
        analyzer.process_frame(f);
    }
    analyzer.process_frame(gradient_frame(64, 64));
    let result = analyzer.finish();
    assert_eq!(result.kept_frames.len(), 2);
    assert_eq!(result.removed_indices, vec![1, 2, 3, 4, 5, 6, 7, 8, 9]);
    assert_eq!(result.differences.len(), 10);
    assert_eq!(result.kept_frames[0].pixels, base.pixels);
    assert_eq!(result.kept_frames[1].pixels, other.pixels);
    for k in 0..9 {
        assert_eq!(result.differences[k], 0);
    }
    assert!(result.differences[9] > 25);
}

#[test]
fn empty_stream_yields_empty_results() {
    let analyzer = FrameAnalyzer::new(900_000).unwrap();
    let result = analyzer.finish();
    assert_eq!(result.kept_frames.len(), 0);
    assert_eq!(result.removed_indices.len(), 0);
    assert_eq!(result.differences.len(), 0);
}

#[test]
fn processing_twice_gives_identical_results() {
    let mut outcomes = Vec::new();
    for _ in 0..2 {
        let mut analyzer = FrameAnalyzer::new(700_000).unwrap();
        analyzer.process_frame(checkerboard_frame(64, 64));
        analyzer.process_frame(gradient_frame(64, 64));
        analyzer.process_frame(solid_frame(64, 64, 200, 10, 10));
        analyzer.process_frame(checkerboard_frame(64, 64));
        let result = analyzer.finish();
        let kept_pixels: Vec<Vec<u8>> =
            result.kept_frames.iter().map(|f| f.pixels.clone()).collect();
        outcomes.push((kept_pixels, result.removed_indices, result.differences));
    }
    assert_eq!(outcomes[0], outcomes[1]);
}

#[test]
fn sensitivity_zero_keeps_only_the_first_frame() {
    let mut analyzer = FrameAnalyzer::new(0).unwrap();
    analyzer.process_frame(checkerboard_frame(64, 64));
    analyzer.process_frame(gradient_frame(64, 64));
    analyzer.process_frame(solid_frame(64, 64, 0, 255, 0));
    analyzer.process_frame(gradient_frame(64, 64));
    let result = analyzer.finish();
    assert_eq!(result.kept_frames.len(), 1);
    assert_eq!(result.removed_indices, vec![1, 2, 3]);
}

#[test]
fn full_sensitivity_keeps_even_identical_frames() {
    let mut analyzer = FrameAnalyzer::new(SENSITIVITY_DENOM).unwrap();
    analyzer.process_frame(checkerboard_frame(64, 64));
    analyzer.process_frame(checkerboard_frame(64, 64));
    analyzer.process_frame(checkerboard_frame(64, 64));
    let result = analyzer.finish();
    assert_eq!(result.kept_frames.len(), 3);
    assert_eq!(result.removed_indices.len(), 0);
    assert_eq!(result.differences, vec![0, 0]);
}
