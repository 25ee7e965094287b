use videodocparser::document_builder::{
    assemble_page, build_document, make_text_run, CONFIDENCE_GATE_CENTI,
};
use videodocparser::fonts::char_width_millis;
use videodocparser::frame::Frame;
use videodocparser::geometry::{page_geometry, page_y_coord, scaled_coord, Frac};
use videodocparser::ocr::{OcrFrameResult, OcrWord};

fn frac(num: i128, den: i128) -> Frac {
    Frac { num, den }
}

/// `a` and `b` denote the same rational.
fn same_ratio(a: Frac, b: Frac) -> bool {
    a.den > 0 && b.den > 0 && a.num * b.den == b.num * a.den
}

fn tiny_frame(w: u32, h: u32) -> Frame {
    let mut pixels = Vec::new();
    for i in 0..(w * h) {
        pixels.push((i % 251) as u8);
        pixels.push(17);
        pixels.push(200);
    }
    Frame::new(w, h, pixels).unwrap()
}

fn word(text: &str, bbox: (i32, i32, i32, i32), confidence: u32) -> OcrWord {
    OcrWord { text: text.to_string(), bbox, confidence }
}

#[test]
fn known_word_lands_at_the_expected_page_point() {
    // A word with box (100,100,180,130) on a 1000x800 image, scaled by 0.5
    // with offsets (10, 20): x = 100*0.5+10 = 60, y = (800-130)*0.5+20 = 355.
    let scale = frac(1, 2);
    let x = scaled_coord(100, scale, frac(10, 1));
    assert!(same_ratio(x, frac(60, 1)));
    let y = page_y_coord(130, 800, scale, frac(20, 1));
    assert!(same_ratio(y, frac(355, 1)));

    let w = word("hello", (100, 100, 180, 130), 9200);
    let run = make_text_run(&w, 800, scale, frac(10, 1), frac(20, 1));
    assert!(same_ratio(run.x, frac(60, 1)));
    assert!(same_ratio(run.y, frac(355, 1)));
    assert!(same_ratio(run.font_size, frac(15, 1)));
}

#[test]
fn geometry_of_a_wide_image_is_landscape_and_centered() {
    let g = page_geometry(1000, 800);
    assert_eq!(g.page_width, 842);
    assert_eq!(g.page_height, 595);
    // min(842/1000, 595/800) = 595/800
    assert!(same_ratio(g.scale, frac(595, 800)));
    // offset_x = (842 - 1000*595/800)/2 = 49.125; offset_y = 0
    assert!(same_ratio(g.offset_x, frac(78600, 1600)));
    assert!(same_ratio(g.offset_y, frac(0, 1)));
}

#[test]
fn geometry_of_a_tall_image_is_portrait() {
    let g = page_geometry(600, 1200);
    assert_eq!(g.page_width, 595);
    assert_eq!(g.page_height, 842);
    // min(595/600, 842/1200) = 842/1200
    assert!(same_ratio(g.scale, frac(842, 1200)));
}

#[test]
fn round_trip_recovers_the_word_bottom_edge() {
    // pageY = (H - y2) * scale + offY; undoing offset and scale gives H - y2.
    let scale = frac(595, 800);
    let off_y = frac(20, 1);
    let h: i128 = 800;
    let y2: i128 = 130;
    let page_y = page_y_coord(y2 as i32, h as u32, scale, off_y);
    // (pageY - offY) / scale == H - y2, cross-multiplied:
    // ((pn*od - on*pd) / (pd*od)) * (sd/sn) == h - y2
    let diff_num = page_y.num * off_y.den - off_y.num * page_y.den;
    let diff_den = page_y.den * off_y.den;
    assert_eq!(diff_num * scale.den, (h - y2) * (diff_den * scale.num));
}

#[test]
fn horizontal_scaling_uses_the_font_metrics() {
    assert_eq!(char_width_millis('A'), 667);
    assert_eq!(char_width_millis(' '), 278);
    assert_eq!(char_width_millis('@'), 1015);
    let w = word("AB", (0, 0, 100, 20), 9000);
    let run = make_text_run(&w, 100, frac(1, 1), frac(0, 1), frac(0, 1));
    // width of "AB" is 667+667 = 1334 millis; h = 100*100000 / (1334*20)
    let h = run.h_scaling.expect("has a natural width");
    assert!(same_ratio(h, frac(100 * 100000, 1334 * 20)));
}

#[test]
fn empty_text_gets_no_horizontal_scaling() {
    let w = word("", (0, 0, 100, 20), 9000);
    let run = make_text_run(&w, 100, frac(1, 1), frac(0, 1), frac(0, 1));
    assert!(run.h_scaling.is_none());
}

#[test]
fn words_under_the_confidence_threshold_are_left_out() {
    let frame = tiny_frame(8, 8);
    let words = vec![
        word("low", (0, 0, 4, 4), CONFIDENCE_GATE_CENTI - 1),
        word("high", (0, 0, 4, 4), CONFIDENCE_GATE_CENTI),
        word("higher", (1, 1, 5, 5), 10000),
    ];
    let jpeg = {
        let (pages, _) = build_document(&vec![tiny_frame(8, 8)], &vec![]);
        pages.into_iter().next().unwrap().jpeg
    };
    let page = assemble_page(0, &frame, &words, jpeg);
    assert_eq!(page.text_runs.len(), 2);
    assert_eq!(page.text_runs[0].text, "high");
    assert_eq!(page.text_runs[1].text, "higher");
}

#[test]
fn build_document_makes_one_page_per_frame_in_order() {
    let frames = vec![tiny_frame(8, 8), tiny_frame(16, 8), tiny_frame(8, 16)];
    let recognitions = vec![OcrFrameResult {
        frame_index: 1,
        words: vec![word("only", (0, 0, 8, 4), 9900)],
    }];
    let (pages, skipped) = build_document(&frames, &recognitions);
    assert_eq!(skipped.len(), 0);
    assert_eq!(pages.len(), 3);
    assert_eq!(pages[0].frame_index, 0);
    assert_eq!(pages[1].frame_index, 1);
    assert_eq!(pages[2].frame_index, 2);
    // orientation follows each frame's aspect ratio
    assert_eq!(pages[0].page_width, 595);
    assert_eq!(pages[1].page_width, 842);
    assert_eq!(pages[2].page_width, 595);
    // only the recognized frame carries text runs
    assert_eq!(pages[0].text_runs.len(), 0);
    assert_eq!(pages[1].text_runs.len(), 1);
    assert_eq!(pages[1].text_runs[0].text, "only");
    assert_eq!(pages[2].text_runs.len(), 0);
    // the embedded image is a JPEG stream, not the raw pixels
    for page in &pages {
        assert!(page.jpeg.len() >= 2);
        assert_eq!(page.jpeg[0], 0xFF);
        assert_eq!(page.jpeg[1], 0xD8);
    }
}

#[test]
fn frames_beyond_the_jpeg_size_limit_are_skipped() {
    // JPEG stores each dimension in 16 bits, so a 65536-wide frame cannot
    // be encoded; its page is dropped and its position recorded.
    let frames = vec![tiny_frame(8, 8), tiny_frame(65536, 1), tiny_frame(4, 4)];
    let (pages, skipped) = build_document(&frames, &vec![]);
    assert_eq!(skipped, vec![1]);
    assert_eq!(pages.len(), 2);
    assert_eq!(pages[0].frame_index, 0);
    assert_eq!(pages[1].frame_index, 2);
}

#[test]
fn later_recognition_entries_replace_earlier_ones() {
    let frames = vec![tiny_frame(8, 8)];
    let recognitions = vec![
        OcrFrameResult { frame_index: 0, words: vec![word("first", (0, 0, 4, 4), 9900)] },
        OcrFrameResult { frame_index: 0, words: vec![word("second", (0, 0, 4, 4), 9900)] },
    ];
    let (pages, _) = build_document(&frames, &recognitions);
    assert_eq!(pages[0].text_runs.len(), 1);
    assert_eq!(pages[0].text_runs[0].text, "second");
}
