use videodocparser::ocr::{clean_words, OcrWord};
use videodocparser::video_processor::{frame_count_from_metadata, pack_frame_rows};

#[test]
fn packing_drops_the_row_padding() {
    // two rows of a 2-pixel-wide frame, 8 bytes of stride each
    let data: Vec<u8> = vec![
        1, 2, 3, 4, 5, 6, 90, 91, // row 0: 6 pixel bytes + 2 padding
        7, 8, 9, 10, 11, 12, 92, 93, // row 1
    ];
    let packed = pack_frame_rows(&data, 2, 2, 8).unwrap();
    assert_eq!(packed, vec![1, 2, 3, 4, 5, 6, 7, 8, 9, 10, 11, 12]);
}

#[test]
fn packing_without_padding_is_the_identity() {
    let data: Vec<u8> = vec![1, 2, 3, 4, 5, 6];
    let packed = pack_frame_rows(&data, 1, 2, 3).unwrap();
    assert_eq!(packed, data);
}

#[test]
fn packing_rejects_bad_strides_and_short_buffers() {
    let data: Vec<u8> = vec![0; 16];
    assert!(pack_frame_rows(&data, 2, 2, 0).is_none());
    assert!(pack_frame_rows(&data, 2, 3, 8).is_none());
    assert!(pack_frame_rows(&data, 6, 1, 16).is_none());
}

#[test]
fn container_frame_count_wins_when_present() {
    assert_eq!(frame_count_from_metadata(100, 0, 0, 0), Some(100));
    assert_eq!(frame_count_from_metadata(100, 2_000_000, 30, 1), Some(100));
}

#[test]
fn frame_count_falls_back_to_duration_times_rate() {
    // 2 s at 30/1 fps
    assert_eq!(frame_count_from_metadata(0, 2_000_000, 30, 1), Some(60));
    // 1.5 s at 1/1 fps rounds half up
    assert_eq!(frame_count_from_metadata(0, 1_500_000, 1, 1), Some(2));
    // 29.97 fps: 10 s * 30000/1001 = 299.7 -> 300
    assert_eq!(frame_count_from_metadata(0, 10_000_000, 30000, 1001), Some(300));
}

#[test]
fn frame_count_is_unknown_without_usable_metadata() {
    assert_eq!(frame_count_from_metadata(0, 0, 30, 1), None);
    assert_eq!(frame_count_from_metadata(-5, 1_000_000, 0, 1), None);
    assert_eq!(frame_count_from_metadata(0, 1_000_000, 30, 0), None);
}

#[test]
fn empty_recognized_words_are_dropped() {
    let words = vec![
        OcrWord { text: "keep".to_string(), bbox: (0, 0, 1, 1), confidence: 9000 },
        OcrWord { text: "".to_string(), bbox: (0, 0, 1, 1), confidence: 9000 },
        OcrWord { text: "also".to_string(), bbox: (2, 2, 3, 3), confidence: 100 },
    ];
    let cleaned = clean_words(words);
    assert_eq!(cleaned.len(), 2);
    assert_eq!(cleaned[0].text, "keep");
    assert_eq!(cleaned[1].text, "also");
}
