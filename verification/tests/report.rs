use videodocparser::frame_analyzer::FrameAnalyzer;
use videodocparser::report::{render_analysis_report, render_report, render_u64_list, u64_to_string};

#[test]
fn numbers_are_spelled_in_decimal() {
    assert_eq!(u64_to_string(0), "0");
    assert_eq!(u64_to_string(7), "7");
    assert_eq!(u64_to_string(10), "10");
    assert_eq!(u64_to_string(1234567890), "1234567890");
    assert_eq!(u64_to_string(u64::MAX), "18446744073709551615");
}

#[test]
fn lists_are_bracketed_and_comma_separated() {
    assert_eq!(render_u64_list(&vec![]), "[]");
    assert_eq!(render_u64_list(&vec![5]), "[5]");
    assert_eq!(render_u64_list(&vec![1, 2, 30]), "[1,2,30]");
}

#[test]
fn report_has_the_documented_shape() {
    let removed: Vec<u64> = vec![1, 2, 9];
    let differences: Vec<u64> = vec![0, 0, 3, 40];
    let s = render_report(5, &removed, 2, &differences);
    assert_eq!(
        s,
        "{\"total_frames\":5,\"removed\":3,\"kept\":2,\"removed_indices\":[1,2,9],\"differences\":[0,0,3,40]}"
    );
}

#[test]
fn empty_analysis_reports_all_counts_zero() {
    let analyzer = FrameAnalyzer::new(900_000).unwrap();
    let result = analyzer.finish();
    let s = render_analysis_report(&result);
    assert_eq!(
        s,
        "{\"total_frames\":0,\"removed\":0,\"kept\":0,\"removed_indices\":[],\"differences\":[]}"
    );
}
