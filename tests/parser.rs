use vidflow::parser::{parse_line, LineEvent};

fn progress(line: &str) -> (u64, u64, Option<u64>, Option<u64>) {
    match parse_line(line) {
        LineEvent::Progress(u) => (u.downloaded, u.total, u.speed, u.eta),
        other => panic!("expected progress, got {:?}", other),
    }
}

#[test]
fn destination_line_sets_path() {
    match parse_line("[download] Destination: /tmp/out.mp4\n") {
        LineEvent::SetDestination(p) => assert_eq!(p, "/tmp/out.mp4"),
        other => panic!("unexpected {:?}", other),
    }
}

#[test]
fn destination_line_without_path_is_ignored() {
    assert!(matches!(parse_line("[download] Destination:    "), LineEvent::Ignore));
}

#[test]
fn merger_line_strips_quotes() {
    match parse_line("[Merger] Merging formats into \"/tmp/out.mkv\"") {
        LineEvent::BeginMerging(Some(p)) => assert_eq!(p, "/tmp/out.mkv"),
        other => panic!("unexpected {:?}", other),
    }
}

#[test]
fn merger_line_without_path_still_merges() {
    assert!(matches!(parse_line("[Merger] Merging formats into \"\""), LineEvent::BeginMerging(None)));
}

#[test]
fn already_downloaded_line_sets_path() {
    match parse_line("[download] /tmp/clip.mp4 has already been downloaded") {
        LineEvent::SetDestination(p) => assert_eq!(p, "/tmp/clip.mp4"),
        other => panic!("unexpected {:?}", other),
    }
}

#[test]
fn progress_template_line() {
    assert_eq!(progress("1000|10000|500.0|18"), (1000, 10000, Some(500), Some(18)));
    assert_eq!(progress("5000|10000|750.7|7\n"), (5000, 10000, Some(750), Some(7)));
}

#[test]
fn progress_fields_are_trimmed() {
    assert_eq!(progress(" 12 | 40 | 3 | 9 "), (12, 40, Some(3), Some(9)));
}

#[test]
fn progress_not_available_fields() {
    assert_eq!(progress("NA|NA|NA|NA"), (0, 0, None, None));
    assert_eq!(progress("2048|NA|NA|NA"), (2048, 0, None, None));
    assert_eq!(progress("|||"), (0, 0, None, None));
}

#[test]
fn progress_decimal_speed_forms() {
    assert_eq!(progress("1|2|.5|3").2, Some(0));
    assert_eq!(progress("1|2|7.|3").2, Some(7));
    assert_eq!(progress("1|2|1e3|3").2, None);
    assert_eq!(progress("1|2|.|3").2, None);
}

#[test]
fn progress_number_too_large_reads_as_missing() {
    assert_eq!(progress("18446744073709551615|18446744073709551616|1|2").0, u64::MAX);
    assert_eq!(progress("18446744073709551615|18446744073709551616|1|2").1, 0);
}

#[test]
fn wrong_field_count_is_ignored() {
    assert!(matches!(parse_line("1|2|3"), LineEvent::Ignore));
    assert!(matches!(parse_line("1|2|3|4|5"), LineEvent::Ignore));
    assert!(matches!(parse_line("[youtube] abc: Downloading webpage"), LineEvent::Ignore));
    assert!(matches!(parse_line(""), LineEvent::Ignore));
}
