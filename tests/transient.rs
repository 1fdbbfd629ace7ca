use provision::runner::progress_for_line;
use provision::batch::InstallProgress;
use provision::classify::LineEvent;
use provision::transient::is_transient;

#[test]
fn spinner_glyphs_are_transient() {
    for s in ["\\", "|", "/", "-", "_", "\\|", "--", "/_"] {
        assert!(is_transient(s), "{s:?} should be transient");
    }
}

#[test]
fn longer_dash_lines_are_not_spinners() {
    assert!(!is_transient("---"));
    assert!(!is_transient("-a"));
}

#[test]
fn bare_percentages_are_transient() {
    assert!(is_transient("28%"));
    assert!(is_transient("100%"));
    assert!(is_transient("0%"));
    assert!(is_transient("%"));
}

#[test]
fn percentages_with_text_are_not_transient() {
    assert!(!is_transient("28% done"));
    assert!(!is_transient("a28%"));
    assert!(!is_transient("2%8%"));
}

#[test]
fn download_counters_are_transient() {
    assert!(is_transient("1024 KB / 48.2 MB"));
    assert!(is_transient("3 MB / 10 MB"));
    assert!(is_transient("1.2 GB / 4 GB"));
}

#[test]
fn download_counter_needs_leading_digit() {
    assert!(!is_transient("Got 1024 KB / 48.2 MB"));
}

#[test]
fn progress_bar_blocks_are_transient() {
    assert!(is_transient("\u{2588}\u{2588}\u{2588}\u{2591}\u{2591}  60%"));
    assert!(is_transient("downloading \u{2592}"));
    assert!(is_transient("\u{2593}"));
}

#[test]
fn status_lines_are_never_transient() {
    assert!(!is_transient("Successfully installed"));
    assert!(!is_transient("Found Mozilla Firefox [Mozilla.Firefox] Version 131.0"));
    assert!(!is_transient("Starting package install..."));
    assert!(!is_transient("OK"));
}

#[test]
fn transient_log_lines_become_activity() {
    match progress_for_line(3, LineEvent::Log("42%".to_string())) {
        InstallProgress::Activity { index, line } => {
            assert_eq!(index, 3);
            assert_eq!(line, "42%");
        }
        other => panic!("unexpected {other:?}"),
    }
}

#[test]
fn plain_log_lines_stay_log() {
    match progress_for_line(1, LineEvent::Log("Successfully installed".to_string())) {
        InstallProgress::Log { index, line } => {
            assert_eq!(index, 1);
            assert_eq!(line, "Successfully installed");
        }
        other => panic!("unexpected {other:?}"),
    }
}

#[test]
fn activity_lines_stay_activity() {
    match progress_for_line(0, LineEvent::Activity("Downloading".to_string())) {
        InstallProgress::Activity { index, line } => {
            assert_eq!(index, 0);
            assert_eq!(line, "Downloading");
        }
        other => panic!("unexpected {other:?}"),
    }
}
