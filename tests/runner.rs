use provision::classify::LineEvent;
use provision::runner::{
    collect_finalized, exit_result, installed_scan_progress, upgrade_scan_args,
    upgrade_scan_progress, InstalledScanProgress, ScanProgress,
};

#[test]
fn zero_exit_is_success() {
    assert!(exit_result(true, Some(0)).is_ok());
}

#[test]
fn failed_exit_reports_the_code() {
    assert_eq!(exit_result(false, Some(1)).unwrap_err(), "Exit code: 1");
    assert_eq!(exit_result(false, Some(2316632107u32 as i32)).unwrap_err(), "Exit code: -1978335189");
}

#[test]
fn missing_exit_code_reports_minus_one() {
    assert_eq!(exit_result(false, None).unwrap_err(), "Exit code: -1");
}

#[test]
fn upgrade_scan_arguments() {
    assert_eq!(upgrade_scan_args(true), vec!["upgrade", "--include-unknown"]);
    assert_eq!(upgrade_scan_args(false), vec!["upgrade"]);
}

#[test]
fn only_finalized_lines_are_collected() {
    let mut lines = vec!["earlier".to_string()];
    let events = vec![
        LineEvent::Log("Name Id Version".to_string()),
        LineEvent::Activity("50%".to_string()),
        LineEvent::Log("row".to_string()),
    ];
    collect_finalized(&mut lines, &events);
    assert_eq!(lines, vec!["earlier", "Name Id Version", "row"]);
}

#[test]
fn scan_lines_map_to_progress() {
    match upgrade_scan_progress(LineEvent::Log("a".to_string())) {
        ScanProgress::Log { line } => assert_eq!(line, "a"),
        other => panic!("unexpected {other:?}"),
    }
    match upgrade_scan_progress(LineEvent::Activity("b".to_string())) {
        ScanProgress::Activity { line } => assert_eq!(line, "b"),
        other => panic!("unexpected {other:?}"),
    }
    match installed_scan_progress(LineEvent::Log("c".to_string())) {
        InstalledScanProgress::Activity { line } => assert_eq!(line, "c"),
        other => panic!("unexpected {other:?}"),
    }
}

#[test]
fn exit_codes_in_decimal() {
    assert_eq!(exit_result(false, Some(0)).unwrap_err(), "Exit code: 0");
    assert_eq!(exit_result(false, Some(10)).unwrap_err(), "Exit code: 10");
    assert_eq!(exit_result(false, Some(i32::MAX)).unwrap_err(), "Exit code: 2147483647");
    assert_eq!(exit_result(false, Some(i32::MIN)).unwrap_err(), "Exit code: -2147483648");
}
