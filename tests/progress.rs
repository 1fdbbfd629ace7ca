use provision::batch::InstallProgress;
use provision::progress::{PackageStatus, ProgressState, LOG_CAP};

fn names() -> Vec<String> {
    vec!["Git".to_string(), "Firefox".to_string()]
}

#[test]
fn lifecycle_updates_statuses_and_log() {
    let mut p = ProgressState::new();
    p.start(2);
    assert!(p.statuses.iter().all(|s| matches!(s, PackageStatus::Pending)));
    let n = names();
    p.handle_event(&InstallProgress::Started { index: 0 }, "Installing", &n);
    assert!(matches!(p.statuses[0], PackageStatus::Installing));
    p.handle_event(&InstallProgress::Activity { index: 0, line: "50%".to_string() }, "Installing", &n);
    assert_eq!(p.live_line, "50%");
    p.handle_event(&InstallProgress::Log { index: 0, line: "done".to_string() }, "Installing", &n);
    assert_eq!(p.live_line, "");
    p.handle_event(&InstallProgress::Succeeded { index: 0 }, "Installing", &n);
    p.handle_event(&InstallProgress::Started { index: 1 }, "Installing", &n);
    assert_eq!(p.current, 1);
    p.handle_event(&InstallProgress::Failed { index: 1, error: "Exit code: 1".to_string() }, "Installing", &n);
    p.handle_event(&InstallProgress::Completed, "Installing", &n);
    assert!(p.done);
    assert_eq!(p.log, vec!["--- Installing Git ---", "done", "", "--- Installing Firefox ---"]);
    assert!(matches!(p.statuses[0], PackageStatus::Done));
    assert!(matches!(&p.statuses[1], PackageStatus::Failed(e) if e == "Exit code: 1"));
    assert_eq!(p.status_counts(), (1, 1, 0));
}

#[test]
fn unknown_index_uses_placeholder_name() {
    let mut p = ProgressState::new();
    p.start(0);
    p.handle_event(&InstallProgress::Started { index: 0 }, "Upgrading", &[]);
    assert_eq!(p.log, vec!["--- Upgrading ... ---"]);
}

#[test]
fn log_is_capped() {
    let mut p = ProgressState::new();
    p.start(1);
    for i in 0..(LOG_CAP + 25) {
        p.handle_event(&InstallProgress::Log { index: 0, line: format!("line {i}") }, "Installing", &[]);
    }
    assert_eq!(p.log.len(), LOG_CAP);
    assert_eq!(p.log[0], "line 25");
    assert_eq!(p.log[LOG_CAP - 1], format!("line {}", LOG_CAP + 24));
}

#[test]
fn cancel_marks_unfinished_items() {
    let mut p = ProgressState::new();
    p.start(3);
    let n = names();
    p.handle_event(&InstallProgress::Started { index: 0 }, "Installing", &n);
    p.handle_event(&InstallProgress::Succeeded { index: 0 }, "Installing", &n);
    p.handle_event(&InstallProgress::Started { index: 1 }, "Installing", &n);
    p.cancel("Installation");
    assert!(matches!(p.statuses[0], PackageStatus::Done));
    assert!(matches!(p.statuses[1], PackageStatus::Cancelled));
    assert!(matches!(p.statuses[2], PackageStatus::Cancelled));
    assert!(p.done);
    assert_eq!(p.log.last().unwrap(), "--- Installation cancelled ---");
    assert_eq!(p.status_counts(), (1, 0, 2));
}

#[test]
fn statuses_only_move_forward() {
    let mut p = ProgressState::new();
    p.start(2);
    let n = names();
    p.handle_event(&InstallProgress::Started { index: 0 }, "Installing", &n);
    p.handle_event(&InstallProgress::Succeeded { index: 0 }, "Installing", &n);
    p.handle_event(&InstallProgress::Started { index: 0 }, "Installing", &n);
    assert!(matches!(p.statuses[0], PackageStatus::Done));
    p.cancel("Installation");
    p.handle_event(&InstallProgress::Succeeded { index: 1 }, "Installing", &n);
    assert!(matches!(p.statuses[1], PackageStatus::Cancelled));
    p.handle_event(&InstallProgress::Failed { index: 0, error: "x".to_string() }, "Installing", &n);
    assert!(matches!(p.statuses[0], PackageStatus::Done));
}
