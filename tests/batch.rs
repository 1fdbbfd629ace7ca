use provision::batch::{Action, Batch, Command, InstallProgress, Invocation, OperationItem, Verb};
use provision::catalog::Package;
use provision::table::UpgradeablePackage;

fn package(id: &str) -> OperationItem {
    OperationItem { invocation: Invocation::Package(id.to_string()), post_install: None }
}

fn shell(cmd: &str, post: Option<&str>) -> OperationItem {
    OperationItem {
        invocation: Invocation::Shell(cmd.to_string()),
        post_install: post.map(|p| p.to_string()),
    }
}

fn missing() -> OperationItem {
    OperationItem { invocation: Invocation::Missing, post_install: None }
}

/// Drives a batch to the end. `outcome` decides how each run command ends,
/// given the index of the item under way and the command.
fn drive(
    batch: &mut Batch,
    outcome: &dyn Fn(usize, &Command) -> Result<(), String>,
) -> (Vec<InstallProgress>, Vec<Command>, Vec<u64>) {
    let mut events = Vec::new();
    let mut commands = Vec::new();
    let mut pauses = Vec::new();
    let mut current = 0usize;
    let mut last: Result<(), String> = Ok(());
    for _ in 0..1000 {
        let turn = batch.advance(last);
        for e in &turn.events {
            if let InstallProgress::Started { index } = e {
                current = *index;
            }
        }
        events.extend(turn.events);
        match turn.action {
            Action::Run(c) => {
                last = outcome(current, &c);
                commands.push(c);
            }
            Action::Pause(ms) => {
                pauses.push(ms);
                last = Ok(());
            }
            Action::Done => return (events, commands, pauses),
        }
    }
    panic!("batch did not finish");
}

fn started(events: &[InstallProgress]) -> Vec<usize> {
    events
        .iter()
        .filter_map(|e| match e {
            InstallProgress::Started { index } => Some(*index),
            _ => None,
        })
        .collect()
}

fn succeeded(events: &[InstallProgress]) -> Vec<usize> {
    events
        .iter()
        .filter_map(|e| match e {
            InstallProgress::Succeeded { index } => Some(*index),
            _ => None,
        })
        .collect()
}

fn failed(events: &[InstallProgress]) -> Vec<(usize, String)> {
    events
        .iter()
        .filter_map(|e| match e {
            InstallProgress::Failed { index, error } => Some((*index, error.clone())),
            _ => None,
        })
        .collect()
}

fn completions(events: &[InstallProgress]) -> usize {
    events.iter().filter(|e| matches!(e, InstallProgress::Completed)).count()
}

fn logs(events: &[InstallProgress]) -> Vec<String> {
    events
        .iter()
        .filter_map(|e| match e {
            InstallProgress::Log { line, .. } => Some(line.clone()),
            _ => None,
        })
        .collect()
}

#[test]
fn one_failing_item_does_not_stop_the_batch() {
    let n = 5;
    for k in 0..n {
        let items: Vec<OperationItem> = (0..n).map(|i| package(&format!("Pkg.{i}"))).collect();
        let mut batch = Batch::new(items, Verb::Install, false, vec![]);
        let (events, commands, _) = drive(&mut batch, &|i: usize, _: &Command| {
            if i == k {
                Err("Exit code: 1".to_string())
            } else {
                Ok(())
            }
        });
        assert_eq!(started(&events), (0..n).collect::<Vec<_>>());
        assert_eq!(failed(&events), vec![(k, "Exit code: 1".to_string())]);
        let expected: Vec<usize> = (0..n).filter(|i| *i != k).collect();
        assert_eq!(succeeded(&events), expected);
        assert_eq!(completions(&events), 1);
        assert!(matches!(events.last(), Some(InstallProgress::Completed)));
        assert_eq!(commands.len(), n);
    }
}

#[test]
fn item_without_install_method_fails_without_running() {
    let items = vec![package("A.A"), missing(), package("C.C")];
    let mut batch = Batch::new(items, Verb::Install, false, vec![]);
    let (events, commands, _) = drive(&mut batch, &|_: usize, _: &Command| Ok(()));
    assert_eq!(commands.len(), 2);
    assert_eq!(failed(&events), vec![(1, "No install method defined".to_string())]);
    assert_eq!(succeeded(&events), vec![0, 2]);
    assert_eq!(started(&events), vec![0, 1, 2]);
    assert!(matches!(events.last(), Some(InstallProgress::Completed)));
}

#[test]
fn each_item_ends_before_the_next_starts() {
    let items = vec![package("A.A"), package("B.B"), missing()];
    let mut batch = Batch::new(items, Verb::Upgrade, false, vec![]);
    let (events, _, _) = drive(&mut batch, &|i: usize, _: &Command| if i == 1 { Err("boom".to_string()) } else { Ok(()) });
    let mut open: Option<usize> = None;
    for e in &events {
        match e {
            InstallProgress::Started { index } => {
                assert!(open.is_none());
                open = Some(*index);
            }
            InstallProgress::Succeeded { index } | InstallProgress::Failed { index, .. } => {
                assert_eq!(open, Some(*index));
                open = None;
            }
            InstallProgress::Completed => assert!(open.is_none()),
            _ => {}
        }
    }
}

#[test]
fn install_command_line() {
    let items = vec![package("Git.Git")];
    let extra = vec!["--silent".to_string(), "--force".to_string()];
    let mut batch = Batch::new(items, Verb::Install, false, extra);
    let (_, commands, _) = drive(&mut batch, &|_: usize, _: &Command| Ok(()));
    assert_eq!(commands[0].program, "winget");
    assert_eq!(
        commands[0].args,
        vec![
            "install",
            "--id",
            "Git.Git",
            "-e",
            "--accept-package-agreements",
            "--accept-source-agreements",
            "--silent",
            "--force"
        ]
    );
}

#[test]
fn upgrade_command_line() {
    let items = vec![package("Mozilla.Firefox")];
    let mut batch = Batch::new(items, Verb::Upgrade, false, vec![]);
    let (_, commands, _) = drive(&mut batch, &|_: usize, _: &Command| Ok(()));
    assert_eq!(commands[0].program, "winget");
    assert_eq!(commands[0].args[0], "upgrade");
    assert_eq!(commands[0].args[2], "Mozilla.Firefox");
    assert_eq!(commands[0].args.len(), 6);
}

#[test]
fn custom_command_runs_through_the_shell() {
    let items = vec![shell("start https://example.com", None)];
    let mut batch = Batch::new(items, Verb::Install, false, vec!["--silent".to_string()]);
    let (_, commands, _) = drive(&mut batch, &|_: usize, _: &Command| Ok(()));
    assert_eq!(commands[0].program, "cmd");
    assert_eq!(commands[0].args, vec!["/C", "start https://example.com"]);
}

#[test]
fn post_install_failure_is_only_a_warning() {
    let items = vec![shell("setup.exe", Some("config.bat"))];
    let mut batch = Batch::new(items, Verb::Install, false, vec![]);
    let (events, commands, _) = drive(&mut batch, &|_: usize, c: &Command| {
        if c.args.get(1).map(|s| s.as_str()) == Some("config.bat") {
            Err("Exit code: 2".to_string())
        } else {
            Ok(())
        }
    });
    assert_eq!(commands.len(), 2);
    assert_eq!(commands[1].program, "cmd");
    assert_eq!(commands[1].args, vec!["/C", "config.bat"]);
    assert_eq!(
        logs(&events),
        vec!["Running post-install: config.bat", "Post-install warning: Exit code: 2"]
    );
    assert_eq!(succeeded(&events), vec![0]);
    assert!(failed(&events).is_empty());
}

#[test]
fn post_install_is_skipped_when_main_command_fails() {
    let items = vec![shell("setup.exe", Some("config.bat"))];
    let mut batch = Batch::new(items, Verb::Install, false, vec![]);
    let (events, commands, _) = drive(&mut batch, &|_: usize, _: &Command| Err("Failed to spawn: x".to_string()));
    assert_eq!(commands.len(), 1);
    assert_eq!(failed(&events), vec![(0, "Failed to spawn: x".to_string())]);
    assert!(logs(&events).is_empty());
}

#[test]
fn dry_run_never_fails() {
    let items = vec![
        package("Git.Git"),
        missing(),
        shell("echo hi", Some("echo post")),
    ];
    let mut batch = Batch::new(items, Verb::Install, true, vec![]);
    let (events, commands, pauses) = drive(&mut batch, &|_: usize, _: &Command| Err("never run".to_string()));
    assert!(commands.is_empty());
    assert_eq!(pauses, vec![150, 150, 150]);
    assert!(failed(&events).is_empty());
    assert_eq!(succeeded(&events), vec![0, 1, 2]);
    assert_eq!(started(&events), vec![0, 1, 2]);
    assert_eq!(completions(&events), 1);
    assert!(matches!(events.last(), Some(InstallProgress::Completed)));
    assert_eq!(
        logs(&events),
        vec![
            "[DRY RUN] Would run: winget install --id Git.Git -e",
            "[DRY RUN] Would run: No install method defined",
            "[DRY RUN] Would run: cmd /C echo hi",
            "[DRY RUN] Would run post-install: echo post",
        ]
    );
}

#[test]
fn dry_run_upgrade_line() {
    let mut batch = Batch::new(vec![package("Git.Git")], Verb::Upgrade, true, vec![]);
    let (events, _, _) = drive(&mut batch, &|_: usize, _: &Command| Ok(()));
    assert_eq!(logs(&events), vec!["[DRY RUN] Would run: winget upgrade --id Git.Git -e"]);
}

#[test]
fn empty_batch_only_completes() {
    let mut batch = Batch::new(vec![], Verb::Install, false, vec![]);
    let turn = batch.advance(Ok(()));
    assert_eq!(turn.events.len(), 1);
    assert!(matches!(turn.events[0], InstallProgress::Completed));
    assert!(matches!(turn.action, Action::Done));
    let again = batch.advance(Ok(()));
    assert!(again.events.is_empty());
    assert!(matches!(again.action, Action::Done));
}

#[test]
fn install_all_runs_catalog_packages() {
    let p = Package {
        id: "git".to_string(),
        name: "Git".to_string(),
        description: String::new(),
        category: "development".to_string(),
        winget_id: Some("Git.Git".to_string()),
        profiles: vec![],
        post_install: Some("git config --global init.defaultBranch main".to_string()),
        install_command: None,
        name_lower: String::new(),
        desc_lower: String::new(),
        winget_id_lower: None,
    };
    let mut batch = provision::batch::install_all(&[p], false, vec![]);
    let (events, commands, _) = drive(&mut batch, &|_: usize, _: &Command| Ok(()));
    assert_eq!(commands[0].args[..3], ["install", "--id", "Git.Git"]);
    assert_eq!(commands[1].args, vec!["/C", "git config --global init.defaultBranch main"]);
    assert_eq!(succeeded(&events), vec![0]);
}

#[test]
fn upgrade_all_runs_upgrades() {
    let u = UpgradeablePackage {
        name: "Git".to_string(),
        winget_id: "Git.Git".to_string(),
        current_version: "2.46.0".to_string(),
        available_version: "2.47.0".to_string(),
        source: "winget".to_string(),
    };
    let mut batch = provision::batch::upgrade_all(&[u], false, vec!["--silent".to_string()]);
    let (events, commands, _) = drive(&mut batch, &|_: usize, _: &Command| Err("Exit code: 5".to_string()));
    assert_eq!(
        commands[0].args,
        vec![
            "upgrade",
            "--id",
            "Git.Git",
            "-e",
            "--accept-package-agreements",
            "--accept-source-agreements",
            "--silent"
        ]
    );
    assert_eq!(failed(&events), vec![(0, "Exit code: 5".to_string())]);
}

#[test]
fn dry_run_event_list_with_post_install() {
    let item = OperationItem {
        invocation: Invocation::Package("Git.Git".to_string()),
        post_install: Some("git lfs install".to_string()),
    };
    let mut batch = Batch::new(vec![item], Verb::Install, true, vec![]);
    let (events, commands, _) = drive(&mut batch, &|_: usize, _: &Command| Ok(()));
    assert!(commands.is_empty());
    let shown: Vec<String> = events.iter().map(|e| format!("{e:?}")).collect();
    assert_eq!(
        shown,
        vec![
            "Started { index: 0 }",
            "Log { index: 0, line: \"[DRY RUN] Would run: winget install --id Git.Git -e\" }",
            "Log { index: 0, line: \"[DRY RUN] Would run post-install: git lfs install\" }",
            "Succeeded { index: 0 }",
            "Completed",
        ]
    );
}
