use provision::settings::{
    Architecture, InstallMode, InstallScope, OptionalArchitecture, OptionalScope, SettingsTab,
    WingetSettings,
};

#[test]
fn default_settings_give_silent_only() {
    let s = WingetSettings::default();
    assert!(s.include_unknown);
    assert_eq!(s.install_args(), vec!["--silent"]);
    assert_eq!(SettingsTab::default(), SettingsTab::Winget);
}

#[test]
fn every_setting_adds_its_flags_in_order() {
    let s = WingetSettings {
        install_mode: InstallMode::Interactive,
        scope: Some(InstallScope::Machine),
        architecture: Some(Architecture::Arm64),
        force: true,
        include_unknown: false,
        ignore_security_hash: true,
        disable_interactivity: true,
        install_location: "D:\\Apps".to_string(),
    };
    assert_eq!(
        s.install_args(),
        vec![
            "--interactive",
            "--scope",
            "machine",
            "--architecture",
            "arm64",
            "--force",
            "--ignore-security-hash",
            "--disable-interactivity",
            "--location",
            "D:\\Apps"
        ]
    );
}

#[test]
fn user_scope_flag() {
    let mut s = WingetSettings::default();
    s.scope = Some(InstallScope::User);
    s.architecture = Some(Architecture::X86);
    assert_eq!(s.install_args(), vec!["--silent", "--scope", "user", "--architecture", "x86"]);
}

#[test]
fn labels() {
    assert_eq!(InstallMode::Silent.label(), "Silent");
    assert_eq!(InstallScope::User.label(), "User");
    assert_eq!(OptionalScope(None).label(), "Default");
    assert_eq!(OptionalScope(Some(InstallScope::Machine)).label(), "Machine");
    assert_eq!(OptionalArchitecture(None).label(), "Default");
    assert_eq!(OptionalArchitecture(Some(Architecture::X64)).label(), "x64");
}
