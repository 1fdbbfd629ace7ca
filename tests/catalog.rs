use provision::batch::Invocation;
use provision::catalog::{
    categories, category_display_name, default_selection, prepare_packages, toggle_set,
    CatalogSource, Package,
};
use provision::profile::Profile;
use provision::table::{InstalledPackage, UpgradeablePackage};

fn pkg(id: &str, category: &str, profiles: &[&str]) -> Package {
    Package {
        id: id.to_string(),
        name: id.to_uppercase(),
        description: format!("About {id}"),
        category: category.to_string(),
        winget_id: Some(format!("Vendor.{id}")),
        profiles: profiles.iter().map(|s| s.to_string()).collect(),
        post_install: None,
        install_command: None,
        name_lower: String::new(),
        desc_lower: String::new(),
        winget_id_lower: None,
    }
}

#[test]
fn label_suffixes() {
    assert_eq!(CatalogSource::Embedded.label_suffix(), Some("built-in"));
    assert_eq!(CatalogSource::Cached.label_suffix(), None);
    assert_eq!(CatalogSource::Remote.label_suffix(), Some("updated"));
}

#[test]
fn browser_downloads() {
    let mut p = pkg("chrome", "browsers", &[]);
    assert!(!p.is_browser_download());
    p.install_command = Some("start https://example.com/download".to_string());
    assert!(p.is_browser_download());
    p.install_command = Some("powershell start http".to_string());
    assert!(!p.is_browser_download());
}

#[test]
fn lowercase_fields_are_filled() {
    let mut v = vec![pkg("Firefox", "browsers", &[])];
    v[0].description = "Fast BROWSER".to_string();
    v.push(pkg("Tool", "utilities", &[]));
    v[1].winget_id = None;
    prepare_packages(&mut v);
    assert_eq!(v[0].name_lower, "firefox");
    assert_eq!(v[0].desc_lower, "fast browser");
    assert_eq!(v[0].winget_id_lower.as_deref(), Some("vendor.firefox"));
    assert_eq!(v[0].name, "FIREFOX");
    assert_eq!(v[1].winget_id_lower, None);
}

#[test]
fn profile_preselection_keeps_catalog_order() {
    let catalog = vec![
        pkg("a", "x", &["work", "personal"]),
        pkg("b", "x", &["homelab"]),
        pkg("c", "y", &["personal"]),
    ];
    assert_eq!(default_selection(&catalog, Profile::Personal), vec!["a", "c"]);
    assert_eq!(default_selection(&catalog, Profile::Homelab), vec!["b"]);
    assert!(default_selection(&catalog, Profile::Manual).is_empty());
}

#[test]
fn categories_are_unique_in_first_seen_order() {
    let catalog = vec![
        pkg("a", "utilities", &[]),
        pkg("b", "browsers", &[]),
        pkg("c", "utilities", &[]),
        pkg("d", "games", &[]),
    ];
    assert_eq!(categories(&catalog), vec!["utilities", "browsers", "games"]);
    assert!(categories(&[]).is_empty());
}

#[test]
fn category_names() {
    assert_eq!(category_display_name("browsers"), "Browsers");
    assert_eq!(category_display_name("microsoft-tools"), "Microsoft Tools");
    assert_eq!(category_display_name("security-privacy"), "Security & Privacy");
    assert_eq!(category_display_name("design"), "Design");
    assert_eq!(category_display_name("something-else"), "something-else");
}

#[test]
fn toggle_selects_missing_ids() {
    let mut set = vec!["a".to_string()];
    toggle_set(&mut set, vec!["a".to_string(), "b".to_string(), "c".to_string()]);
    let mut sorted = set.clone();
    sorted.sort();
    assert_eq!(sorted, vec!["a", "b", "c"]);
}

#[test]
fn toggle_deselects_when_all_selected() {
    let mut set = vec!["a".to_string(), "b".to_string(), "z".to_string()];
    toggle_set(&mut set, vec!["a".to_string(), "b".to_string()]);
    assert_eq!(set, vec!["z"]);
}

#[test]
fn install_item_prefers_custom_command() {
    let mut p = pkg("tool", "x", &[]);
    p.install_command = Some("setup.exe /S".to_string());
    p.post_install = Some("config.bat".to_string());
    let item = p.install_item();
    assert!(matches!(&item.invocation, Invocation::Shell(c) if c == "setup.exe /S"));
    assert_eq!(item.post_install.as_deref(), Some("config.bat"));
    p.install_command = None;
    assert!(matches!(&p.install_item().invocation, Invocation::Package(id) if id == "Vendor.tool"));
    p.winget_id = None;
    assert!(matches!(p.install_item().invocation, Invocation::Missing));
}

#[test]
fn upgrade_item_uses_identifier() {
    let u = UpgradeablePackage {
        name: "Git".to_string(),
        winget_id: "Git.Git".to_string(),
        current_version: "2.46.0".to_string(),
        available_version: "2.47.0".to_string(),
        source: "winget".to_string(),
    };
    let item = u.upgrade_item();
    assert!(matches!(&item.invocation, Invocation::Package(id) if id == "Git.Git"));
    assert!(item.post_install.is_none());
}

#[test]
fn profile_texts() {
    assert_eq!(Profile::Personal.title(), "Personal");
    assert_eq!(Profile::Homelab.slug(), "homelab");
    assert_eq!(Profile::Work.description(), "Dev tools, communication, and productivity apps");
    assert_eq!(
        Profile::Manual.description(),
        "Start from scratch \u{2014} pick exactly what you want"
    );
}

#[test]
fn installed_packages_are_recognised() {
    let mut v = vec![pkg("Firefox", "browsers", &[]), pkg("Tool", "utilities", &[])];
    v[1].winget_id = None;
    prepare_packages(&mut v);
    let scan = vec![InstalledPackage { winget_id: "vendor.firefox".to_string(), version: "131.0".to_string() }];
    assert!(provision::catalog::is_installed(&v[0], &scan));
    assert!(!provision::catalog::is_installed(&v[1], &scan));
    assert!(!provision::catalog::is_installed(&v[0], &[]));
}
