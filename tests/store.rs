use rnm::error::{IoKind, RnmError};
use rnm::install::{layout_outcome, InstallStep, StepOutcome};
use rnm::store::{Manager, StoreEntry};

fn manager() -> Manager {
    Manager::with_home(Some("/home/ann"), None, true).unwrap()
}

fn entry(name: &str, is_dir: bool) -> StoreEntry {
    StoreEntry { name: name.to_string(), is_dir }
}

fn strings(v: &[&str]) -> Vec<String> {
    v.iter().map(|s| s.to_string()).collect()
}

#[test]
fn store_paths() {
    let m = manager();
    assert_eq!(m.versions_dir(), "/home/ann/.rnm/versions");
    assert_eq!(m.original_user(), None);
    assert_eq!(Manager::version_dir_name("v18.15.0"), "node-v18.15.0");
    assert_eq!(Manager::version_dir_name("18.15.0"), "node-v18.15.0");
    assert_eq!(m.version_path("vv20.0.0"), "/home/ann/.rnm/versions/node-v20.0.0");
    let slash = Manager::with_home(Some("/root/"), None, true).unwrap();
    assert_eq!(slash.versions_dir(), "/root/.rnm/versions");
}

#[test]
fn delegated_store_on_unix() {
    let m = Manager::with_home(Some("/root"), Some("bob"), true).unwrap();
    assert_eq!(m.versions_dir(), "/home/bob/.rnm/versions");
    assert_eq!(m.original_user(), Some("bob".to_string()));
    let w = Manager::with_home(Some("/root"), Some("bob"), false).unwrap();
    assert_eq!(w.versions_dir(), "/root/.rnm/versions");
}

#[test]
fn missing_home_is_an_error() {
    assert!(matches!(Manager::with_home(None, None, true), Err(RnmError::HomeDirError(_))));
}

#[test]
fn list_local_filters_and_sorts() {
    let entries = vec![
        entry("node-v18.15.0", true),
        entry("node-v16.0.0", true),
        entry("node-v20.1.2", false),
        entry("tmp", true),
        entry("node-v10.0.0", true),
        entry("node-vfoo", true),
        entry("node-v18.x", true),
        entry("node-v", true),
    ];
    assert_eq!(manager().list_local(&entries), strings(&["10.0.0", "16.0.0", "18.15.0"]));
    assert!(manager().list_local(&vec![]).is_empty());
}

#[test]
fn uninstall_never_installed_fails() {
    assert_eq!(manager().uninstall("v9.9.9", false), Err(RnmError::NotInstalled("v9.9.9".to_string())));
}

#[test]
fn uninstall_then_list_omits_version() {
    let m = manager();
    let path = m.uninstall("18.15.0", true).unwrap();
    assert_eq!(path, "/home/ann/.rnm/versions/node-v18.15.0");
    let entries = vec![entry("node-v16.0.0", true), entry("node-v18.15.0", true)];
    let remaining: Vec<StoreEntry> = entries.into_iter().filter(|e| e.name != "node-v18.15.0").collect();
    assert_eq!(m.list_local(&remaining), strings(&["16.0.0"]));
}

#[test]
fn use_version_plans_three_links() {
    let m = manager();
    let links = m.use_version("v18.15.0", &strings(&["16.0.0", "18.15.0"]), true, true, true).unwrap();
    let pairs: Vec<(String, String)> = links.into_iter().map(|l| (l.path, l.target)).collect();
    assert_eq!(
        pairs,
        vec![
            ("/usr/local/bin/node".to_string(), "/home/ann/.rnm/versions/node-v18.15.0/bin/node".to_string()),
            ("/usr/local/bin/npm".to_string(), "/home/ann/.rnm/versions/node-v18.15.0/bin/npm".to_string()),
            ("/usr/local/bin/npx".to_string(), "/home/ann/.rnm/versions/node-v18.15.0/bin/npx".to_string()),
        ]
    );
}

#[test]
fn use_version_failures() {
    let m = manager();
    let installed = strings(&["16.0.0"]);
    assert_eq!(m.use_version("18.0.0", &installed, false, true, true), Err(RnmError::NotInstalled("18.0.0".to_string())));
    assert_eq!(m.use_version("16.0.0", &installed, false, true, true), Err(RnmError::NotInstalled("16.0.0".to_string())));
    assert_eq!(m.use_version("v16.0.0", &installed, true, false, true), Err(RnmError::InvalidNodeVersion("16.0.0".to_string())));
    assert!(matches!(
        m.use_version("16.0.0", &installed, true, true, false),
        Err(RnmError::FileIoError(IoKind::PermissionDenied, _))
    ));
}

#[test]
fn activate_then_current() {
    let m = manager();
    let links = m.use_version("v20.1.2", &strings(&["20.1.2"]), true, true, true).unwrap();
    assert_eq!(m.current(true, Some(links[0].target.as_str())), Some("20.1.2".to_string()));
}

#[test]
fn current_is_none_for_absent_outside_or_dangling() {
    let m = manager();
    assert_eq!(m.current(false, None), None);
    assert_eq!(m.current(true, None), None);
    assert_eq!(m.current(true, Some("/opt/node/bin/node")), None);
    assert_eq!(m.current(false, Some("/home/ann/.rnm/versions/node-v18.0.0/bin/node")), None);
    assert_eq!(m.current(true, Some("/home/ann/.rnm/versions")), None);
    assert_eq!(m.current(true, Some("/home/ann/.rnm/versions/other/bin/node")), None);
    assert_eq!(m.current(true, Some("/x/home/ann/.rnm/versions/node-v1.0.0/bin/node")), None);
    assert_eq!(m.current(true, Some("/home/ann/.rnm/versionsX/node-v1.0.0/bin/node")), None);
    assert_eq!(m.current(true, Some("/home/ann/.rnm/versions/node-v1.0.0")), Some("1.0.0".to_string()));
}

#[test]
fn install_twice_is_already_installed() {
    let m = manager();
    let first = m.install("v18.15.0", false, "linux", "x86_64").unwrap();
    assert_eq!(first.step, InstallStep::Download);
    assert_eq!(first.plan.version, "18.15.0");
    assert_eq!(first.plan.filename, "node-v18.15.0-linux-x64.tar.gz");
    assert_eq!(first.plan.url, "https://nodejs.org/dist/v18.15.0/node-v18.15.0-linux-x64.tar.gz");
    assert_eq!(first.plan.extracted_dir, "node-v18.15.0-linux-x64");
    assert_eq!(first.plan.version_path, "/home/ann/.rnm/versions/node-v18.15.0");
    assert_eq!(m.install("v18.15.0", true, "linux", "x86_64").err(), Some(RnmError::AlreadyInstalled("18.15.0".to_string())));
}

#[test]
fn install_on_windows_uses_zip() {
    let i = manager().install("20.0.0", false, "windows", "aarch64").unwrap();
    assert_eq!(i.plan.filename, "node-v20.0.0-win-arm64.zip");
    assert_eq!(
        manager().install("20.0.0", false, "freebsd", "x86_64").err(),
        Some(RnmError::UnsupportedPlatform("freebsd".to_string(), "x64".to_string()))
    );
}

#[test]
fn install_steps_to_installed() {
    let mut i = manager().install("18.0.0", false, "linux", "x86_64").unwrap();
    let expected = [InstallStep::Extract, InstallStep::CheckLayout, InstallStep::Commit, InstallStep::Cleanup];
    for step in expected {
        i.advance(StepOutcome::Succeeded);
        assert_eq!(i.step, step);
    }
    i.advance(StepOutcome::Failed(RnmError::FileIoError(IoKind::Other, "busy".to_string())));
    assert_eq!(i.step, InstallStep::Installed);
    assert!(i.is_finished());
}

#[test]
fn failure_before_commit_stops_install() {
    let mut i = manager().install("18.0.0", false, "linux", "x86_64").unwrap();
    i.advance(StepOutcome::Succeeded);
    i.advance(StepOutcome::Succeeded);
    let outcome = layout_outcome(false, "/tmp/x/node-v18.0.0-linux-x64");
    assert!(matches!(outcome, StepOutcome::Failed(RnmError::FileIoError(IoKind::NotFound, _))));
    i.advance(outcome);
    assert!(matches!(i.step, InstallStep::Failed(_)));
    i.advance(StepOutcome::Succeeded);
    assert!(matches!(i.step, InstallStep::Failed(_)));
    assert_eq!(layout_outcome(true, "x"), StepOutcome::Succeeded);
}
