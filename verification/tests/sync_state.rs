use xtask::baselines::SkillFile;
use xtask::issues::{IssuePlan, OpenIssue, SyncAction, created_issue_message, decide_sync, github_api_url, plan_sync_issue};
use xtask::sync::{ChannelManifest, ManifestPackage, RustSyncState, SyncStateError, build_sync_state};

fn state(latest_full: &str, latest_minor: &str, baseline: Option<&str>) -> RustSyncState {
    RustSyncState {
        latest_full: latest_full.to_owned(),
        latest_minor: latest_minor.parse().unwrap(),
        manifest_date: "2026-08-20".to_owned(),
        tracked_minor: baseline.map(|t| t.parse().unwrap()),
        tracked_files: vec!["skills/rust-test/SKILL.md".to_owned()],
    }
}

#[test]
fn detects_when_sync_issue_is_needed() {
    let state = RustSyncState {
        latest_full: "1.98.0".to_owned(),
        latest_minor: "1.98".parse().unwrap(),
        manifest_date: "2026-08-20".to_owned(),
        tracked_minor: Some("1.97".parse().unwrap()),
        tracked_files: vec!["skills/rust-test/SKILL.md".to_owned()],
    };

    assert!(state.should_open_issue());
    assert_eq!(state.issue_title(), "sync skills: rust 1.98");
}

#[test]
fn patch_release_does_not_require_sync_issue() {
    let state = RustSyncState {
        latest_full: "1.97.1".to_owned(),
        latest_minor: "1.97.1".parse().unwrap(),
        manifest_date: "2026-07-16".to_owned(),
        tracked_minor: Some("1.97".parse().unwrap()),
        tracked_files: vec!["skills/rust-test/SKILL.md".to_owned()],
    };

    assert!(!state.should_open_issue());
}

#[test]
fn no_tracked_baseline_needs_no_issue() {
    assert!(!state("1.98.0", "1.98", None).should_open_issue());
    assert!(!state("1.96.0", "1.96", Some("1.97")).should_open_issue());
    assert!(state("2.0.0", "2.0", Some("1.97")).should_open_issue());
}

fn manifest(version: Option<&str>, date: Option<&str>) -> ChannelManifest {
    let mut pkg = vec![ManifestPackage { name: "cargo".to_owned(), version: "0.99.0".to_owned() }];
    if let Some(version) = version {
        pkg.push(ManifestPackage { name: "rust".to_owned(), version: version.to_owned() });
    }
    ChannelManifest { date: date.map(str::to_owned), pkg }
}

fn skill_file(path: &str, text: &str) -> SkillFile {
    SkillFile { path: path.to_owned(), text: text.to_owned() }
}

#[test]
fn builds_sync_state_from_manifest_and_skills() {
    let files = vec![
        skill_file("skills/a.md", "Assume Rust 1.96 stable."),
        skill_file("skills/b.md", "Assume Rust 1.97 stable."),
        skill_file("skills/c.md", "rust 1.97.2 is fine"),
    ];
    let state = build_sync_state(&manifest(Some("1.98.0 (abc 2026-08-20)"), Some("2026-08-20")), &files).unwrap();
    assert_eq!(state.latest_full, "1.98.0");
    assert_eq!(state.latest_minor.to_string(), "1.98");
    assert_eq!(state.manifest_date, "2026-08-20");
    assert_eq!(state.tracked_minor.unwrap().to_string(), "1.97");
    assert_eq!(state.tracked_files, vec!["skills/b.md".to_owned(), "skills/c.md".to_owned()]);
}

#[test]
fn missing_manifest_date_is_unknown() {
    let state = build_sync_state(&manifest(Some("  1.97.1 (test hash)"), None), &Vec::new()).unwrap();
    assert_eq!(state.latest_full, "1.97.1");
    assert_eq!(state.manifest_date, "unknown");
    assert!(state.tracked_minor.is_none());
    assert!(state.tracked_files.is_empty());
}

#[test]
fn manifest_errors_are_reported_in_order() {
    let missing = build_sync_state(&manifest(None, None), &Vec::new()).unwrap_err();
    assert!(matches!(missing, SyncStateError::MissingRustPackage));
    assert_eq!(missing.message(), "Rust stable manifest is missing `pkg.rust`");

    let empty = build_sync_state(&manifest(Some(" \t"), None), &Vec::new()).unwrap_err();
    assert!(matches!(empty, SyncStateError::EmptyRustVersion));
    assert_eq!(empty.message(), "Rust stable manifest has an empty `pkg.rust.version`");

    let stable = build_sync_state(&manifest(Some("stable"), None), &Vec::new()).unwrap_err();
    assert_eq!(stable.message(), "missing Rust minor version in `stable`");
}

#[test]
fn decides_what_to_report() {
    match decide_sync(&state("1.97.1", "1.97", Some("1.97")), true) {
        SyncAction::Report(line) => assert_eq!(line, "No sync issue needed."),
        SyncAction::OpenIssue => panic!("no issue is due"),
    }
    match decide_sync(&state("1.98.0", "1.98", Some("1.97")), false) {
        SyncAction::Report(line) => assert_eq!(line, "Would open issue: sync skills: rust 1.98"),
        SyncAction::OpenIssue => panic!("a dry run opens nothing"),
    }
    assert!(matches!(decide_sync(&state("1.98.0", "1.98", Some("1.97")), true), SyncAction::OpenIssue));
}

fn issue(title: &str, url: &str, is_pull_request: bool) -> OpenIssue {
    OpenIssue { title: title.to_owned(), html_url: url.to_owned(), is_pull_request }
}

#[test]
fn reuses_an_open_issue_with_the_same_title_in_any_case() {
    let issues = vec![
        issue("Sync Skills: Rust 1.98", "http://host/pull/3", true),
        issue("something else", "http://host/issues/2", false),
        issue("Sync Skills: Rust 1.98", "http://host/owner/repo/issues/1", false),
    ];
    match plan_sync_issue(&state("1.98.0", "1.98", Some("1.97")), &issues) {
        IssuePlan::AlreadyOpen(line) => {
            assert_eq!(line, "Open issue already exists: http://host/owner/repo/issues/1")
        },
        IssuePlan::Create { .. } => panic!("the open issue should be reused"),
    }
}

#[test]
fn plans_a_new_issue_when_none_matches() {
    let issues = vec![issue("sync skills: rust 1.97", "http://host/issues/1", false)];
    match plan_sync_issue(&state("1.98.0", "1.98", Some("1.97")), &issues) {
        IssuePlan::Create { title, body } => {
            assert_eq!(title, "sync skills: rust 1.98");
            assert!(body.contains("**Rust 1.98.0**"));
        },
        IssuePlan::AlreadyOpen(_) => panic!("no matching issue is open"),
    }
    assert_eq!(created_issue_message("http://host/issues/9"), "Created issue: http://host/issues/9");
}

#[test]
fn github_api_url_defaults_to_github() {
    assert_eq!(github_api_url(None), "https://api.github.com");
    assert_eq!(github_api_url(Some("http://127.0.0.1:9".to_owned())), "http://127.0.0.1:9");
}
