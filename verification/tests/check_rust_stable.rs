use xtask::baselines::SkillFile;
use xtask::issues::{IssuePlan, OpenIssue, SyncAction, created_issue_message, decide_sync, plan_sync_issue};
use xtask::report::{report_text, step_summary_text};
use xtask::repository::Repository;
use xtask::sync::{ChannelManifest, ManifestPackage, RustSyncState, build_sync_state};

fn stable_manifest(version: &str, date: Option<&str>) -> ChannelManifest {
    ChannelManifest {
        date: date.map(str::to_owned),
        pkg: vec![ManifestPackage { name: "rust".to_owned(), version: format!("{version} (test hash)") }],
    }
}

fn tracked_skill(version: &str) -> Vec<SkillFile> {
    vec![SkillFile { path: "SKILL.md".to_owned(), text: format!("Assume Rust {version} stable.") }]
}

fn outcome(state: &RustSyncState, create_issue: bool) -> String {
    match decide_sync(state, create_issue) {
        SyncAction::Report(line) => line,
        SyncAction::OpenIssue => panic!("an issue would be opened"),
    }
}

#[test]
fn reports_no_sync_needed_and_writes_step_summary() {
    let state = build_sync_state(&stable_manifest("1.97.1", Some("2026-07-10")), &tracked_skill("1.97")).unwrap();
    let result = outcome(&state, false);
    let stdout = report_text(&state, &result);
    assert!(stdout.contains("Latest Rust stable: 1.97.1"));
    assert!(stdout.contains("Tracked Rust baseline: 1.97"));
    assert!(stdout.contains("No sync issue needed."));
    assert!(step_summary_text(&state, &result).contains("No sync issue needed."));
}

#[test]
fn reports_pending_sync_without_creating_an_issue() {
    let state = build_sync_state(&stable_manifest("1.98.0", None), &tracked_skill("1.97")).unwrap();
    let stdout = report_text(&state, &outcome(&state, false));
    assert!(stdout.contains("Would open issue: sync skills: rust 1.98"));
}

#[test]
fn reports_when_no_rust_baseline_is_tracked() {
    let state = build_sync_state(&stable_manifest("1.97.1", Some("2026-07-10")), &Vec::new()).unwrap();
    let stdout = report_text(&state, &outcome(&state, false));
    assert!(stdout.contains("Tracked Rust baseline: not found"));
    assert!(stdout.contains("No sync issue needed."));
}

#[test]
fn reports_manifest_request_and_parse_failures() {
    let skills = tracked_skill("1.97");
    for (manifest, expected_error) in [
        (
            ChannelManifest {
                date: None,
                pkg: vec![ManifestPackage { name: "other".to_owned(), version: "1.98.0".to_owned() }],
            },
            "Rust stable manifest is missing `pkg.rust`",
        ),
        (
            ChannelManifest {
                date: None,
                pkg: vec![ManifestPackage { name: "rust".to_owned(), version: String::new() }],
            },
            "Rust stable manifest has an empty `pkg.rust.version`",
        ),
        (
            ChannelManifest {
                date: None,
                pkg: vec![ManifestPackage { name: "rust".to_owned(), version: "stable".to_owned() }],
            },
            "missing Rust minor version",
        ),
    ] {
        let error = build_sync_state(&manifest, &skills).unwrap_err();
        assert!(error.message().contains(expected_error), "{}", error.message());
    }
}

#[test]
fn reuses_an_existing_sync_issue() {
    let base_url = "http://127.0.0.1:1";
    let state = build_sync_state(&stable_manifest("1.98.0", Some("2026-08-20")), &tracked_skill("1.97")).unwrap();
    assert!(matches!(decide_sync(&state, true), SyncAction::OpenIssue));
    let existing = vec![OpenIssue {
        title: "Sync Skills: Rust 1.98".to_owned(),
        html_url: format!("{base_url}/owner/repo/issues/1"),
        is_pull_request: false,
    }];
    match plan_sync_issue(&state, &existing) {
        IssuePlan::AlreadyOpen(line) => {
            assert!(line.contains(&format!("Open issue already exists: {base_url}/owner/repo/issues/1")))
        },
        IssuePlan::Create { .. } => panic!("the open issue should be reused"),
    }
}

#[test]
fn creates_a_sync_issue_when_none_exists() {
    let base_url = "http://127.0.0.1:1";
    let state = build_sync_state(&stable_manifest("1.98.0", Some("2026-08-20")), &tracked_skill("1.97")).unwrap();
    match plan_sync_issue(&state, &Vec::new()) {
        IssuePlan::Create { title, .. } => assert_eq!(title, "sync skills: rust 1.98"),
        IssuePlan::AlreadyOpen(_) => panic!("no issue is open"),
    }
    let stdout = created_issue_message(&format!("{base_url}/owner/repo/issues/1"));
    assert!(stdout.contains(&format!("Created issue: {base_url}/owner/repo/issues/1")));
}

#[test]
fn rejects_invalid_github_configuration() {
    let error = "owner".parse::<Repository>().unwrap_err();
    assert!(error.message().contains("GitHub repository must be in `owner/repo` form"));
}
