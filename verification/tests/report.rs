use xtask::report::{build_issue_body, report_text, step_summary_text};
use xtask::sync::RustSyncState;

fn state(baseline: Option<&str>, files: Vec<String>) -> RustSyncState {
    RustSyncState {
        latest_full: "1.98.0".to_owned(),
        latest_minor: "1.98".parse().unwrap(),
        manifest_date: "2026-08-20".to_owned(),
        tracked_minor: baseline.map(|t| t.parse().unwrap()),
        tracked_files: files,
    }
}

#[test]
fn issue_body_lists_tracked_files() {
    let state = RustSyncState {
        latest_full: "1.98.0".to_owned(),
        latest_minor: "1.98".parse().unwrap(),
        manifest_date: "2026-08-20".to_owned(),
        tracked_minor: Some("1.97".parse().unwrap()),
        tracked_files: vec!["skills/rust-test/SKILL.md".to_owned()],
    };

    let body = build_issue_body(&state);

    assert!(body.contains("The Rust stable channel is now **Rust 1.98.0**"));
    assert!(body.contains("- `skills/rust-test/SKILL.md`"));
}

#[test]
fn issue_body_explains_when_no_baseline_is_tracked() {
    let state = RustSyncState {
        latest_full: "1.98.0".to_owned(),
        latest_minor: "1.98".parse().unwrap(),
        manifest_date: "2026-08-20".to_owned(),
        tracked_minor: None,
        tracked_files: Vec::new(),
    };

    let body = build_issue_body(&state);

    assert!(body.contains("No tracked Rust baseline was detected in `skills/`."));
}

#[test]
fn issue_body_is_exact() {
    let body = build_issue_body(&state(Some("1.97"), vec!["a.md".to_owned(), "b.md".to_owned()]));
    assert_eq!(
        body,
        "The Rust stable channel is now **Rust 1.98.0** (manifest date: `2026-08-20`).\n\
         \n\
         The highest Rust baseline currently tracked in `skills/` is **Rust 1.97**.\n\
         \n\
         Files mentioning that baseline:\n\
         - `a.md`\n\
         - `b.md`\n\
         \n\
         Suggested follow-up:\n\
         - Review Rust 1.98 release notes and update the Rust skills that track the latest stable toolchain.\n\
         - Refresh any version-specific guidance, examples, and agent descriptions that mention the previous baseline.\n"
    );
}

#[test]
fn step_summary_reports_missing_baseline() {
    let summary = step_summary_text(&state(None, Vec::new()), "No sync issue needed.");
    assert!(summary.contains("Tracked Rust baseline: **not found**"));
    assert_eq!(
        summary,
        "Latest Rust stable: **1.98.0**\n\nTracked Rust baseline: **not found**\n\nNo sync issue needed.\n"
    );
}

#[test]
fn report_lists_release_baseline_and_result() {
    let text = report_text(&state(Some("1.97"), Vec::new()), "Would open issue: sync skills: rust 1.98");
    assert_eq!(
        text,
        "Latest Rust stable: 1.98.0\nTracked Rust baseline: 1.97\nWould open issue: sync skills: rust 1.98\n"
    );
}
