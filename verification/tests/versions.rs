use xtask::baselines::{SkillFile, TrackedVersions, scan_tracked_rust_versions};
use xtask::version::{RustMinorVersion, VersionErrorKind};

#[test]
fn compares_minor_versions() {
    assert!("1.98.0".parse::<RustMinorVersion>().unwrap() > "1.97".parse().unwrap());
    assert_eq!(
        "1.97.1".parse::<RustMinorVersion>().unwrap().to_string(),
        "1.97"
    );
}

#[test]
fn rejects_malformed_minor_versions() {
    for version in ["1", "stable.97", "1.97.beta", "1.97.0.1", "1..97"] {
        assert!(
            version.parse::<RustMinorVersion>().is_err(),
            "{version} should be rejected"
        );
    }
}

#[test]
fn version_errors_say_what_is_wrong() {
    let kind = |text: &str| RustMinorVersion::parse(text).unwrap_err().kind;
    assert_eq!(kind("1"), VersionErrorKind::MissingMinor);
    assert_eq!(kind("1.97.beta"), VersionErrorKind::InvalidPatch);
    assert_eq!(kind("1.97.0.1"), VersionErrorKind::WrongForm);
    assert_eq!(kind("stable.97"), VersionErrorKind::InvalidMajor);
    assert_eq!(kind("1..97"), VersionErrorKind::InvalidMinor);
    assert_eq!(kind("1.97.0.beta"), VersionErrorKind::WrongForm);
    assert_eq!(kind("1.97.x.1"), VersionErrorKind::InvalidPatch);
    assert_eq!(kind("18446744073709551616.1"), VersionErrorKind::InvalidMajor);
    assert_eq!(
        RustMinorVersion::parse("stable").unwrap_err().message(),
        "missing Rust minor version in `stable`"
    );
}

#[test]
fn reads_versions_as_u64_from_str_does() {
    let v = RustMinorVersion::parse("+1.097.3").unwrap();
    assert_eq!((v.major, v.minor), (1, 97));
    let max = RustMinorVersion::parse("18446744073709551615.0").unwrap();
    assert_eq!(max.major, u64::MAX);
    assert_eq!(max.to_string(), "18446744073709551615.0");
    assert!(RustMinorVersion::parse("-1.0").is_err());
    assert!(RustMinorVersion::parse("1.+").is_err());
}

#[test]
fn version_text_reads_back() {
    for (major, minor) in [(0, 0), (1, 97), (10, 5), (u64::MAX, 12)] {
        let v = RustMinorVersion { major, minor };
        assert_eq!(RustMinorVersion::parse(&v.to_string()).unwrap(), v);
    }
}

#[test]
fn newer_compares_major_then_minor() {
    let v = |text: &str| RustMinorVersion::parse(text).unwrap();
    assert!(v("1.98").is_newer_than(&v("1.97")));
    assert!(v("2.0").is_newer_than(&v("1.99")));
    assert!(!v("1.97.5").is_newer_than(&v("1.97")));
    assert!(!v("1.9").is_newer_than(&v("1.10")));
}

fn file(path: &str, text: &str) -> SkillFile {
    SkillFile { path: path.to_owned(), text: text.to_owned() }
}

#[test]
fn scans_rust_baselines_case_insensitively() {
    let files = vec![
        file("skills/one.md", "Assume Rust 1.97 stable."),
        file("skills/two.md", "use rust 1.98 guidance"),
    ];

    let tracked_versions = scan_tracked_rust_versions(&files).unwrap();

    assert!(tracked_versions.contains_key(&"1.97".parse().unwrap()));
    assert!(tracked_versions.contains_key(&"1.98".parse().unwrap()));
}

#[test]
fn missing_skills_root_has_no_tracked_versions() {
    assert!(scan_tracked_rust_versions(&Vec::new()).unwrap().is_empty());
    assert!(TrackedVersions::new().is_empty());
}

#[test]
fn scan_sorts_versions_and_files_without_repeats() {
    let files = vec![
        file("skills\\z.md", "Rust 1.97 and RUST 1.97.3 again"),
        file("skills/b.md", "Rust 1.96.0; rust\t1.97"),
        file("skills/a.md", "rust 1.97"),
        file("skills/c.md", "trust 1.99, rusty 1.99, no version here"),
    ];
    let baseline = scan_tracked_rust_versions(&files).unwrap();
    let versions: Vec<String> = baseline.entries.iter().map(|e| e.version.to_string()).collect();
    assert_eq!(versions, vec!["1.96", "1.97"]);
    assert_eq!(baseline.entries[0].files, vec!["skills/b.md"]);
    assert_eq!(baseline.entries[1].files, vec!["skills/a.md", "skills/b.md", "skills/z.md"]);
    let newest = baseline.last_key_value().unwrap();
    assert_eq!(newest.version.to_string(), "1.97");
}

#[test]
fn scan_reports_versions_that_do_not_fit() {
    let files = vec![file("skills/a.md", "Rust 99999999999999999999.1")];
    let error = scan_tracked_rust_versions(&files).unwrap_err();
    assert!(error.message().contains("invalid Rust major version"));
}
