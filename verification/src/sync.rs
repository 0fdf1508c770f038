use vstd::prelude::*;
use crate::baselines::{
    ScanError, SkillFile, TrackedVersions, regex_accepts_pattern, rust_version_pattern, scan_spec,
    scan_tracked_rust_versions, skill_files_view,
};
use crate::order::chars_equal;
use crate::text::{chars_of, first_word, first_word_of, push_str_chars, string_of};
use crate::version::{
    RustMinorVersion, VersionError, VersionErrorKind, version_newer, version_parse_spec, version_error_message,
};

verus! {

/// One package of the stable channel manifest: its name and version text.
pub struct ManifestPackage {
    pub name: String,
    pub version: String,
}

/// What the logic reads of the stable channel manifest: its date and its
/// packages.
pub struct ChannelManifest {
    pub date: Option<String>,
    pub pkg: Vec<ManifestPackage>,
}

/// The version text of the first package called `rust`.
pub open spec fn rust_package_version(pkgs: Seq<ManifestPackage>) -> Option<Seq<char>>
    decreases pkgs.len(),
{
    if pkgs.len() == 0 {
        None
    } else if pkgs[0].name@ == "rust"@ {
        Some(pkgs[0].version@)
    } else {
        rust_package_version(pkgs.drop_first())
    }
}

/// The manifest date, or `unknown` where the manifest has none.
pub open spec fn manifest_date_spec(date: Option<String>) -> Seq<char> {
    match date {
        Some(d) => d@,
        None => "unknown"@,
    }
}

/// The stable release against the newest Rust baseline the skills track.
#[derive(Debug)]
pub struct RustSyncState {
    pub latest_full: String,
    pub latest_minor: RustMinorVersion,
    pub manifest_date: String,
    pub tracked_minor: Option<RustMinorVersion>,
    pub tracked_files: Vec<String>,
}

/// Why the sync state could not be built.
#[derive(Debug)]
pub enum SyncStateError {
    MissingRustPackage,
    EmptyRustVersion,
    Version(VersionError),
    Scan(ScanError),
}

impl SyncStateError {
    pub open spec fn message_spec(self) -> Seq<char> {
        match self {
            SyncStateError::MissingRustPackage => "Rust stable manifest is missing `pkg.rust`"@,
            SyncStateError::EmptyRustVersion => "Rust stable manifest has an empty `pkg.rust.version`"@,
            SyncStateError::Version(e) => version_error_message(e.kind, e.value@),
            SyncStateError::Scan(e) => e.message_spec(),
        }
    }

    /// The message that reports this error.
    pub fn message(&self) -> (r: String)
        ensures
            r@ == self.message_spec(),
    {
        match self {
            SyncStateError::MissingRustPackage => "Rust stable manifest is missing `pkg.rust`".to_owned(),
            SyncStateError::EmptyRustVersion => "Rust stable manifest has an empty `pkg.rust.version`".to_owned(),
            SyncStateError::Version(e) => e.message(),
            SyncStateError::Scan(e) => e.message(),
        }
    }
}

/// The newest release line of `t` (its last entry) and that line's files.
pub open spec fn newest_entry(t: TrackedVersions) -> (Option<RustMinorVersion>, Seq<String>) {
    if t.entries@.len() == 0 {
        (None, Seq::<String>::empty())
    } else {
        (Some(t.entries@.last().version), t.entries@.last().files@)
    }
}

/// Finds the version text of the `rust` package.
pub fn find_rust_version(pkgs: &Vec<ManifestPackage>) -> (r: Option<&String>)
    ensures
        match r {
            Some(v) => rust_package_version(pkgs@) == Some(v@),
            None => rust_package_version(pkgs@) is None,
        },
{
    let rust = chars_of("rust");
    let mut i: usize = 0;
    assert(pkgs@.skip(0) == pkgs@);
    while i < pkgs.len()
        invariant
            0 <= i <= pkgs.len(),
            rust@ == "rust"@,
            rust_package_version(pkgs@) == rust_package_version(pkgs@.skip(i as int)),
        decreases pkgs.len() - i,
    {
        let name = chars_of(pkgs[i].name.as_str());
        assert(pkgs@.skip(i as int)[0] == pkgs@[i as int]);
        if chars_equal(&name, &rust) {
            return Some(&pkgs[i].version);
        }
        assert(pkgs@.skip(i as int).drop_first() == pkgs@.skip(i + 1));
        i = i + 1;
    }
    assert(pkgs@.skip(i as int).len() == 0);
    None
}

/// Reads the stable release from the manifest and the tracked baselines from
/// the skill files: the first word of the `rust` package version is the full
/// release, read as a release line; the newest line found in the files is the
/// tracked baseline, with the files that mention it.
pub fn build_sync_state(manifest: &ChannelManifest, files: &Vec<SkillFile>) -> (r: Result<
    RustSyncState,
    SyncStateError,
>)
    ensures
        match rust_package_version(manifest.pkg@) {
            None => r matches Err(SyncStateError::MissingRustPackage),
            Some(full) => match first_word(full) {
                None => r matches Err(SyncStateError::EmptyRustVersion),
                Some(word) => match version_parse_spec(word) {
                    Err(kind) => r matches Err(SyncStateError::Version(e)) && e.kind == kind && e.value@
                        == word,
                    Ok(latest) => if !regex_accepts_pattern(rust_version_pattern()) {
                        r matches Err(SyncStateError::Scan(ScanError::PatternRejected))
                    } else {
                        match scan_spec(skill_files_view(files@)) {
                            Err((kind, value)) => (r matches Err(SyncStateError::Scan(ScanError::Version(e)))
                                && e.kind == kind && e.value@ == value),
                            Ok(m) => (r matches Ok(state) && exists|t: TrackedVersions|
                                t.wf() && t@ == m && #[trigger] newest_entry(t) == (
                                    state.tracked_minor,
                                    state.tracked_files@,
                                ) && state.latest_full@ == word && state.latest_minor == latest
                                    && state.manifest_date@ == manifest_date_spec(manifest.date)),
                        }
                    },
                },
            },
        },
{
    let full = match find_rust_version(&manifest.pkg) {
        Some(v) => v,
        None => {
            return Err(SyncStateError::MissingRustPackage);
        },
    };
    let word = match first_word_of(full.as_str()) {
        Some(w) => w,
        None => {
            return Err(SyncStateError::EmptyRustVersion);
        },
    };
    let latest = match RustMinorVersion::parse(word.as_str()) {
        Ok(v) => v,
        Err(e) => {
            return Err(SyncStateError::Version(e));
        },
    };
    let found = match scan_tracked_rust_versions(files) {
        Ok(t) => t,
        Err(e) => {
            return Err(SyncStateError::Scan(e));
        },
    };
    let (tracked_minor, tracked_files) = match found.last_key_value() {
        Some(entry) => (Some(entry.version), copy_strings(&entry.files)),
        None => (None, Vec::new()),
    };
    let manifest_date = match &manifest.date {
        Some(d) => d.clone(),
        None => "unknown".to_owned(),
    };
    let state = RustSyncState { latest_full: word, latest_minor: latest, manifest_date, tracked_minor, tracked_files };
    assert(newest_entry(found) == (state.tracked_minor, state.tracked_files@));
    Ok(state)
}

/// A copy of a list of strings.
pub fn copy_strings(v: &Vec<String>) -> (r: Vec<String>)
    ensures
        r@ == v@,
{
    let mut r: Vec<String> = Vec::new();
    let mut i: usize = 0;
    while i < v.len()
        invariant
            0 <= i <= v.len(),
            r@ == v@.take(i as int),
        decreases v.len() - i,
    {
        r.push(v[i].clone());
        assert(v@.take(i + 1) == v@.take(i as int).push(v@[i as int]));
        i = i + 1;
    }
    assert(v@.take(v.len() as int) == v@);
    r
}

impl RustSyncState {
    /// An issue is due when a baseline is tracked and the stable release line
    /// is newer than it.
    pub open spec fn should_open_issue_spec(&self) -> bool {
        match self.tracked_minor {
            Some(t) => version_newer(self.latest_minor, t),
            None => false,
        }
    }

    pub open spec fn issue_title_spec(&self) -> Seq<char> {
        "sync skills: rust "@ + self.latest_minor.text()
    }

    pub fn should_open_issue(&self) -> (r: bool)
        ensures
            r == self.should_open_issue_spec(),
    {
        match self.tracked_minor {
            Some(t) => self.latest_minor.is_newer_than(&t),
            None => false,
        }
    }

    /// The title of the sync issue: `sync skills: rust <major.minor>`.
    pub fn issue_title(&self) -> (r: String)
        ensures
            r@ == self.issue_title_spec(),
    {
        let mut out: Vec<char> = Vec::new();
        push_str_chars(&mut out, "sync skills: rust ");
        self.latest_minor.push_text(&mut out);
        string_of(&out)
    }
}

} // verus!
