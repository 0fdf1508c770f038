use vstd::prelude::*;
use crate::order::{insert_sorted, sorted_strict, strings_view};
use crate::text::{chars_of, push_str_chars, string_of};
use crate::version::{RustMinorVersion, VersionError, VersionErrorKind, version_newer, version_parse_spec, version_error_message};

verus! {

// ---------------------------------------------------------------------------
// The regex crate
// ---------------------------------------------------------------------------

#[verifier::external_type_specification]
#[verifier::external_body]
pub struct ExRegex(regex::Regex);

#[verifier::external_type_specification]
#[verifier::external_body]
pub struct ExRegexError(regex::Error);

/// Whether `regex::Regex::new` accepts `pattern`.
pub uninterp spec fn regex_accepts_pattern(pattern: Seq<char>) -> bool;

/// For every match of `pattern` in `text`, in order, the text of capture
/// group `group` (`None` where the group took no part in the match).
pub uninterp spec fn regex_group_captures(pattern: Seq<char>, text: Seq<char>, group: nat) -> Seq<
    Option<Seq<char>>,
>;

/// A compiled regular expression together with the pattern it was built from.
pub struct CompiledPattern {
    source: String,
    regex: regex::Regex,
}

impl CompiledPattern {
    pub closed spec fn pattern(self) -> Seq<char> {
        self.source@
    }
}

pub open spec fn option_view(c: Option<String>) -> Option<Seq<char>> {
    match c {
        Some(s) => Some(s@),
        None => None,
    }
}

pub open spec fn captures_view(v: Seq<Option<String>>) -> Seq<Option<Seq<char>>> {
    v.map_values(|c: Option<String>| option_view(c))
}

/// `regex::Regex::new`: compiles `source`; it fails exactly on the patterns
/// that `regex_accepts_pattern` rejects.
#[verifier::external_body]
fn compile_pattern(source: &str) -> (r: Result<CompiledPattern, regex::Error>)
    ensures
        r is Ok <==> regex_accepts_pattern(source@),
        r matches Ok(p) ==> p.pattern() == source@,
{
    regex::Regex::new(source).map(|regex| CompiledPattern { source: source.to_owned(), regex })
}

/// `regex::Regex::captures_iter`: the text of capture group `group` of every
/// match in `text`, as `regex_group_captures` names it.
#[verifier::external_body]
fn group_captures(pattern: &CompiledPattern, text: &str, group: usize) -> (r: Vec<Option<String>>)
    ensures
        captures_view(r@) == regex_group_captures(pattern.pattern(), text@, group as nat),
{
    pattern.regex.captures_iter(text).map(|caps| caps.get(group).map(|m| m.as_str().to_owned())).collect()
}

// ---------------------------------------------------------------------------
// Versions found in the skill files
// ---------------------------------------------------------------------------

/// The pattern of a Rust baseline in prose: `Rust 1.97` or `rust 1.97.1`.
pub open spec fn rust_version_pattern() -> Seq<char> {
    "(?i)\\brust\\s+([0-9]+\\.[0-9]+)(?:\\.[0-9]+)?\\b"@
}

/// One release line and the files that mention it, sorted, each once.
#[derive(Debug)]
pub struct TrackedVersion {
    pub version: RustMinorVersion,
    pub files: Vec<String>,
}

/// The release lines found in the skill files, oldest first.
#[derive(Debug)]
pub struct TrackedVersions {
    pub entries: Vec<TrackedVersion>,
}

pub open spec fn files_set(e: TrackedVersion) -> Set<Seq<char>> {
    strings_view(e.files@).to_set()
}

pub open spec fn entries_map(es: Seq<TrackedVersion>) -> Map<RustMinorVersion, Set<Seq<char>>>
    decreases es.len(),
{
    if es.len() == 0 {
        Map::empty()
    } else {
        entries_map(es.drop_last()).insert(es.last().version, files_set(es.last()))
    }
}

impl View for TrackedVersions {
    type V = Map<RustMinorVersion, Set<Seq<char>>>;

    open spec fn view(&self) -> Map<RustMinorVersion, Set<Seq<char>>> {
        entries_map(self.entries@)
    }
}

/// Each entry is for a later release line than the ones before it.
pub open spec fn versions_increasing(es: Seq<TrackedVersion>) -> bool {
    forall|i: int, j: int| 0 <= i < j < es.len() ==> version_newer(#[trigger] es[j].version, #[trigger] es[i].version)
}

impl TrackedVersions {
    /// Entries ordered by release line, oldest first; each file list sorted,
    /// without repeats, and not empty.
    pub open spec fn wf(self) -> bool {
        &&& versions_increasing(self.entries@)
        &&& forall|i: int|
            0 <= i < self.entries@.len() ==> sorted_strict(strings_view(#[trigger] self.entries@[i].files@))
                && self.entries@[i].files@.len() > 0
    }

    /// No release line found.
    pub fn new() -> (r: TrackedVersions)
        ensures
            r.wf(),
            r@ == Map::<RustMinorVersion, Set<Seq<char>>>::empty(),
    {
        TrackedVersions { entries: Vec::new() }
    }

    pub fn is_empty(&self) -> (r: bool)
        requires
            self.wf(),
        ensures
            r == (self@.dom() == Set::<RustMinorVersion>::empty()),
    {
        proof {
            lemma_entries_map(self.entries@);
            if self.entries@.len() > 0 {
                assert(self@.dom().contains(self.entries@[0].version));
                assert(!Set::<RustMinorVersion>::empty().contains(self.entries@[0].version));
            } else {
                assert(self@.dom() =~= Set::<RustMinorVersion>::empty());
            }
        }
        self.entries.len() == 0
    }

    /// Whether `version` was found.
    pub fn contains_key(&self, version: &RustMinorVersion) -> (r: bool)
        requires
            self.wf(),
        ensures
            r == self@.contains_key(*version),
    {
        proof {
            lemma_entries_map(self.entries@);
        }
        let mut i: usize = 0;
        while i < self.entries.len()
            invariant
                0 <= i <= self.entries.len(),
                self.wf(),
                forall|j: int| 0 <= j < i ==> self.entries@[j].version != *version,
            decreases self.entries.len() - i,
        {
            if self.entries[i].version == *version {
                proof {
                    lemma_entries_map(self.entries@);
                }
                return true;
            }
            i = i + 1;
        }
        proof {
            lemma_entries_map(self.entries@);
        }
        false
    }

    /// The newest release line and its files, if any was found.
    pub fn last_key_value(&self) -> (r: Option<&TrackedVersion>)
        requires
            self.wf(),
        ensures
            self.entries@.len() == 0 <==> r is None,
            r matches Some(e) ==> {
                &&& *e == self.entries@.last()
                &&& self@.contains_key(e.version)
                &&& self@[e.version] == files_set(*e)
                &&& sorted_strict(strings_view(e.files@))
                &&& forall|v: RustMinorVersion| #[trigger] self@.contains_key(v) && v != e.version ==> version_newer(e.version, v)
            },
    {
        proof {
            lemma_entries_map(self.entries@);
        }
        if self.entries.len() == 0 {
            None
        } else {
            let last = self.entries.len() - 1;
            proof {
                assert forall|v: RustMinorVersion| #[trigger] self@.contains_key(v) && v != self.entries@[last as int].version
                    implies version_newer(self.entries@[last as int].version, v) by {
                    let i = choose|i: int| 0 <= i < self.entries@.len() && self.entries@[i].version == v;
                    assert(i != last);
                }
            }
            Some(&self.entries[last])
        }
    }

    /// Records that `path` mentions `version`.
    #[verifier::spinoff_prover]
    pub fn insert(&mut self, version: RustMinorVersion, path: String)
        requires
            old(self).wf(),
        ensures
            final(self).wf(),
            final(self)@ == add_path(old(self)@, version, path@),
    {
        let ghost old_entries = self.entries@;
        proof {
            lemma_entries_map(old_entries);
        }
        let mut k: usize = 0;
        while k < self.entries.len()
            invariant
                0 <= k <= self.entries.len(),
                self.entries@ == old_entries,
                forall|j: int| 0 <= j < k ==> version_newer(version, #[trigger] old_entries[j].version),
            ensures
                0 <= k <= self.entries.len(),
                self.entries@ == old_entries,
                forall|j: int| 0 <= j < k ==> version_newer(version, #[trigger] old_entries[j].version),
                k < self.entries.len() ==> !version_newer(version, old_entries[k as int].version),
            decreases self.entries.len() - k,
        {
            if !version.is_newer_than(&self.entries[k].version) {
                break;
            }
            k = k + 1;
        }
        let ghost expected = add_path(entries_map(old_entries), version, path@);
        if k < self.entries.len() && self.entries[k].version == version {
            let mut entry = self.entries.remove(k);
            assert(entry == old_entries[k as int]);
            let ghost path_view = path@;
            insert_sorted(&mut entry.files, path);
            assert(strings_view(entry.files@).to_set().contains(path_view));
            assert(entry.files@.len() > 0);
            self.entries.insert(k, entry);
            let ghost new_entries = self.entries@;
            assert(new_entries =~= old_entries.update(k as int, entry));
            proof {
                assert forall|i: int, j: int| 0 <= i < j < new_entries.len() implies version_newer(
                    #[trigger] new_entries[j].version,
                    #[trigger] new_entries[i].version,
                ) by {
                    assert(old_entries[i].version == new_entries[i].version);
                    assert(old_entries[j].version == new_entries[j].version);
                }
                assert forall|i: int| 0 <= i < new_entries.len() implies sorted_strict(
                    strings_view(#[trigger] new_entries[i].files@),
                ) && new_entries[i].files@.len() > 0 by {
                    if i != k {
                        assert(new_entries[i] == old_entries[i]);
                    }
                }
                assert(self.wf());
                lemma_entries_map(new_entries);
                assert(entries_map(new_entries) =~= expected) by {
                    assert forall|w: RustMinorVersion| #[trigger] entries_map(new_entries).contains_key(w)
                        <==> expected.contains_key(w) by {
                        if expected.contains_key(w) && w != version {
                            let i = choose|i: int| 0 <= i < old_entries.len() && old_entries[i].version == w;
                            assert(new_entries[i].version == w);
                        }
                        if entries_map(new_entries).contains_key(w) {
                            let i = choose|i: int| 0 <= i < new_entries.len() && new_entries[i].version == w;
                            assert(old_entries[i].version == w);
                        }
                    }
                    assert forall|w: RustMinorVersion| #[trigger] entries_map(new_entries).contains_key(w)
                        implies entries_map(new_entries)[w] == expected[w] by {
                        let i = choose|i: int| 0 <= i < new_entries.len() && new_entries[i].version == w;
                        assert(old_entries[i].version == w);
                        if i != k {
                            assert(new_entries[i] == old_entries[i]);
                        }
                    }
                }
            }
        } else {
            let mut files: Vec<String> = Vec::new();
            files.push(path);
            let entry = TrackedVersion { version, files };
            assert(strings_view(entry.files@) =~= seq![path@]);
            self.entries.insert(k, entry);
            let ghost new_entries = self.entries@;
            assert(new_entries =~= old_entries.insert(k as int, entry));
            proof {
                if k < old_entries.len() {
                    assert(old_entries[k as int].version != version);
                    assert(version_newer(old_entries[k as int].version, version));
                }
                assert forall|i: int, j: int| 0 <= i < j < new_entries.len() implies version_newer(
                    #[trigger] new_entries[j].version,
                    #[trigger] new_entries[i].version,
                ) by {
                    if j < k {
                        assert(new_entries[i] == old_entries[i] && new_entries[j] == old_entries[j]);
                    } else if j == k {
                        assert(new_entries[i] == old_entries[i]);
                    } else if i == k {
                        assert(new_entries[j] == old_entries[j - 1]);
                        if j - 1 > k {
                            assert(version_newer(old_entries[j - 1].version, old_entries[k as int].version));
                        }
                    } else if i < k {
                        assert(new_entries[i] == old_entries[i] && new_entries[j] == old_entries[j - 1]);
                    } else {
                        assert(new_entries[i] == old_entries[i - 1] && new_entries[j] == old_entries[j - 1]);
                    }
                }
                assert forall|i: int| 0 <= i < new_entries.len() implies sorted_strict(
                    strings_view(#[trigger] new_entries[i].files@),
                ) && new_entries[i].files@.len() > 0 by {
                    if i < k {
                        assert(new_entries[i] == old_entries[i]);
                    } else if i > k {
                        assert(new_entries[i] == old_entries[i - 1]);
                    }
                }
                assert(self.wf());
                lemma_entries_map(new_entries);
                assert(!entries_map(old_entries).contains_key(version)) by {
                    if entries_map(old_entries).contains_key(version) {
                        let i = choose|i: int| 0 <= i < old_entries.len() && old_entries[i].version == version;
                        if i < k {
                            assert(version_newer(version, old_entries[i].version));
                        } else if i > k {
                            assert(version_newer(old_entries[i].version, old_entries[k as int].version));
                        }
                    }
                }
                assert(files_set(entry) =~= set![entry.files@[0]@]) by {
                    assert forall|x: Seq<char>| files_set(entry).contains(x) implies x == entry.files@[0]@ by {
                        let i = choose|i: int| 0 <= i < strings_view(entry.files@).len() && strings_view(entry.files@)[i] == x;
                    }
                    assert(strings_view(entry.files@)[0] == entry.files@[0]@);
                }
                assert(entries_map(new_entries) =~= expected) by {
                    assert forall|w: RustMinorVersion| #[trigger] entries_map(new_entries).contains_key(w)
                        <==> expected.contains_key(w) by {
                        if expected.contains_key(w) && w != version {
                            let i = choose|i: int| 0 <= i < old_entries.len() && old_entries[i].version == w;
                            if i < k {
                                assert(new_entries[i].version == w);
                            } else {
                                assert(new_entries[i + 1].version == w);
                            }
                        }
                        if w == version {
                            assert(new_entries[k as int].version == w);
                        }
                        if entries_map(new_entries).contains_key(w) && w != version {
                            let i = choose|i: int| 0 <= i < new_entries.len() && new_entries[i].version == w;
                            if i < k {
                                assert(old_entries[i].version == w);
                            } else if i > k {
                                assert(old_entries[i - 1].version == w);
                            }
                        }
                    }
                    assert forall|w: RustMinorVersion| #[trigger] entries_map(new_entries).contains_key(w)
                        implies entries_map(new_entries)[w] == expected[w] by {
                        let i = choose|i: int| 0 <= i < new_entries.len() && new_entries[i].version == w;
                        if i < k {
                            assert(new_entries[i] == old_entries[i]);
                        } else if i > k {
                            assert(new_entries[i] == old_entries[i - 1]);
                        }
                    }
                }
            }
        }
    }
}

/// The map after recording that `path` mentions `v`.
pub open spec fn add_path(
    m: Map<RustMinorVersion, Set<Seq<char>>>,
    v: RustMinorVersion,
    path: Seq<char>,
) -> Map<RustMinorVersion, Set<Seq<char>>> {
    m.insert(
        v,
        if m.contains_key(v) {
            m[v].insert(path)
        } else {
            set![path]
        },
    )
}

/// With distinct versions, the map sends each entry's version to its files.
pub proof fn lemma_entries_map(es: Seq<TrackedVersion>)
    requires
        versions_increasing(es),
    ensures
        forall|v: RustMinorVersion|
            #[trigger] entries_map(es).contains_key(v) <==> exists|i: int| 0 <= i < es.len() && es[i].version == v,
        forall|i: int| 0 <= i < es.len() ==> entries_map(es)[(#[trigger] es[i]).version] == files_set(es[i]),
    decreases es.len(),
{
    if es.len() > 0 {
        let init = es.drop_last();
        let last = es.last();
        assert forall|i: int, j: int| 0 <= i < j < init.len() implies version_newer(
            #[trigger] init[j].version,
            #[trigger] init[i].version,
        ) by {
            assert(init[i] == es[i] && init[j] == es[j]);
        }
        lemma_entries_map(init);
        assert forall|v: RustMinorVersion| #[trigger] entries_map(es).contains_key(v) implies exists|i: int|
            0 <= i < es.len() && es[i].version == v by {
            if v != last.version {
                assert(entries_map(init).contains_key(v));
                let i = choose|i: int| 0 <= i < init.len() && init[i].version == v;
                assert(es[i] == init[i]);
            } else {
                assert(es[es.len() - 1].version == v);
            }
        }
        assert forall|v: RustMinorVersion| (exists|i: int| 0 <= i < es.len() && es[i].version == v) implies #[trigger] entries_map(es).contains_key(v) by {
            let i = choose|i: int| 0 <= i < es.len() && es[i].version == v;
            if i < es.len() - 1 {
                assert(init[i] == es[i]);
                assert(entries_map(init).contains_key(v));
            }
        }
        assert forall|i: int| 0 <= i < es.len() implies entries_map(es)[(#[trigger] es[i]).version] == files_set(es[i]) by {
            if i < es.len() - 1 {
                assert(init[i] == es[i]);
                assert(version_newer(es[es.len() - 1].version, es[i].version));
            }
        }
    }
}


// ---------------------------------------------------------------------------
// Scanning the skill files
// ---------------------------------------------------------------------------

/// One file of the skills tree: its path and its text.
pub struct SkillFile {
    pub path: String,
    pub text: String,
}

pub open spec fn skill_files_view(files: Seq<SkillFile>) -> Seq<(Seq<char>, Seq<char>)> {
    files.map_values(|f: SkillFile| (f.path@, f.text@))
}

/// A path with `\` separators written as `/`.
pub open spec fn normalize_path(p: Seq<char>) -> Seq<char> {
    p.map_values(|c: char| if c == '\\' { '/' } else { c })
}

/// Writes the `\` separators of `p` as `/`.
pub fn normalize_path_text(p: &str) -> (r: String)
    ensures
        r@ == normalize_path(p@),
{
    let chars = chars_of(p);
    let mut out: Vec<char> = Vec::new();
    let mut i: usize = 0;
    while i < chars.len()
        invariant
            0 <= i <= chars.len(),
            chars@ == p@,
            out@ == normalize_path(chars@.take(i as int)),
        decreases chars.len() - i,
    {
        let c = chars[i];
        if c == '\\' {
            out.push('/');
        } else {
            out.push(c);
        }
        assert(normalize_path(chars@.take(i + 1)) =~= normalize_path(chars@.take(i as int)).push(
            if c == '\\' { '/' } else { c },
        ));
        i = i + 1;
    }
    assert(chars@.take(chars.len() as int) == chars@);
    string_of(&out)
}

/// Why the skill files could not be scanned.
#[derive(Debug)]
pub enum ScanError {
    PatternRejected,
    Version(VersionError),
}

impl ScanError {
    pub open spec fn message_spec(self) -> Seq<char> {
        match self {
            ScanError::PatternRejected => "failed to compile Rust version regex"@,
            ScanError::Version(e) => version_error_message(e.kind, e.value@),
        }
    }

    /// The message that reports this error.
    pub fn message(&self) -> (r: String)
        ensures
            r@ == self.message_spec(),
    {
        match self {
            ScanError::PatternRejected => "failed to compile Rust version regex".to_owned(),
            ScanError::Version(e) => e.message(),
        }
    }
}

/// What the captured versions of one file add to the map, in order; the first
/// capture that is not a version stops the scan with its error.
pub open spec fn scan_captures(
    m: Map<RustMinorVersion, Set<Seq<char>>>,
    caps: Seq<Option<Seq<char>>>,
    path: Seq<char>,
) -> Result<Map<RustMinorVersion, Set<Seq<char>>>, (VersionErrorKind, Seq<char>)>
    decreases caps.len(),
{
    if caps.len() == 0 {
        Ok(m)
    } else {
        match scan_captures(m, caps.drop_last(), path) {
            Err(e) => Err(e),
            Ok(m2) => match caps.last() {
                None => Ok(m2),
                Some(c) => match version_parse_spec(c) {
                    Err(k) => Err((k, c)),
                    Ok(v) => Ok(add_path(m2, v, path)),
                },
            },
        }
    }
}

/// The release lines mentioned in `files` (path, text), file by file: each
/// match of `rust_version_pattern` names a version, recorded under the file's
/// normalized path.
pub open spec fn scan_spec(files: Seq<(Seq<char>, Seq<char>)>) -> Result<
    Map<RustMinorVersion, Set<Seq<char>>>,
    (VersionErrorKind, Seq<char>),
>
    decreases files.len(),
{
    if files.len() == 0 {
        Ok(Map::empty())
    } else {
        match scan_spec(files.drop_last()) {
            Err(e) => Err(e),
            Ok(m) => scan_captures(
                m,
                regex_group_captures(rust_version_pattern(), files.last().1, 1),
                normalize_path(files.last().0),
            ),
        }
    }
}

proof fn lemma_scan_captures_err(
    m: Map<RustMinorVersion, Set<Seq<char>>>,
    caps: Seq<Option<Seq<char>>>,
    path: Seq<char>,
    n: int,
)
    requires
        0 <= n <= caps.len(),
        scan_captures(m, caps.take(n), path) is Err,
    ensures
        scan_captures(m, caps, path) == scan_captures(m, caps.take(n), path),
    decreases caps.len() - n,
{
    if n < caps.len() {
        assert(caps.take(n + 1).drop_last() == caps.take(n));
        lemma_scan_captures_err(m, caps, path, n + 1);
    } else {
        assert(caps.take(n) == caps);
    }
}

proof fn lemma_scan_err(files: Seq<(Seq<char>, Seq<char>)>, n: int)
    requires
        0 <= n <= files.len(),
        scan_spec(files.take(n)) is Err,
    ensures
        scan_spec(files) == scan_spec(files.take(n)),
    decreases files.len() - n,
{
    if n < files.len() {
        assert(files.take(n + 1).drop_last() == files.take(n));
        lemma_scan_err(files, n + 1);
    } else {
        assert(files.take(n) == files);
    }
}

/// Records the versions that the captures of one file's matches name, in
/// order, under the file's path; the first capture that is no version stops
/// with its error. See `scan_captures`.
pub fn record_captures(found: &mut TrackedVersions, path: &str, caps: &Vec<Option<String>>) -> (r: Result<
    (),
    VersionError,
>)
    requires
        old(found).wf(),
    ensures
        match scan_captures(old(found)@, captures_view(caps@), path@) {
            Ok(m) => r is Ok && final(found).wf() && final(found)@ == m,
            Err((kind, value)) => r matches Err(e) && e.kind == kind && e.value@ == value,
        },
{
    let ghost cv = captures_view(caps@);
    let ghost m0 = found@;
    assert(m0 == old(found)@);
    let mut j: usize = 0;
    assert(cv.take(0) == Seq::<Option<Seq<char>>>::empty());
    while j < caps.len()
        invariant
            0 <= j <= caps.len(),
            cv == captures_view(caps@),
            m0 == old(found)@,
            found.wf(),
            scan_captures(m0, cv.take(j as int), path@) == Ok::<Map<RustMinorVersion, Set<Seq<char>>>, (VersionErrorKind, Seq<char>)>(found@),
        decreases caps.len() - j,
    {
        assert(cv.take(j + 1).drop_last() == cv.take(j as int));
        assert(cv.take(j + 1).last() == cv[j as int]);
        assert(cv[j as int] == option_view(caps@[j as int]));
        match &caps[j] {
            None => {},
            Some(c) => {
                match RustMinorVersion::parse(c.as_str()) {
                    Err(e) => {
                        proof {
                            assert(cv[j as int] == Some(c@));
                            assert(scan_captures(m0, cv.take(j + 1), path@) == Err::<
                                Map<RustMinorVersion, Set<Seq<char>>>,
                                (VersionErrorKind, Seq<char>),
                            >((e.kind, c@)));
                            lemma_scan_captures_err(m0, cv, path@, j + 1);
                        }
                        return Err(e);
                    },
                    Ok(v) => {
                        found.insert(v, path.to_owned());
                    },
                }
            },
        }
        j = j + 1;
    }
    assert(cv.take(caps.len() as int) == cv);
    Ok(())
}

/// Finds the Rust baselines that the skill files mention.
pub fn scan_tracked_rust_versions(files: &Vec<SkillFile>) -> (r: Result<TrackedVersions, ScanError>)
    ensures
        !regex_accepts_pattern(rust_version_pattern()) ==> r matches Err(ScanError::PatternRejected),
        regex_accepts_pattern(rust_version_pattern()) ==> match scan_spec(skill_files_view(files@)) {
            Ok(m) => r matches Ok(t) && t.wf() && t@ == m,
            Err((kind, value)) => r matches Err(ScanError::Version(e)) && e.kind == kind && e.value@
                == value,
        },
{
    let pattern = match compile_pattern("(?i)\\brust\\s+([0-9]+\\.[0-9]+)(?:\\.[0-9]+)?\\b") {
        Ok(p) => p,
        Err(_) => {
            return Err(ScanError::PatternRejected);
        },
    };
    let ghost fv = skill_files_view(files@);
    let mut found = TrackedVersions::new();
    let mut i: usize = 0;
    assert(fv.take(0) == Seq::<(Seq<char>, Seq<char>)>::empty());
    while i < files.len()
        invariant
            0 <= i <= files.len(),
            fv == skill_files_view(files@),
            pattern.pattern() == rust_version_pattern(),
            regex_accepts_pattern(rust_version_pattern()),
            found.wf(),
            scan_spec(fv.take(i as int)) == Ok::<Map<RustMinorVersion, Set<Seq<char>>>, (VersionErrorKind, Seq<char>)>(found@),
        decreases files.len() - i,
    {
        let file = &files[i];
        assert(fv[i as int] == (file.path@, file.text@));
        let path = normalize_path_text(file.path.as_str());
        let caps = group_captures(&pattern, file.text.as_str(), 1);
        let ghost cv = captures_view(caps@);
        let ghost m0 = found@;
        assert(fv.take(i + 1).drop_last() == fv.take(i as int));
        assert(fv.take(i + 1).last() == fv[i as int]);
        match record_captures(&mut found, path.as_str(), &caps) {
            Ok(()) => {},
            Err(e) => {
                proof {
                    lemma_scan_err(fv, i + 1);
                }
                return Err(ScanError::Version(e));
            },
        }
        i = i + 1;
    }
    assert(fv.take(files.len() as int) == fv);
    Ok(found)
}

} // verus!
