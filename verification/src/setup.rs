use vstd::prelude::*;
use crate::report::lines_text;
use crate::runner::Setup;
use crate::text::{chars_of, push_str_chars, push_vec, string_of};

verus! {

// ---------------------------------------------------------------------------
// The toml crate
// ---------------------------------------------------------------------------

#[verifier::external_type_specification]
#[verifier::external_body]
#[verifier::reject_recursive_types(K)]
#[verifier::reject_recursive_types(V)]
pub struct ExTomlMap<K, V>(toml::map::Map<K, V>);

#[verifier::external_type_specification]
#[verifier::external_body]
pub struct ExTomlValue(toml::Value);

#[verifier::external_type_specification]
#[verifier::external_body]
pub struct ExTomlDeError(toml::de::Error);

#[verifier::external_type_specification]
#[verifier::external_body]
pub struct ExTomlSerError(toml::ser::Error);

/// The entries of the table that `path` leads to from `table`, each key
/// with its value written as TOML (`Display`), in the table's order; `None`
/// where a key along the path is missing or holds no table.
pub uninterp spec fn toml_table_at(
    table: toml::map::Map<String, toml::Value>,
    path: Seq<Seq<char>>,
) -> Option<Seq<(Seq<char>, Seq<char>)>>;

/// The string that `path` leads to from `table`; `None` where a key along the
/// path is missing or the value there is no string.
pub uninterp spec fn toml_string_at(table: toml::map::Map<String, toml::Value>, path: Seq<Seq<char>>) -> Option<
    Seq<char>,
>;

/// `toml::to_string` of the table: its TOML text, or `None` where writing fails.
pub uninterp spec fn toml_written(table: toml::map::Map<String, toml::Value>) -> Option<Seq<char>>;

/// `toml::to_string` of the table with `key` taken out (the other keys in
/// their order).
pub uninterp spec fn toml_written_without(table: toml::map::Map<String, toml::Value>, key: Seq<char>) -> Option<
    Seq<char>,
>;

/// Of the table that `toml::from_str` reads from `source`: the entries of the
/// table at `path`, as `toml_table_at` gives them; `None` where `source` is
/// not a TOML document (for every path) or the path leads to no table.
pub uninterp spec fn toml_parsed_table(source: Seq<char>, path: Seq<Seq<char>>) -> Option<
    Seq<(Seq<char>, Seq<char>)>,
>;

/// Of the table that `toml::from_str` reads from `source`: the string at
/// `path`, as `toml_string_at` gives it.
pub uninterp spec fn toml_parsed_string(source: Seq<char>, path: Seq<Seq<char>>) -> Option<Seq<char>>;

/// Of the table that `toml::from_str` reads from `source`: its TOML text with
/// `key` taken out, as `toml_written_without` gives it.
pub uninterp spec fn toml_parsed_written_without(source: Seq<char>, key: Seq<char>) -> Option<Seq<char>>;

/// The keys of a table, in its order.
pub open spec fn toml_keys(table: toml::map::Map<String, toml::Value>) -> Seq<Seq<char>> {
    match toml_table_at(table, Seq::empty()) {
        Some(entries) => entries.map_values(|e: (Seq<char>, Seq<char>)| e.0),
        None => Seq::empty(),
    }
}

/// The keys of the table that `toml::from_str` reads from `source`, or `None`
/// where `source` is not a TOML document.
pub open spec fn toml_parsed_keys(source: Seq<char>) -> Option<Seq<Seq<char>>> {
    match toml_parsed_table(source, Seq::empty()) {
        Some(entries) => Some(entries.map_values(|e: (Seq<char>, Seq<char>)| e.0)),
        None => None,
    }
}

/// `toml::from_str::<toml::Table>`: reads a TOML document. It fails exactly
/// where `source` is not one; what the table holds, what it is written as,
/// and what it is written as without a key, are those of the document.
#[verifier::external_body]
fn parse_toml_table(source: &str) -> (r: Result<toml::map::Map<String, toml::Value>, toml::de::Error>)
    ensures
        r is Ok <==> toml_parsed_table(source@, Seq::empty()) is Some,
        r matches Ok(t) ==> forall|p: Seq<Seq<char>>| #[trigger] toml_table_at(t, p) == toml_parsed_table(source@, p),
        r matches Ok(t) ==> forall|p: Seq<Seq<char>>| #[trigger] toml_string_at(t, p) == toml_parsed_string(source@, p),
        r matches Ok(t) ==> forall|k: Seq<char>| #[trigger] toml_written_without(t, k)
            == toml_parsed_written_without(source@, k),
{
    toml::from_str::<toml::Table>(source)
}

/// `toml::map::Map::get`, keeping a table value: the table under `key`,
/// present exactly when `key` holds a table; below it, every path leads where
/// it leads from `key` in `table`, and where there is none, no path leads
/// anywhere through `key`.
#[verifier::external_body]
fn table_get_table<'a>(table: &'a toml::map::Map<String, toml::Value>, key: &str) -> (r: Option<
    &'a toml::map::Map<String, toml::Value>,
>)
    ensures
        r is Some <==> toml_table_at(*table, seq![key@]) is Some,
        r is None ==> forall|p: Seq<Seq<char>>| #[trigger] toml_table_at(*table, seq![key@] + p) is None,
        r matches Some(sub) ==> forall|p: Seq<Seq<char>>| #[trigger] toml_table_at(*sub, p) == toml_table_at(
            *table,
            seq![key@] + p,
        ),
{
    match table.get(key) {
        Some(toml::Value::Table(sub)) => Some(sub),
        _ => None,
    }
}

/// `toml::map::Map::get`, keeping a string value: the string under `key`,
/// present exactly when `key` holds a string.
#[verifier::external_body]
fn table_get_str<'a>(table: &'a toml::map::Map<String, toml::Value>, key: &str) -> (r: Option<&'a str>)
    ensures
        match r {
            Some(s) => toml_string_at(*table, seq![key@]) == Some(s@),
            None => toml_string_at(*table, seq![key@]) is None,
        },
{
    match table.get(key) {
        Some(toml::Value::String(s)) => Some(s.as_str()),
        _ => None,
    }
}

/// `toml::map::Map::remove`: takes out the value under `key`, present
/// exactly when the table has the key; the table is then written as it was
/// written without the key.
#[verifier::external_body]
fn table_remove(table: &mut toml::map::Map<String, toml::Value>, key: &str) -> (r: Option<toml::Value>)
    ensures
        r is Some <==> toml_keys(*old(table)).contains(key@),
        toml_written(*final(table)) == toml_written_without(*old(table), key@),
{
    table.remove(key)
}

/// `toml::map::Map::iter`: the entries of the table in its order, each key
/// with its value written as TOML (`Display`).
#[verifier::external_body]
fn table_entries(table: &toml::map::Map<String, toml::Value>) -> (r: Vec<(String, String)>)
    ensures
        toml_table_at(*table, Seq::empty()) == Some(
            r@.map_values(|e: (String, String)| (e.0@, e.1@)),
        ),
{
    table.iter().map(|(key, value)| (key.clone(), value.to_string())).collect()
}

/// `toml::to_string`: the table written as a TOML document, or the error
/// where writing fails.
#[verifier::external_body]
fn table_text(table: &toml::map::Map<String, toml::Value>) -> (r: Result<String, toml::ser::Error>)
    ensures
        match toml_written(*table) {
            Some(text) => r matches Ok(s) && s@ == text,
            None => r is Err,
        },
{
    toml::to_string(table)
}

// ---------------------------------------------------------------------------
// Snippet setups
// ---------------------------------------------------------------------------

/// Why a skill's snippet setup cannot be used.
#[derive(Debug)]
pub enum SetupError {
    InvalidToml(toml::de::Error),
    MissingRustVersion,
    RustVersionNotString,
    Unwritable(toml::ser::Error),
}

/// The kind of a `SetupError`, without the TOML error it may carry.
pub enum SetupErrorKind {
    InvalidToml,
    MissingRustVersion,
    RustVersionNotString,
    Unwritable,
}

impl SetupError {
    pub open spec fn kind(&self) -> SetupErrorKind {
        match self {
            SetupError::InvalidToml(_) => SetupErrorKind::InvalidToml,
            SetupError::MissingRustVersion => SetupErrorKind::MissingRustVersion,
            SetupError::RustVersionNotString => SetupErrorKind::RustVersionNotString,
            SetupError::Unwritable(_) => SetupErrorKind::Unwritable,
        }
    }

    pub open spec fn message_spec(self) -> Seq<char> {
        match self {
            SetupError::InvalidToml(_) => "invalid snippet setup"@,
            SetupError::MissingRustVersion => "snippet setup needs rust-version"@,
            SetupError::RustVersionNotString => "snippet setup rust-version must be a string"@,
            SetupError::Unwritable(_) => "snippet setup cannot be written back as TOML"@,
        }
    }

    /// The message that reports this error (a TOML error reports its own).
    pub fn message(&self) -> (r: String)
        ensures
            r@ == self.message_spec(),
    {
        match self {
            SetupError::InvalidToml(_) => "invalid snippet setup".to_owned(),
            SetupError::MissingRustVersion => "snippet setup needs rust-version".to_owned(),
            SetupError::RustVersionNotString => "snippet setup rust-version must be a string".to_owned(),
            SetupError::Unwritable(_) => "snippet setup cannot be written back as TOML".to_owned(),
        }
    }
}

/// What a snippet setup reads as: the `rust-version` string and the TOML
/// text of the rest of the document, or the error that stops it.
pub open spec fn setup_spec(source: Seq<char>) -> Result<(Seq<char>, Seq<char>), SetupErrorKind> {
    match toml_parsed_keys(source) {
        None => Err(SetupErrorKind::InvalidToml),
        Some(keys) => if !keys.contains("rust-version"@) {
            Err(SetupErrorKind::MissingRustVersion)
        } else {
            match toml_parsed_string(source, seq!["rust-version"@]) {
                None => Err(SetupErrorKind::RustVersionNotString),
                Some(version) => match toml_parsed_written_without(source, "rust-version"@) {
                    None => Err(SetupErrorKind::Unwritable),
                    Some(cargo) => Ok((version, cargo)),
                },
            }
        },
    }
}

/// Reads a skill's snippet setup: its `rust-version` string, and the rest of
/// the document written back as TOML for the generated manifest.
pub fn load_setup(source: &str) -> (r: Result<Setup, SetupError>)
    ensures
        match setup_spec(source@) {
            Ok((version, cargo)) => r matches Ok(setup) && setup.rust_version@ == version && setup.cargo@ == cargo,
            Err(kind) => r matches Err(e) && e.kind() == kind,
        },
{
    let mut table = match parse_toml_table(source) {
        Ok(t) => t,
        Err(e) => {
            return Err(SetupError::InvalidToml(e));
        },
    };
    proof {
        assert(toml_table_at(table, Seq::empty()) == toml_parsed_table(source@, Seq::empty()));
        assert(toml_string_at(table, seq!["rust-version"@]) == toml_parsed_string(source@, seq!["rust-version"@]));
        assert(toml_written_without(table, "rust-version"@) == toml_parsed_written_without(source@, "rust-version"@));
    }
    let version = match table_get_str(&table, "rust-version") {
        Some(s) => Some(s.to_owned()),
        None => None,
    };
    let removed = table_remove(&mut table, "rust-version");
    if removed.is_none() {
        return Err(SetupError::MissingRustVersion);
    }
    let rust_version = match version {
        Some(s) => s,
        None => {
            return Err(SetupError::RustVersionNotString);
        },
    };
    let cargo = match table_text(&table) {
        Ok(text) => text,
        Err(e) => {
            return Err(SetupError::Unwritable(e));
        },
    };
    Ok(Setup { rust_version, cargo })
}

// ---------------------------------------------------------------------------
// Workspace lints
// ---------------------------------------------------------------------------

/// Why the workspace lints cannot be copied.
#[derive(Debug)]
pub enum LintsError {
    InvalidToml(toml::de::Error),
    MissingLints,
    GroupNotTable { name: String },
}

impl LintsError {
    pub open spec fn message_spec(self) -> Seq<char> {
        match self {
            LintsError::InvalidToml(_) => "invalid workspace manifest"@,
            LintsError::MissingLints => "workspace manifest needs workspace.lints"@,
            LintsError::GroupNotTable { name } => "workspace lint group "@ + name@ + " must be a table"@,
        }
    }

    /// The message that reports this error (a TOML error reports its own).
    pub fn message(&self) -> (r: String)
        ensures
            r@ == self.message_spec(),
    {
        match self {
            LintsError::InvalidToml(_) => "invalid workspace manifest".to_owned(),
            LintsError::MissingLints => "workspace manifest needs workspace.lints".to_owned(),
            LintsError::GroupNotTable { name } => {
                let mut out = chars_of("workspace lint group ");
                push_str_chars(&mut out, name.as_str());
                push_str_chars(&mut out, " must be a table");
                string_of(&out)
            },
        }
    }
}

/// The lines of one lint group in a generated manifest: its header, one
/// `lint = setting` line per lint, and a blank line.
pub open spec fn lint_group_lines(name: Seq<char>, settings: Seq<(Seq<char>, Seq<char>)>) -> Seq<Seq<char>> {
    seq!["[workspace.lints."@ + name + "]"@] + settings.map_values(|s: (Seq<char>, Seq<char>)| s.0 + " = "@ + s.1)
        + seq![Seq::<char>::empty()]
}

/// Writes one lint group; see `lint_group_lines`.
pub fn lint_group_text(name: &str, settings: &Vec<(String, String)>) -> (r: String)
    ensures
        r@ == lines_text(
            lint_group_lines(name@, settings@.map_values(|s: (String, String)| (s.0@, s.1@))),
        ),
{
    let ghost sv = settings@.map_values(|s: (String, String)| (s.0@, s.1@));
    let ghost body = sv.map_values(|s: (Seq<char>, Seq<char>)| s.0 + " = "@ + s.1);
    let mut out = chars_of("[workspace.lints.");
    push_str_chars(&mut out, name);
    push_str_chars(&mut out, "]\n");
    let ghost mut lines: Seq<Seq<char>> = seq!["[workspace.lints."@ + name@ + "]"@];
    proof {
        reveal_strlit("]\n");
        reveal_strlit("]");
        assert(lines.drop_last() =~= Seq::<Seq<char>>::empty());
        assert(lines_text(Seq::<Seq<char>>::empty()) == Seq::<char>::empty());
        assert(lines_text(lines) == Seq::<char>::empty() + lines[0] + seq!['\n']);
        assert(out@ =~= lines_text(lines));
    }
    let mut i: usize = 0;
    while i < settings.len()
        invariant
            0 <= i <= settings.len(),
            sv == settings@.map_values(|s: (String, String)| (s.0@, s.1@)),
            body == sv.map_values(|s: (Seq<char>, Seq<char>)| s.0 + " = "@ + s.1),
            lines == seq!["[workspace.lints."@ + name@ + "]"@] + body.take(i as int),
            out@ == lines_text(lines),
        decreases settings.len() - i,
    {
        let mut line = chars_of(settings[i].0.as_str());
        push_str_chars(&mut line, " = ");
        push_str_chars(&mut line, settings[i].1.as_str());
        assert(line@ == body[i as int]);
        push_vec(&mut out, &line);
        out.push('\n');
        proof {
            let next = lines.push(line@);
            assert(next.drop_last() == lines);
            assert(body.take(i + 1) == body.take(i as int).push(body[i as int]));
            lines = next;
        }
        i = i + 1;
    }
    out.push('\n');
    proof {
        let next = lines.push(Seq::<char>::empty());
        assert(next.drop_last() == lines);
        assert(body.take(settings.len() as int) == body);
        assert(lines_text(next) =~= out@);
        lines = next;
        assert(lines =~= lint_group_lines(name@, sv));
    }
    string_of(&out)
}

/// The path of the workspace lint groups in a workspace manifest.
pub open spec fn lints_path() -> Seq<Seq<char>> {
    seq!["workspace"@, "lints"@]
}

/// The text of the lint groups `groups` of the manifest `source`, in order,
/// each written as `lint_group_lines` says; or the name of the first group
/// that is not a table.
pub open spec fn lint_groups_text(source: Seq<char>, groups: Seq<(Seq<char>, Seq<char>)>) -> Result<
    Seq<char>,
    Seq<char>,
>
    decreases groups.len(),
{
    if groups.len() == 0 {
        Ok(Seq::empty())
    } else {
        match lint_groups_text(source, groups.drop_last()) {
            Err(name) => Err(name),
            Ok(text) => {
                let name = groups.last().0;
                match toml_parsed_table(source, lints_path().push(name)) {
                    None => Err(name),
                    Some(settings) => Ok(text + lines_text(lint_group_lines(name, settings))),
                }
            },
        }
    }
}

/// Why the workspace lints cannot be copied, as a plain value.
pub enum LintsErrorView {
    InvalidToml,
    MissingLints,
    GroupNotTable { name: Seq<char> },
}

impl LintsError {
    pub open spec fn view_kind(&self) -> LintsErrorView {
        match self {
            LintsError::InvalidToml(_) => LintsErrorView::InvalidToml,
            LintsError::MissingLints => LintsErrorView::MissingLints,
            LintsError::GroupNotTable { name } => LintsErrorView::GroupNotTable { name: name@ },
        }
    }
}

/// What copying the workspace lints of the manifest `source` gives.
pub open spec fn workspace_lints_spec(source: Seq<char>) -> Result<Seq<char>, LintsErrorView> {
    if toml_parsed_table(source, Seq::empty()) is None {
        Err(LintsErrorView::InvalidToml)
    } else {
        match toml_parsed_table(source, lints_path()) {
            None => Err(LintsErrorView::MissingLints),
            Some(groups) => match lint_groups_text(source, groups) {
                Ok(text) => Ok(text),
                Err(name) => Err(LintsErrorView::GroupNotTable { name }),
            },
        }
    }
}

/// The lint groups of the workspace manifest, written for a generated
/// manifest: every group under `workspace.lints` in the table's order, each
/// with its lints; `workspace.lints` must be a table of tables.
pub fn load_workspace_lints(source: &str) -> (r: Result<String, LintsError>)
    ensures
        match workspace_lints_spec(source@) {
            Ok(text) => r matches Ok(s) && s@ == text,
            Err(e) => r matches Err(err) && err.view_kind() == e,
        },
{
    let manifest = match parse_toml_table(source) {
        Ok(t) => t,
        Err(e) => {
            return Err(LintsError::InvalidToml(e));
        },
    };
    let workspace = match table_get_table(&manifest, "workspace") {
        Some(t) => t,
        None => {
            proof {
                assert(toml_table_at(manifest, lints_path()) == toml_parsed_table(source@, lints_path()));
                assert(toml_table_at(manifest, seq!["workspace"@] + seq!["lints"@]) is None);
                assert(seq!["workspace"@] + seq!["lints"@] =~= lints_path());
            }
            return Err(LintsError::MissingLints);
        },
    };
    let lints = match table_get_table(workspace, "lints") {
        Some(t) => t,
        None => {
            proof {
                assert(toml_table_at(*workspace, seq!["lints"@]) == toml_table_at(
                    manifest,
                    seq!["workspace"@] + seq!["lints"@],
                ));
                assert(seq!["workspace"@] + seq!["lints"@] =~= lints_path());
                assert(toml_table_at(manifest, lints_path()) == toml_parsed_table(source@, lints_path()));
            }
            return Err(LintsError::MissingLints);
        },
    };
    proof {
        assert forall|p: Seq<Seq<char>>| #[trigger] toml_table_at(*lints, p) == toml_parsed_table(
            source@,
            lints_path() + p,
        ) by {
            assert(toml_table_at(*lints, p) == toml_table_at(*workspace, seq!["lints"@] + p));
            assert(toml_table_at(*workspace, seq!["lints"@] + p) == toml_table_at(
                manifest,
                seq!["workspace"@] + (seq!["lints"@] + p),
            ));
            assert(seq!["workspace"@] + (seq!["lints"@] + p) =~= lints_path() + p);
            assert(toml_table_at(manifest, lints_path() + p) == toml_parsed_table(source@, lints_path() + p));
        }
        assert(lints_path() + Seq::<Seq<char>>::empty() =~= lints_path());
        assert(toml_table_at(*lints, Seq::empty()) == toml_parsed_table(source@, lints_path()));
    }
    let groups = table_entries(lints);
    let ghost gv = groups@.map_values(|e: (String, String)| (e.0@, e.1@));
    let mut out = String::new();
    let mut i: usize = 0;
    while i < groups.len()
        invariant
            0 <= i <= groups.len(),
            gv == groups@.map_values(|e: (String, String)| (e.0@, e.1@)),
            toml_parsed_table(source@, Seq::empty()) is Some,
            toml_parsed_table(source@, lints_path()) == Some(gv),
            forall|p: Seq<Seq<char>>| #[trigger] toml_table_at(*lints, p) == toml_parsed_table(source@, lints_path() + p),
            lint_groups_text(source@, gv.take(i as int)) == Ok::<Seq<char>, Seq<char>>(out@),
        decreases groups.len() - i,
    {
        let name = &groups[i].0;
        assert(gv.take(i + 1).drop_last() =~= gv.take(i as int));
        assert(gv.take(i + 1).last() == gv[i as int]);
        assert(seq![name@] =~= Seq::<Seq<char>>::empty().push(name@));
        assert(lints_path() + seq![name@] =~= lints_path().push(name@));
        let config = match table_get_table(lints, name.as_str()) {
            Some(t) => t,
            None => {
                proof {
                    assert(toml_table_at(*lints, seq![name@]) == toml_parsed_table(source@, lints_path() + seq![name@]));
                    assert(lint_groups_text(source@, gv.take(i + 1)) == Err::<Seq<char>, Seq<char>>(name@));
                    lemma_groups_error_persists(source@, gv, i + 1);
                }
                return Err(LintsError::GroupNotTable { name: name.as_str().to_owned() });
            },
        };
        let settings = table_entries(config);
        proof {
            assert(toml_table_at(*config, Seq::empty()) == toml_table_at(*lints, seq![name@] + Seq::empty()));
            assert(seq![name@] + Seq::<Seq<char>>::empty() =~= seq![name@]);
        }
        let group = lint_group_text(name.as_str(), &settings);
        proof {
            assert(toml_table_at(*lints, seq![name@]) == toml_parsed_table(source@, lints_path() + seq![name@]));
            assert(lint_groups_text(source@, gv.take(i + 1)) == Ok::<Seq<char>, Seq<char>>(out@ + group@));
        }
        out.append(group.as_str());
        i = i + 1;
    }
    proof {
        assert(gv.take(groups.len() as int) =~= gv);
    }
    Ok(out)
}

/// Once the groups up to some point stop at a group that is not a table, so
/// do all the groups.
proof fn lemma_groups_error_persists(source: Seq<char>, groups: Seq<(Seq<char>, Seq<char>)>, k: int)
    requires
        0 <= k <= groups.len(),
        lint_groups_text(source, groups.take(k)) is Err,
    ensures
        lint_groups_text(source, groups) == lint_groups_text(source, groups.take(k)),
    decreases groups.len() - k,
{
    if k < groups.len() {
        assert(groups.take(k + 1).drop_last() =~= groups.take(k));
        lemma_groups_error_persists(source, groups, k + 1);
    } else {
        assert(groups.take(k) =~= groups);
    }
}

} // verus!
