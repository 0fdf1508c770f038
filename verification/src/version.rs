use vstd::prelude::*;
use crate::text::{
    chars_of, decimal, is_digit, lemma_decimal_digits, lemma_parse_decimal, lemma_split_append_no_sep,
    lemma_split_append_sep, lemma_split_no_sep, parse_u64, parse_u64_spec, pieces_view, push_decimal,
    push_str_chars, split_at_any, split_spec, string_of,
};

verus! {

/// A Rust release line, `major.minor`. A patch number, when one is given, is
/// checked and then dropped: `1.97.1` and `1.97` are the same line.
#[derive(Clone, Copy, Debug, PartialEq, Eq, Structural, PartialOrd, Ord, Hash)]
pub struct RustMinorVersion {
    pub major: u64,
    pub minor: u64,
}

/// Why a text is not a Rust version.
#[derive(Clone, Copy, Debug, PartialEq, Eq, Structural)]
pub enum VersionErrorKind {
    MissingMinor,
    InvalidPatch,
    WrongForm,
    InvalidMajor,
    InvalidMinor,
}

/// A rejected version text, with the reason.
#[derive(Clone, Debug)]
pub struct VersionError {
    pub kind: VersionErrorKind,
    pub value: String,
}

/// `a` is a later release line than `b` (the order of `(major, minor)` pairs).
pub open spec fn version_newer(a: RustMinorVersion, b: RustMinorVersion) -> bool {
    a.major > b.major || (a.major == b.major && a.minor > b.minor)
}

/// How a version text is read: `major.minor` or `major.minor.patch`, each part
/// a `u64` as `u64::from_str` reads it. The checks come in this order: a
/// missing minor part, an unreadable patch, a fourth part, an unreadable
/// major, an unreadable minor.
pub open spec fn version_parse_spec(s: Seq<char>) -> Result<RustMinorVersion, VersionErrorKind> {
    let parts = split_spec(s, seq!['.']);
    if parts.len() < 2 {
        Err(VersionErrorKind::MissingMinor)
    } else if parts.len() >= 3 && parse_u64_spec(parts[2]) is None {
        Err(VersionErrorKind::InvalidPatch)
    } else if parts.len() > 3 {
        Err(VersionErrorKind::WrongForm)
    } else if parse_u64_spec(parts[0]) is None {
        Err(VersionErrorKind::InvalidMajor)
    } else if parse_u64_spec(parts[1]) is None {
        Err(VersionErrorKind::InvalidMinor)
    } else {
        Ok(
            RustMinorVersion {
                major: parse_u64_spec(parts[0])->0,
                minor: parse_u64_spec(parts[1])->0,
            },
        )
    }
}

/// The message that goes with a rejected version text.
pub open spec fn version_error_message(kind: VersionErrorKind, value: Seq<char>) -> Seq<char> {
    match kind {
        VersionErrorKind::MissingMinor => "missing Rust minor version in `"@ + value + "`"@,
        VersionErrorKind::InvalidPatch => "invalid Rust patch version in `"@ + value + "`"@,
        VersionErrorKind::WrongForm => "Rust version must be in `major.minor` or `major.minor.patch` form: `"@
            + value + "`"@,
        VersionErrorKind::InvalidMajor => "invalid Rust major version in `"@ + value + "`"@,
        VersionErrorKind::InvalidMinor => "invalid Rust minor version in `"@ + value + "`"@,
    }
}

impl RustMinorVersion {
    /// The text of the version: `major.minor`, both in decimal.
    pub open spec fn text(self) -> Seq<char> {
        decimal(self.major as nat) + seq!['.'] + decimal(self.minor as nat)
    }

    /// Reads a version text; see `version_parse_spec`.
    pub fn parse(value: &str) -> (r: Result<RustMinorVersion, VersionError>)
        ensures
            match r {
                Ok(v) => version_parse_spec(value@) == Ok::<RustMinorVersion, VersionErrorKind>(v),
                Err(e) => version_parse_spec(value@) == Err::<RustMinorVersion, VersionErrorKind>(
                    e.kind,
                ) && e.value@ == value@,
            },
    {
        let chars = chars_of(value);
        let seps = vec!['.'];
        assert(seps@ == seq!['.']);
        let parts = split_at_any(&chars, &seps);
        let ghost pv = pieces_view(parts@);
        assert(pv.len() == parts@.len());
        if parts.len() < 2 {
            return Err(VersionError { kind: VersionErrorKind::MissingMinor, value: value.to_owned() });
        }
        if parts.len() >= 3 {
            assert(pv[2] == parts@[2]@);
            if parse_u64(&parts[2]).is_none() {
                return Err(VersionError { kind: VersionErrorKind::InvalidPatch, value: value.to_owned() });
            }
        }
        if parts.len() > 3 {
            return Err(VersionError { kind: VersionErrorKind::WrongForm, value: value.to_owned() });
        }
        assert(pv[0] == parts@[0]@);
        assert(pv[1] == parts@[1]@);
        let major = match parse_u64(&parts[0]) {
            Some(m) => m,
            None => {
                return Err(VersionError { kind: VersionErrorKind::InvalidMajor, value: value.to_owned() });
            },
        };
        let minor = match parse_u64(&parts[1]) {
            Some(m) => m,
            None => {
                return Err(VersionError { kind: VersionErrorKind::InvalidMinor, value: value.to_owned() });
            },
        };
        Ok(RustMinorVersion { major, minor })
    }

    /// Whether `self` is a later release line than `other`.
    pub fn is_newer_than(&self, other: &RustMinorVersion) -> (r: bool)
        ensures
            r == version_newer(*self, *other),
    {
        self.major > other.major || (self.major == other.major && self.minor > other.minor)
    }

    /// Appends the text of the version.
    pub fn push_text(&self, out: &mut Vec<char>)
        ensures
            final(out)@ == old(out)@ + self.text(),
    {
        push_decimal(out, self.major);
        out.push('.');
        push_decimal(out, self.minor);
    }

    /// The text of the version, `major.minor`.
    pub fn to_string(&self) -> (r: String)
        ensures
            r@ == self.text(),
    {
        let mut out: Vec<char> = Vec::new();
        self.push_text(&mut out);
        string_of(&out)
    }
}

impl VersionError {
    /// The message that reports this error.
    pub fn message(&self) -> (r: String)
        ensures
            r@ == version_error_message(self.kind, self.value@),
    {
        let mut out: Vec<char> = Vec::new();
        match self.kind {
            VersionErrorKind::MissingMinor => push_str_chars(&mut out, "missing Rust minor version in `"),
            VersionErrorKind::InvalidPatch => push_str_chars(&mut out, "invalid Rust patch version in `"),
            VersionErrorKind::WrongForm => push_str_chars(
                &mut out,
                "Rust version must be in `major.minor` or `major.minor.patch` form: `",
            ),
            VersionErrorKind::InvalidMajor => push_str_chars(&mut out, "invalid Rust major version in `"),
            VersionErrorKind::InvalidMinor => push_str_chars(&mut out, "invalid Rust minor version in `"),
        }
        push_str_chars(&mut out, self.value.as_str());
        push_str_chars(&mut out, "`");
        string_of(&out)
    }
}

impl std::str::FromStr for RustMinorVersion {
    type Err = VersionError;

    fn from_str(value: &str) -> (r: Result<RustMinorVersion, VersionError>)
        ensures
            match r {
                Ok(v) => version_parse_spec(value@) == Ok::<RustMinorVersion, VersionErrorKind>(v),
                Err(e) => version_parse_spec(value@) == Err::<RustMinorVersion, VersionErrorKind>(
                    e.kind,
                ) && e.value@ == value@,
            },
    {
        RustMinorVersion::parse(value)
    }
}

/// The text of a version reads back as that same version.
pub proof fn lemma_version_text_round_trip(v: RustMinorVersion)
    ensures
        version_parse_spec(v.text()) == Ok::<RustMinorVersion, VersionErrorKind>(v),
{
    let seps = seq!['.'];
    let a = decimal(v.major as nat);
    let b = decimal(v.minor as nat);
    lemma_decimal_digits(v.major as nat);
    lemma_decimal_digits(v.minor as nat);
    assert forall|i: int| 0 <= i < a.len() implies !seps.contains(#[trigger] a[i]) by {
        assert(is_digit(a[i]));
        if seps.contains(a[i]) {
            assert(seps[0] == a[i]);
        }
    }
    assert forall|i: int| 0 <= i < b.len() implies !seps.contains(#[trigger] b[i]) by {
        assert(is_digit(b[i]));
        if seps.contains(b[i]) {
            assert(seps[0] == b[i]);
        }
    }
    lemma_split_no_sep(a, seps);
    assert(seps.contains('.')) by {
        assert(seps[0] == '.');
    }
    lemma_split_append_sep(a, '.', seps);
    assert(a.push('.') == a + seq!['.']);
    let e = Seq::<char>::empty();
    assert(split_spec(a + seq!['.'], seps) == seq![a, e]);
    lemma_split_append_no_sep(a + seq!['.'], b, seps);
    assert(seq![a, e].update(1, e + b) =~= seq![a, b]);
    assert(split_spec(v.text(), seps) == seq![a, b]);
    lemma_parse_decimal(v.major);
    lemma_parse_decimal(v.minor);
}

/// Among versions, "newer than" is a strict total order.
pub proof fn lemma_newer_total_order(a: RustMinorVersion, b: RustMinorVersion, c: RustMinorVersion)
    ensures
        !version_newer(a, a),
        version_newer(a, b) ==> !version_newer(b, a),
        version_newer(a, b) && version_newer(b, c) ==> version_newer(a, c),
        a == b || version_newer(a, b) || version_newer(b, a),
{
}

} // verus!
