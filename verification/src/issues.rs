use vstd::prelude::*;
use crate::report::{build_issue_body, issue_body_lines, lines_text};
use crate::sync::RustSyncState;
use crate::text::{ascii_lower, chars_of, push_str_chars, string_of, to_ascii_lowercase};

verus! {

/// What `check-rust-stable` does once the sync state is known.
#[derive(Debug)]
pub enum SyncAction {
    /// Nothing to open: report this line.
    Report(String),
    /// Look for an open sync issue and open one if there is none.
    OpenIssue,
}

/// An open issue of the repository, as the issue list gives it.
pub struct OpenIssue {
    pub title: String,
    pub html_url: String,
    pub is_pull_request: bool,
}

/// What to do about the sync issue, given the open issues.
#[derive(Debug)]
pub enum IssuePlan {
    /// A matching issue is open: report this line.
    AlreadyOpen(String),
    /// No matching issue: create one with this title and body.
    Create { title: String, body: String },
}

/// `str::eq_ignore_ascii_case`: equal once ASCII letters are lowercased.
pub open spec fn eq_ignore_ascii_case_spec(a: Seq<char>, b: Seq<char>) -> bool {
    a.len() == b.len() && forall|i: int| 0 <= i < a.len() ==> ascii_lower(#[trigger] a[i]) == ascii_lower(b[i])
}

/// Whether `a` and `b` are equal up to the case of ASCII letters.
pub fn eq_ignore_ascii_case(a: &str, b: &str) -> (r: bool)
    ensures
        r == eq_ignore_ascii_case_spec(a@, b@),
{
    let x = chars_of(a);
    let y = chars_of(b);
    if x.len() != y.len() {
        return false;
    }
    let mut i: usize = 0;
    while i < x.len()
        invariant
            0 <= i <= x.len(),
            x.len() == y.len(),
            x@ == a@,
            y@ == b@,
            forall|j: int| 0 <= j < i ==> ascii_lower(#[trigger] x@[j]) == ascii_lower(y@[j]),
        decreases x.len() - i,
    {
        if to_ascii_lowercase(x[i]) != to_ascii_lowercase(y[i]) {
            return false;
        }
        i = i + 1;
    }
    true
}

/// The page of the first open issue (not a pull request) whose title is the
/// sync title up to ASCII case.
pub open spec fn existing_issue_url(issues: Seq<OpenIssue>, title: Seq<char>) -> Option<Seq<char>>
    decreases issues.len(),
{
    if issues.len() == 0 {
        None
    } else if !issues[0].is_pull_request && eq_ignore_ascii_case_spec(issues[0].title@, title) {
        Some(issues[0].html_url@)
    } else {
        existing_issue_url(issues.drop_first(), title)
    }
}

/// Decides what to do with the sync state: nothing when no issue is due,
/// a dry run unless issues may be created, else open an issue.
pub fn decide_sync(state: &RustSyncState, create_issue: bool) -> (r: SyncAction)
    ensures
        !state.should_open_issue_spec() ==> (r matches SyncAction::Report(s) && s@ == "No sync issue needed."@),
        state.should_open_issue_spec() && !create_issue ==> (r matches SyncAction::Report(s) && s@
            == "Would open issue: "@ + state.issue_title_spec()),
        state.should_open_issue_spec() && create_issue ==> r matches SyncAction::OpenIssue,
{
    if !state.should_open_issue() {
        SyncAction::Report("No sync issue needed.".to_owned())
    } else if !create_issue {
        let mut out = chars_of("Would open issue: ");
        let title = state.issue_title();
        push_str_chars(&mut out, title.as_str());
        SyncAction::Report(string_of(&out))
    } else {
        SyncAction::OpenIssue
    }
}

/// Reuses an open sync issue when there is one; else plans a new issue with
/// the sync title and body.
pub fn plan_sync_issue(state: &RustSyncState, issues: &Vec<OpenIssue>) -> (r: IssuePlan)
    ensures
        match existing_issue_url(issues@, state.issue_title_spec()) {
            Some(url) => r matches IssuePlan::AlreadyOpen(s) && s@ == "Open issue already exists: "@ + url,
            None => r matches IssuePlan::Create { title, body } && title@ == state.issue_title_spec()
                && body@ == lines_text(issue_body_lines(*state)),
        },
{
    let title = state.issue_title();
    let mut i: usize = 0;
    assert(issues@.skip(0) == issues@);
    while i < issues.len()
        invariant
            0 <= i <= issues.len(),
            title@ == state.issue_title_spec(),
            existing_issue_url(issues@, title@) == existing_issue_url(issues@.skip(i as int), title@),
        decreases issues.len() - i,
    {
        let issue = &issues[i];
        assert(issues@.skip(i as int)[0] == issues@[i as int]);
        if !issue.is_pull_request && eq_ignore_ascii_case(issue.title.as_str(), title.as_str()) {
            let mut out = chars_of("Open issue already exists: ");
            push_str_chars(&mut out, issue.html_url.as_str());
            return IssuePlan::AlreadyOpen(string_of(&out));
        }
        assert(issues@.skip(i as int).drop_first() == issues@.skip(i + 1));
        i = i + 1;
    }
    assert(issues@.skip(i as int).len() == 0);
    IssuePlan::Create { title, body: build_issue_body(state) }
}

/// The line reported once the sync issue has been created.
pub fn created_issue_message(html_url: &str) -> (r: String)
    ensures
        r@ == "Created issue: "@ + html_url@,
{
    let mut out = chars_of("Created issue: ");
    push_str_chars(&mut out, html_url);
    string_of(&out)
}

/// The GitHub API to talk to: the configured one, else `https://api.github.com`.
pub fn github_api_url(configured: Option<String>) -> (r: String)
    ensures
        r@ == match configured {
            Some(u) => u@,
            None => "https://api.github.com"@,
        },
{
    match configured {
        Some(u) => u,
        None => "https://api.github.com".to_owned(),
    }
}

} // verus!
