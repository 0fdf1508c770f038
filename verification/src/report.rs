use vstd::prelude::*;
use crate::order::strings_view;
use crate::sync::RustSyncState;
use crate::text::{chars_of, push_str_chars, push_vec, string_of};
use crate::version::RustMinorVersion;

verus! {

/// Lines written one after another, each ended by a newline (what
/// `lines.join("\n") + "\n"` gives for one or more lines).
pub open spec fn lines_text(lines: Seq<Seq<char>>) -> Seq<char>
    decreases lines.len(),
{
    if lines.len() == 0 {
        Seq::<char>::empty()
    } else {
        lines_text(lines.drop_last()) + lines.last() + seq!['\n']
    }
}

/// The list entry for one file that mentions the baseline.
pub open spec fn file_bullet(file: Seq<char>) -> Seq<char> {
    "- `"@ + file + "`"@
}

/// The lines of the sync issue's body.
pub open spec fn issue_body_lines(state: RustSyncState) -> Seq<Seq<char>> {
    let empty = Seq::<char>::empty();
    let head = seq![
        "The Rust stable channel is now **Rust "@ + state.latest_full@ + "** (manifest date: `"@
            + state.manifest_date@ + "`)."@,
        empty,
    ];
    let middle = match state.tracked_minor {
        Some(t) => seq![
            "The highest Rust baseline currently tracked in `skills/` is **Rust "@ + t.text() + "**."@,
            empty,
            "Files mentioning that baseline:"@,
        ] + strings_view(state.tracked_files@).map_values(|f: Seq<char>| file_bullet(f)) + seq![empty],
        None => seq!["No tracked Rust baseline was detected in `skills/`."@, empty],
    };
    let tail = seq![
        "Suggested follow-up:"@,
        "- Review Rust "@ + state.latest_minor.text()
            + " release notes and update the Rust skills that track the latest stable toolchain."@,
        "- Refresh any version-specific guidance, examples, and agent descriptions that mention the previous baseline."@,
    ];
    head + middle + tail
}

/// The tracked baseline as reported: its text, or `not found`.
pub open spec fn baseline_text(baseline: Option<RustMinorVersion>) -> Seq<char> {
    match baseline {
        Some(t) => t.text(),
        None => "not found"@,
    }
}

/// What `check-rust-stable` prints: the stable release, the tracked baseline, and the
/// result line.
pub open spec fn report_lines(state: RustSyncState, result: Seq<char>) -> Seq<Seq<char>> {
    seq![
        "Latest Rust stable: "@ + state.latest_full@,
        "Tracked Rust baseline: "@ + baseline_text(state.tracked_minor),
        result,
    ]
}

/// What `check-rust-stable` appends to the GitHub step summary.
pub open spec fn step_summary_spec(state: RustSyncState, result: Seq<char>) -> Seq<char> {
    "Latest Rust stable: **"@ + state.latest_full@ + "**\n\nTracked Rust baseline: **"@ + baseline_text(
        state.tracked_minor,
    ) + "**\n\n"@ + result + "\n"@
}

/// Appends `line` and a newline.
fn push_line(out: &mut Vec<char>, line: &Vec<char>, Ghost(lines): Ghost<Seq<Seq<char>>>)
    requires
        old(out)@ == lines_text(lines),
    ensures
        final(out)@ == lines_text(lines.push(line@)),
{
    push_vec(out, line);
    out.push('\n');
    assert(lines.push(line@).drop_last() == lines);
}

fn text_of_parts(a: &str, b: &str, c: &str) -> (r: Vec<char>)
    ensures
        r@ == a@ + b@ + c@,
{
    let mut out: Vec<char> = Vec::new();
    push_str_chars(&mut out, a);
    push_str_chars(&mut out, b);
    push_str_chars(&mut out, c);
    out
}

fn baseline_chars(baseline: Option<RustMinorVersion>) -> (r: Vec<char>)
    ensures
        r@ == baseline_text(baseline),
{
    match baseline {
        Some(t) => {
            let mut out: Vec<char> = Vec::new();
            t.push_text(&mut out);
            out
        },
        None => chars_of("not found"),
    }
}

/// The body of the sync issue.
pub fn build_issue_body(state: &RustSyncState) -> (r: String)
    ensures
        r@ == lines_text(issue_body_lines(*state)),
{
    let empty: Vec<char> = Vec::new();
    let mut out: Vec<char> = Vec::new();
    let ghost mut lines: Seq<Seq<char>> = Seq::empty();
    let mut first = chars_of("The Rust stable channel is now **Rust ");
    push_str_chars(&mut first, state.latest_full.as_str());
    push_str_chars(&mut first, "** (manifest date: `");
    push_str_chars(&mut first, state.manifest_date.as_str());
    push_str_chars(&mut first, "`).");
    push_line(&mut out, &first, Ghost(lines));
    proof { lines = lines.push(first@); }
    push_line(&mut out, &empty, Ghost(lines));
    proof { lines = lines.push(empty@); }
    let ghost head = lines;
    match state.tracked_minor {
        Some(t) => {
            let mut line = chars_of("The highest Rust baseline currently tracked in `skills/` is **Rust ");
            t.push_text(&mut line);
            push_str_chars(&mut line, "**.");
            push_line(&mut out, &line, Ghost(lines));
            proof { lines = lines.push(line@); }
            push_line(&mut out, &empty, Ghost(lines));
            proof { lines = lines.push(empty@); }
            let intro = chars_of("Files mentioning that baseline:");
            push_line(&mut out, &intro, Ghost(lines));
            proof { lines = lines.push(intro@); }
            let ghost before_files = lines;
            let ghost bullets = strings_view(state.tracked_files@).map_values(|f: Seq<char>| file_bullet(f));
            let mut i: usize = 0;
            while i < state.tracked_files.len()
                invariant
                    0 <= i <= state.tracked_files.len(),
                    out@ == lines_text(lines),
                    bullets == strings_view(state.tracked_files@).map_values(|f: Seq<char>| file_bullet(f)),
                    lines == before_files + bullets.take(i as int),
                decreases state.tracked_files.len() - i,
            {
                let bullet = text_of_parts("- `", state.tracked_files[i].as_str(), "`");
                assert(bullet@ == bullets[i as int]);
                push_line(&mut out, &bullet, Ghost(lines));
                proof {
                    lines = lines.push(bullet@);
                    assert(bullets.take(i + 1) == bullets.take(i as int).push(bullets[i as int]));
                }
                i = i + 1;
            }
            assert(bullets.take(state.tracked_files.len() as int) == bullets);
            push_line(&mut out, &empty, Ghost(lines));
            proof { lines = lines.push(empty@); }
        },
        None => {
            let line = chars_of("No tracked Rust baseline was detected in `skills/`.");
            push_line(&mut out, &line, Ghost(lines));
            proof { lines = lines.push(line@); }
            push_line(&mut out, &empty, Ghost(lines));
            proof { lines = lines.push(empty@); }
        },
    }
    let ghost before_tail = lines;
    let follow = chars_of("Suggested follow-up:");
    push_line(&mut out, &follow, Ghost(lines));
    proof { lines = lines.push(follow@); }
    let mut review = chars_of("- Review Rust ");
    state.latest_minor.push_text(&mut review);
    push_str_chars(&mut review, " release notes and update the Rust skills that track the latest stable toolchain.");
    push_line(&mut out, &review, Ghost(lines));
    proof { lines = lines.push(review@); }
    let refresh = chars_of(
        "- Refresh any version-specific guidance, examples, and agent descriptions that mention the previous baseline.",
    );
    push_line(&mut out, &refresh, Ghost(lines));
    proof { lines = lines.push(refresh@); }
    assert(lines =~= issue_body_lines(*state));
    string_of(&out)
}

/// The lines that `check-rust-stable` prints once it has a result.
pub fn report_text(state: &RustSyncState, result: &str) -> (r: String)
    ensures
        r@ == lines_text(report_lines(*state, result@)),
{
    let mut out: Vec<char> = Vec::new();
    let ghost mut lines: Seq<Seq<char>> = Seq::empty();
    let mut first = chars_of("Latest Rust stable: ");
    push_str_chars(&mut first, state.latest_full.as_str());
    push_line(&mut out, &first, Ghost(lines));
    proof { lines = lines.push(first@); }
    let mut second = chars_of("Tracked Rust baseline: ");
    let baseline = baseline_chars(state.tracked_minor);
    push_vec(&mut second, &baseline);
    push_line(&mut out, &second, Ghost(lines));
    proof { lines = lines.push(second@); }
    let third = chars_of(result);
    push_line(&mut out, &third, Ghost(lines));
    proof { lines = lines.push(third@); }
    assert(lines =~= report_lines(*state, result@));
    string_of(&out)
}

/// The text appended to the GitHub step summary.
pub fn step_summary_text(state: &RustSyncState, result: &str) -> (r: String)
    ensures
        r@ == step_summary_spec(*state, result@),
{
    let mut out = chars_of("Latest Rust stable: **");
    push_str_chars(&mut out, state.latest_full.as_str());
    push_str_chars(&mut out, "**\n\nTracked Rust baseline: **");
    let baseline = baseline_chars(state.tracked_minor);
    push_vec(&mut out, &baseline);
    push_str_chars(&mut out, "**\n\n");
    push_str_chars(&mut out, result);
    push_str_chars(&mut out, "\n");
    string_of(&out)
}

} // verus!
