use vstd::prelude::*;
use crate::baselines::{TrackedVersions, lemma_entries_map};
use crate::discovery::{
    DocumentView, contains_text, discover_spec, is_selected_spec, EventView, SnippetView, append_snippet, collect_code, extract_from, fence_attributes, fence_for, first_index,
    first_unsupported, has_ignore_reason, is_rust_attribute, lemma_first_index, longest_backtick_run, newline_chars,
};
use crate::runner::{target_name_spec, target_char, path_file_name, file_stem, unhide_spec, unhide_line};
use crate::report::{file_bullet, issue_body_lines};
use crate::order::strings_view;
use crate::sync::{RustSyncState, newest_entry};
use crate::text::{
    decimal, lemma_decimal_digits, all_digits, digits_value, lemma_parse_decimal, lemma_split_append_no_sep, lemma_split_append_sep,
    lemma_split_no_sep, is_digit, parse_u64_spec, split_spec,
};
use crate::version::{RustMinorVersion, VersionErrorKind, version_newer, version_parse_spec};

verus! {

proof fn lemma_no_dot_in_decimal(n: nat)
    ensures
        forall|i: int| 0 <= i < decimal(n).len() ==> !seq!['.'].contains(#[trigger] decimal(n)[i]),
{
    lemma_decimal_digits(n);
    assert forall|i: int| 0 <= i < decimal(n).len() implies !seq!['.'].contains(#[trigger] decimal(n)[i]) by {
        assert(is_digit(decimal(n)[i]));
        if seq!['.'].contains(decimal(n)[i]) {
            assert(seq!['.'][0] == decimal(n)[i]);
        }
    }
}

/// A patch number does not change the release line: `a.b.p` reads as the
/// same version as `a.b`.
pub proof fn lemma_patch_keeps_release_line(major: u64, minor: u64, patch: u64)
    ensures
        version_parse_spec(
            decimal(major as nat) + seq!['.'] + decimal(minor as nat) + seq!['.'] + decimal(patch as nat),
        ) == Ok::<RustMinorVersion, VersionErrorKind>(RustMinorVersion { major, minor }),
{
    let seps = seq!['.'];
    let a = decimal(major as nat);
    let b = decimal(minor as nat);
    let c = decimal(patch as nat);
    lemma_no_dot_in_decimal(major as nat);
    lemma_no_dot_in_decimal(minor as nat);
    lemma_no_dot_in_decimal(patch as nat);
    assert(seps.contains('.')) by {
        assert(seps[0] == '.');
    }
    let e = Seq::<char>::empty();
    lemma_split_no_sep(a, seps);
    lemma_split_append_sep(a, '.', seps);
    assert(a.push('.') == a + seq!['.']);
    lemma_split_append_no_sep(a + seq!['.'], b, seps);
    assert(seq![a, e].update(1, e + b) =~= seq![a, b]);
    let ab = a + seq!['.'] + b;
    lemma_split_append_sep(ab, '.', seps);
    assert(ab.push('.') == ab + seq!['.']);
    lemma_split_append_no_sep(ab + seq!['.'], c, seps);
    assert(seq![a, b, e].update(2, e + c) =~= seq![a, b, c]);
    assert(split_spec(ab + seq!['.'] + c, seps) == seq![a, b, c]);
    lemma_parse_decimal(major);
    lemma_parse_decimal(minor);
    lemma_parse_decimal(patch);
}

/// A stable release on the tracked release line (a patch release) never
/// calls for a sync issue.
pub proof fn lemma_same_line_needs_no_issue(state: RustSyncState)
    requires
        state.tracked_minor == Some(state.latest_minor),
    ensures
        !state.should_open_issue_spec(),
{
}

/// The tracked baseline is the highest release line that the skills
/// mention, and there is none exactly when they mention none.
pub proof fn lemma_newest_baseline_is_highest(t: TrackedVersions)
    requires
        t.wf(),
    ensures
        newest_entry(t).0 is None <==> t@.dom() == Set::<RustMinorVersion>::empty(),
        newest_entry(t).0 matches Some(v) ==> t@.contains_key(v) && forall|w: RustMinorVersion|
            #[trigger] t@.contains_key(w) && w != v ==> version_newer(v, w),
{
    lemma_entries_map(t.entries@);
    if t.entries@.len() == 0 {
        assert(t@.dom() =~= Set::<RustMinorVersion>::empty());
    } else {
        let last = t.entries@.len() - 1;
        assert(t@.contains_key(t.entries@[last].version));
        assert(!Set::<RustMinorVersion>::empty().contains(t.entries@[last].version));
        assert forall|w: RustMinorVersion| #[trigger] t@.contains_key(w) && w != t.entries@[last].version implies version_newer(
            t.entries@[last].version,
            w,
        ) by {
            let i = choose|i: int| 0 <= i < t.entries@.len() && t.entries@[i].version == w;
            assert(i != last);
        }
    }
}

/// When a baseline is tracked, the issue body lists every file that
/// mentions it, each on a line of its own.
pub proof fn lemma_issue_body_lists_every_file(state: RustSyncState, i: int)
    requires
        state.tracked_minor is Some,
        0 <= i < state.tracked_files@.len(),
    ensures
        issue_body_lines(state).contains(file_bullet(state.tracked_files@[i]@)),
{
    let files = strings_view(state.tracked_files@).map_values(|f: Seq<char>| file_bullet(f));
    let lines = issue_body_lines(state);
    assert(files[i] == file_bullet(state.tracked_files@[i]@));
    assert(lines[2 + 3 + i] == files[i]);
}

/// The fence written around a snippet is longer than any run of backticks in
/// its code, so the code cannot close it early.
pub proof fn lemma_fence_outlasts_backticks(code: Seq<char>)
    ensures
        fence_for(code).len() > longest_backtick_run(code),
        fence_for(code).len() >= 3,
        forall|i: int| 0 <= i < fence_for(code).len() ==> fence_for(code)[i] == '`',
{
}

/// Padding keeps locations: when the markdown written so far ends a line and
/// has not passed a snippet's line, the snippet's fence starts on exactly
/// that line.
pub proof fn lemma_snippet_starts_on_its_line(md: Seq<char>, line: nat, info: Seq<char>, code: Seq<char>)
    requires
        line >= 1,
        newline_chars(md) <= line - 1,
    ensures
        ({
            let start: int = md.len() + line - 1 - newline_chars(md);
            let out = append_snippet(md, line, info, code);
            &&& out.take(md.len() as int) == md
            &&& newline_chars(out.take(start)) == line - 1
            &&& out.skip(start).take(fence_for(code).len() as int) == fence_for(code)
        }),
{
    let have = newline_chars(md);
    let pad = (line - 1 - have) as nat;
    let padding = Seq::new(pad, |k: int| '\n');
    let padded = md + padding;
    let start: int = (md.len() + pad) as int;
    let out = append_snippet(md, line, info, code);
    let fence = fence_for(code);
    let opened = padded + fence + info + seq!['\n'] + code;
    assert(opened.len() >= 1) by {
        assert(fence.len() >= 3);
    }
    let closed = if opened.last() == '\n' { opened } else { opened.push('\n') };
    assert(out == closed + fence + seq!['\n']);
    assert(out.take(start) =~= padded);
    assert(out.take(md.len() as int) =~= md);
    lemma_newline_chars_append_newlines(md, pad);
    assert(out.skip(start).take(fence.len() as int) =~= fence);
}

proof fn lemma_newline_chars_append_newlines(md: Seq<char>, n: nat)
    ensures
        newline_chars(md + Seq::new(n, |k: int| '\n')) == newline_chars(md) + n,
    decreases n,
{
    if n > 0 {
        lemma_newline_chars_append_newlines(md, (n - 1) as nat);
        let s = md + Seq::new(n, |k: int| '\n');
        assert(s.drop_last() =~= md + Seq::new((n - 1) as nat, |k: int| '\n'));
    } else {
        assert(md + Seq::new(0, |k: int| '\n') =~= md);
    }
}

/// Documents at different positions never share a test target, whatever
/// their paths: the position is written out in full before the first `_`
/// that follows `document_`.
pub proof fn lemma_target_names_distinct(i: nat, j: nat, p: Seq<char>, q: Seq<char>)
    requires
        i != j,
        target_name_spec(i, p) is Some,
        target_name_spec(j, q) is Some,
    ensures
        target_name_spec(i, p) != target_name_spec(j, q),
{
    reveal_strlit("document_");
    reveal_strlit("_");
    let n1 = target_name_spec(i, p)->0;
    let n2 = target_name_spec(j, q)->0;
    let d1 = decimal(i);
    let d2 = decimal(j);
    lemma_decimal_digits(i);
    lemma_decimal_digits(j);
    let s1 = file_stem(path_file_name(p)->0).map_values(|c: char| target_char(c));
    let s2 = file_stem(path_file_name(q)->0).map_values(|c: char| target_char(c));
    assert(n1 == "document_"@ + d1 + "_"@ + s1);
    assert(n2 == "document_"@ + d2 + "_"@ + s2);
    if n1 == n2 {
        if d1.len() < d2.len() {
            let k: int = 9 + d1.len() as int;
            assert(n1[k] == '_');
            assert(n2[k] == d2[d1.len() as int]);
            assert(all_digits(d2));
            assert(crate::text::is_digit(d2[d1.len() as int]));
        } else if d2.len() < d1.len() {
            let k: int = 9 + d2.len() as int;
            assert(n2[k] == '_');
            assert(n1[k] == d1[d2.len() as int]);
            assert(crate::text::is_digit(d1[d2.len() as int]));
        } else {
            assert(d1 =~= n1.subrange(9, 9 + d1.len() as int));
            assert(d2 =~= n2.subrange(9, 9 + d2.len() as int));
            assert(digits_value(d1) == digits_value(d2));
        }
    }
}

/// A character that a test target name may hold.
pub open spec fn target_name_char(c: char) -> bool {
    ('a' <= c && c <= 'z') || ('0' <= c && c <= '9') || c == '_'
}

/// Test target names hold lowercase ASCII letters, digits and `_` alone.
pub proof fn lemma_target_name_charset(i: nat, p: Seq<char>)
    requires
        target_name_spec(i, p) is Some,
    ensures
        forall|k: int|
            0 <= k < target_name_spec(i, p)->0.len() ==> target_name_char(#[trigger] target_name_spec(i, p)->0[k]),
{
    reveal_strlit("document_");
    reveal_strlit("_");
    let n = target_name_spec(i, p)->0;
    let d = decimal(i);
    lemma_decimal_digits(i);
    let s = file_stem(path_file_name(p)->0).map_values(|c: char| target_char(c));
    assert(n == "document_"@ + d + "_"@ + s);
    assert forall|k: int| 0 <= k < n.len() implies target_name_char(#[trigger] n[k]) by {
        if k < 9 {
            assert(n[k] == "document_"@[k]);
        } else if k < 9 + d.len() {
            assert(n[k] == d[k - 9]);
            assert(crate::text::is_digit(d[k - 9]));
        } else if k == 9 + d.len() {
            assert(n[k] == '_');
        } else {
            let c = file_stem(path_file_name(p)->0)[k - 10 - d.len()];
            assert(n[k] == target_char(c));
            if 'A' <= c && c <= 'Z' {
                assert(((c as u32) + 32) as char == target_char(c));
                assert('a' as u32 <= (c as u32) + 32 <= 'z' as u32);
            }
        }
    }
}

/// No line of `code` starts with `#`.
pub open spec fn no_hash_led_line(code: Seq<char>) -> bool {
    &&& (code.len() > 0 ==> code[0] != '#')
    &&& forall|k: int| 0 <= k < code.len() - 1 && #[trigger] code[k] == '\n' ==> code[k + 1] != '#'
}

/// Code in which no line starts with `#` hides nothing: it is compiled
/// exactly as it reads.
pub proof fn lemma_unhide_keeps_plain_code(code: Seq<char>)
    requires
        no_hash_led_line(code),
    ensures
        unhide_spec(code) == code,
    decreases code.len(),
{
    if code.len() > 0 {
        lemma_first_index(code, '\n');
        match first_index(code, '\n') {
            Some(k) => {
                let line = code.take(k + 1);
                let rest = code.skip(k + 1);
                assert(line[0] == code[0]);
                assert(unhide_line(line) == line) by {
                    reveal_strlit("#\n");
                    reveal_strlit("#");
                }
                assert forall|m: int| 0 <= m < rest.len() - 1 && #[trigger] rest[m] == '\n' implies rest[m + 1] != '#' by {
                    assert(code[k + 1 + m] == '\n');
                }
                if rest.len() > 0 {
                    assert(code[k] == '\n');
                    assert(rest[0] == code[k + 1]);
                }
                lemma_unhide_keeps_plain_code(rest);
                assert(line + rest =~= code);
            },
            None => {
                assert(unhide_line(code) == code) by {
                    reveal_strlit("#\n");
                    reveal_strlit("#");
                }
            },
        }
    }
}

/// A snippet that is checked as its fence says: its attributes are those of
/// its info string, all of them Rust ones (the first included), it is
/// ignored exactly when `ignore` is among them, and then it says why.
pub open spec fn snippet_checked_as_written(s: SnippetView) -> bool {
    &&& s.attributes == fence_attributes(s.info)
    &&& s.attributes.len() > 0
    &&& forall|k: int| 0 <= k < s.attributes.len() ==> is_rust_attribute(#[trigger] s.attributes[k])
    &&& s.ignored == s.attributes.contains("ignore"@)
    &&& s.ignored ==> has_ignore_reason(s.info)
}

proof fn lemma_no_unsupported(attrs: Seq<Seq<char>>)
    requires
        first_unsupported(attrs) is None,
    ensures
        forall|k: int| 0 <= k < attrs.len() ==> is_rust_attribute(#[trigger] attrs[k]),
    decreases attrs.len(),
{
    if attrs.len() > 0 {
        lemma_no_unsupported(attrs.drop_first());
        assert forall|k: int| 0 <= k < attrs.len() implies is_rust_attribute(#[trigger] attrs[k]) by {
            if k > 0 {
                assert(attrs[k] == attrs.drop_first()[k - 1]);
            }
        }
    }
}

/// Invalid fences cannot silently drop checks: whenever extraction
/// succeeds, every snippet it yields carries Rust attributes only, and an
/// ignored snippet gives its reason.
pub proof fn lemma_extracted_snippets_checked_as_written(
    ev: Seq<EventView>,
    bytes: Seq<u8>,
    i: int,
    md: Seq<char>,
    snips: Seq<SnippetView>,
)
    requires
        forall|k: int| 0 <= k < snips.len() ==> snippet_checked_as_written(#[trigger] snips[k]),
    ensures
        extract_from(ev, bytes, i, md, snips) matches Ok((_, out)) ==> forall|k: int|
            0 <= k < out.len() ==> snippet_checked_as_written(#[trigger] out[k]),
    decreases ev.len() - i,
{
    if 0 <= i < ev.len() {
        match ev[i] {
            EventView::FenceStart { info, offset } => {
                let attrs = fence_attributes(info);
                if attrs.len() == 0 || !is_rust_attribute(attrs[0]) {
                    lemma_extracted_snippets_checked_as_written(ev, bytes, i + 1, md, snips);
                } else if first_unsupported(attrs) is None {
                    let ignored = attrs.contains("ignore"@);
                    if !(ignored && !has_ignore_reason(info)) {
                        let line = crate::discovery::newline_count(bytes.take(offset as int)) + 1;
                        let collected = collect_code(ev, i + 1);
                        crate::discovery::lemma_collect_code_next(ev, i + 1);
                        lemma_no_unsupported(attrs);
                        let s = SnippetView { line, info, attributes: attrs, code: collected.0, ignored };
                        assert(snippet_checked_as_written(s));
                        let next = snips.push(s);
                        assert forall|k: int| 0 <= k < next.len() implies snippet_checked_as_written(#[trigger] next[k]) by {
                            if k < snips.len() {
                                assert(next[k] == snips[k]);
                            }
                        }
                        lemma_extracted_snippets_checked_as_written(
                            ev,
                            bytes,
                            collected.1,
                            append_snippet(md, line, info, collected.0),
                            next,
                        );
                    }
                }
            },
            _ => {
                lemma_extracted_snippets_checked_as_written(ev, bytes, i + 1, md, snips);
            },
        }
    }
}

/// A document passes the filter `f` when its path, with `/` separators,
/// contains `f`.
pub open spec fn passes_filter(d: DocumentView, f: Seq<char>) -> bool {
    contains_text(crate::baselines::normalize_path(d.path), f)
}

/// Filtering discovery keeps exactly the documents of the unfiltered
/// discovery whose paths contain the filter, in the same order.
pub proof fn lemma_filter_keeps_matching_documents(files: Seq<(Seq<char>, Seq<char>)>, f: Seq<char>)
    requires
        discover_spec(files, None) is Ok,
    ensures
        discover_spec(files, Some(f)) == Ok::<Seq<DocumentView>, (Seq<char>, crate::discovery::ExtractErrorView)>(
            discover_spec(files, None)->Ok_0.filter(|d: DocumentView| passes_filter(d, f)),
        ),
    decreases files.len(),
{
    let pred = |d: DocumentView| passes_filter(d, f);
    if files.len() == 0 {
        reveal(Seq::filter);
    } else {
        let rest = files.drop_last();
        assert(discover_spec(rest, None) is Ok);
        lemma_filter_keeps_matching_documents(rest, f);
        let all = discover_spec(rest, None)->Ok_0;
        let (path, source) = files.last();
        if is_selected_spec(path, None) {
            match crate::discovery::source_extract(source) {
                Ok((md, snips)) => {
                    if snips.len() > 0 {
                        let doc = DocumentView { path, markdown: md, snippets: snips };
                        all.lemma_filter_push(doc, pred);
                        assert(pred(doc) == is_selected_spec(path, Some(f)));
                    }
                },
                Err(_) => {},
            }
        }
    }
}

proof fn lemma_filter_all_pass(docs: Seq<DocumentView>, f: Seq<char>)
    requires
        forall|i: int| 0 <= i < docs.len() ==> passes_filter(#[trigger] docs[i], f),
    ensures
        docs.filter(|d: DocumentView| passes_filter(d, f)) == docs,
    decreases docs.len(),
{
    reveal(Seq::filter);
    if docs.len() > 0 {
        lemma_filter_all_pass(docs.drop_last(), f);
        assert(passes_filter(docs[docs.len() - 1], f));
        assert(docs.drop_last().push(docs.last()) =~= docs);
    }
}

/// The empty filter selects every document: filtering by `""` discovers
/// what no filter discovers.
pub proof fn lemma_empty_filter_keeps_all(files: Seq<(Seq<char>, Seq<char>)>)
    requires
        discover_spec(files, None) is Ok,
    ensures
        discover_spec(files, Some(Seq::<char>::empty())) == discover_spec(files, None),
{
    let e = Seq::<char>::empty();
    lemma_filter_keeps_matching_documents(files, e);
    let docs = discover_spec(files, None)->Ok_0;
    assert forall|i: int| 0 <= i < docs.len() implies passes_filter(#[trigger] docs[i], e) by {
        let p = crate::baselines::normalize_path(docs[i].path);
        assert(p.subrange(0, 0 + e.len() as int) =~= e);
    }
    lemma_filter_all_pass(docs, e);
}

/// The function of the generated test target that holds a snippet's
/// statements: `compile` for a snippet that is only compiled, else `run`,
/// returning a `Termination`.
pub open spec fn statements_holder(no_run: bool, statements: Seq<char>) -> Seq<char> {
    " fn "@ + (if no_run { "compile"@ } else { "run"@ }) + "() -> impl ::std::process::Termination { "@ + statements
        + " }"@
}

/// A snippet that is only compiled (`no_run`) holds its statements in a
/// function `compile` that no `#[test]` precedes, so the statements never
/// run; any other snippet holds them in a function `run` right after
/// `#[test]`, so they run as a test.
pub proof fn lemma_only_compiled_statements_never_run(
    line: nat,
    attributes: Seq<char>,
    items: Seq<char>,
    statements: Seq<char>,
    no_run: bool,
    runs_main: bool,
    nested: Seq<char>,
)
    ensures
        ({
            let m = crate::runner::snippet_module_spec(
                line,
                attributes,
                items,
                Some(statements),
                no_run,
                runs_main,
                nested,
            );
            let f = statements_holder(no_run, statements);
            exists|k: int|
                7 <= k && k + f.len() <= m.len() && #[trigger] m.subrange(k, k + f.len()) == f && (m.subrange(k - 7, k)
                    == "#[test]"@ <==> !no_run)
        }),
{
    reveal_strlit("mod snippet_line_");
    reveal_strlit("");
    reveal_strlit(" ");
    reveal_strlit("#[test]");
    reveal_strlit(" fn ");
    reveal_strlit("compile");
    reveal_strlit("run");
    let m = crate::runner::snippet_module_spec(line, attributes, items, Some(statements), no_run, runs_main, nested);
    let f = statements_holder(no_run, statements);
    let p = "mod snippet_line_"@ + decimal(line) + " { "@ + attributes + " #[allow(unused_imports)] use super::*; "@
        + items + " "@;
    let t = if no_run { ""@ } else { "#[test]"@ };
    let rest = " "@ + (if runs_main {
        "#[test] fn run_main() -> impl ::std::process::Termination { main() }"@
    } else {
        ""@
    }) + " "@ + nested + " }\n"@;
    assert(crate::runner::statements_function(statements, no_run) =~= t + f);
    assert(m =~= p + t + f + rest);
    let k: int = p.len() + t.len() as int;
    assert(m.subrange(k, k + f.len() as int) =~= f);
    if no_run {
        assert(t =~= Seq::<char>::empty());
        assert(p.last() == ' ');
        assert(m[k - 1] == p.last());
        assert(m.subrange(k - 7, k).last() == ' ');
        assert("#[test]"@.last() == ']');
    } else {
        assert(m.subrange(k - 7, k) =~= "#[test]"@);
    }
    assert(7 <= k && k + f.len() <= m.len());
    assert(m.subrange(k, k + f.len()) == f && (m.subrange(k - 7, k) == "#[test]"@ <==> !no_run));
    assert(exists|j: int|
        7 <= j && j + f.len() <= m.len() && #[trigger] m.subrange(j, j + f.len()) == f && (m.subrange(j - 7, j)
            == "#[test]"@ <==> !no_run));
}

/// The module text of one snippet with `nested` inside it, split at the
/// nested text: what comes before it and after it.
proof fn lemma_module_around(
    line: nat,
    attributes: Seq<char>,
    items: Seq<char>,
    statements: Option<Seq<char>>,
    no_run: bool,
    runs_main: bool,
    nested: Seq<char>,
)
    ensures
        ({
            let m = crate::runner::snippet_module_spec(line, attributes, items, statements, no_run, runs_main, nested);
            let head = "mod snippet_line_"@ + decimal(line) + " { "@;
            let tail = nested + " }\n"@;
            &&& head.len() + tail.len() <= m.len()
            &&& m.take(head.len() as int) == head
            &&& m.skip(m.len() - tail.len()) == tail
        }),
{
    let m = crate::runner::snippet_module_spec(line, attributes, items, statements, no_run, runs_main, nested);
    let head = "mod snippet_line_"@ + decimal(line) + " { "@;
    let tail = nested + " }\n"@;
    let mid = attributes + " #[allow(unused_imports)] use super::*; "@ + items + " "@ + match statements {
        Some(s) => crate::runner::statements_function(s, no_run),
        None => ""@,
    } + " "@ + (if runs_main {
        "#[test] fn run_main() -> impl ::std::process::Termination { main() }"@
    } else {
        ""@
    }) + " "@;
    assert(m =~= head + mid + tail);
    assert(m.take(head.len() as int) =~= head);
    assert(m.skip(m.len() - tail.len()) =~= tail);
}

/// In a document's test target, the module of every later snippet lies
/// inside the braces of the module of the snippet before it: the target
/// opens the first snippet's module, and the modules of the others, then
/// that module's closing brace, end it. So the items of earlier snippets
/// are in scope in later ones.
pub proof fn lemma_later_snippets_nest_inside_earlier(parts: Seq<crate::runner::SnippetParts>)
    requires
        parts.len() >= 1,
    ensures
        ({
            let n = crate::runner::nest_spec(parts);
            let head = "mod snippet_line_"@ + decimal(parts[0].line as nat) + " { "@;
            let tail = crate::runner::nest_spec(parts.drop_first()) + " }\n"@;
            &&& head.len() + tail.len() <= n.len()
            &&& n.take(head.len() as int) == head
            &&& n.skip(n.len() - tail.len()) == tail
        }),
{
    let p = parts[0];
    lemma_module_around(
        p.line as nat,
        p.attributes@,
        p.items@,
        match p.statements {
            Some(s) => Some(s@),
            None => None,
        },
        p.no_run,
        p.runs_main,
        crate::runner::nest_spec(parts.drop_first()),
    );
}

/// The same nesting for the rendered snippets of a document: the module of
/// each later snippet lies inside the braces of the one before it.
pub proof fn lemma_rendered_snippets_nest_inside_earlier(ps: Seq<crate::render::RenderedSnippet>)
    requires
        ps.len() >= 1,
    ensures
        ({
            let n = crate::render::nest_rendered(ps);
            let head = "mod snippet_line_"@ + decimal(ps[0].line) + " { "@;
            let tail = crate::render::nest_rendered(ps.drop_first()) + " }\n"@;
            &&& head.len() + tail.len() <= n.len()
            &&& n.take(head.len() as int) == head
            &&& n.skip(n.len() - tail.len()) == tail
        }),
{
    lemma_module_around(
        ps[0].line,
        ps[0].attributes,
        ps[0].items,
        ps[0].statements,
        ps[0].no_run,
        ps[0].runs_main,
        crate::render::nest_rendered(ps.drop_first()),
    );
}

proof fn lemma_fold_holds_each_rendering(docs: Seq<DocumentView>, rendered: Seq<Option<Seq<char>>>, n: nat)
    requires
        n <= docs.len(),
        crate::runner::prepare_fold(docs, rendered, n) is Ok,
    ensures
        forall|m: int|
            0 <= m < n && crate::runner::has_ordinary(#[trigger] docs[m].snippets) ==> (target_name_spec(
                m as nat,
                docs[m].path,
            ) is Some && crate::runner::prepare_fold(docs, rendered, n)->Ok_0.0.contains(
                (crate::runner::test_file_path(target_name_spec(m as nat, docs[m].path)->0), rendered[m]->0),
            )),
    decreases n,
{
    if n > 0 {
        lemma_fold_holds_each_rendering(docs, rendered, (n - 1) as nat);
        let before = crate::runner::prepare_fold(docs, rendered, (n - 1) as nat)->Ok_0.0;
        let after = crate::runner::prepare_fold(docs, rendered, n)->Ok_0.0;
        let index = (n - 1) as int;
        if crate::runner::has_ordinary(docs[index].snippets) {
            let name = target_name_spec(index as nat, docs[index].path)->0;
            let entry = (crate::runner::test_file_path(name), rendered[index]->0);
            assert(after == before.push(entry));
            assert(after[before.len() as int] == entry);
            assert forall|m: int|
                0 <= m < n && crate::runner::has_ordinary(#[trigger] docs[m].snippets) implies after.contains(
                (crate::runner::test_file_path(target_name_spec(m as nat, docs[m].path)->0), rendered[m]->0),
            ) by {
                if m < index {
                    let e = (crate::runner::test_file_path(target_name_spec(m as nat, docs[m].path)->0), rendered[m]->0);
                    let j = choose|j: int| 0 <= j < before.len() && before[j] == e;
                    assert(after[j] == e);
                }
            }
        } else {
            assert(after == before);
        }
    }
}

/// Each document's test target holds that document's own rendering: for
/// every document at position `n` of the selection that has shared
/// snippets, the crate has the file `tests/<target name of n>.rs`, and its
/// text is `rendered[n]`.
pub proof fn lemma_each_target_holds_its_own_rendering(
    skill: Seq<char>,
    version: Seq<char>,
    cargo: Seq<char>,
    lints: Seq<char>,
    docs: Seq<DocumentView>,
    rendered: Seq<Option<Seq<char>>>,
    n: int,
)
    requires
        0 <= n < docs.len(),
        crate::runner::has_ordinary(docs[n].snippets),
        crate::runner::prepare_spec(skill, version, cargo, lints, docs, rendered) is Ok,
    ensures
        target_name_spec(n as nat, docs[n].path) is Some,
        crate::runner::prepare_spec(skill, version, cargo, lints, docs, rendered)->Ok_0.contains(
            (crate::runner::test_file_path(target_name_spec(n as nat, docs[n].path)->0), rendered[n]->0),
        ),
{
    lemma_fold_holds_each_rendering(docs, rendered, docs.len());
    let files = crate::runner::prepare_fold(docs, rendered, docs.len())->Ok_0.0;
    let all = crate::runner::prepare_spec(skill, version, cargo, lints, docs, rendered)->Ok_0;
    let e = (crate::runner::test_file_path(target_name_spec(n as nat, docs[n].path)->0), rendered[n]->0);
    assert(files.contains(e));
    let j = choose|j: int| 0 <= j < files.len() && files[j] == e;
    assert(all[j] == e);
}

proof fn lemma_document_listing_len(root: Seq<char>, path: Seq<char>, snips: Seq<SnippetView>)
    ensures
        crate::snippet_check::document_listing(root, path, snips, true).len() == snips.len(),
        crate::snippet_check::document_listing(root, path, snips, false).len() == crate::snippet_check::ignored_in(
            snips,
        ),
    decreases snips.len(),
{
    if snips.len() > 0 {
        lemma_document_listing_len(root, path, snips.drop_last());
    }
}

/// With `--list`, the listing has one line for every discovered snippet;
/// without it, one line for every ignored snippet.
pub proof fn lemma_listing_counts(root: Seq<char>, docs: Seq<DocumentView>)
    ensures
        crate::snippet_check::listing(root, docs, true).len() == crate::snippet_check::snippet_count(docs),
        crate::snippet_check::listing(root, docs, false).len() == crate::snippet_check::ignored_count(docs),
    decreases docs.len(),
{
    if docs.len() > 0 {
        lemma_listing_counts(root, docs.drop_last());
        lemma_document_listing_len(root, docs.last().path, docs.last().snippets);
    }
}

/// Each listed line names where its snippet is and its info string: with
/// `--list`, line `j` of a document's listing is that of its snippet `j`.
pub proof fn lemma_listing_names_every_snippet(root: Seq<char>, path: Seq<char>, snips: Seq<SnippetView>, j: int)
    requires
        0 <= j < snips.len(),
    ensures
        crate::snippet_check::document_listing(root, path, snips, true)[j] == crate::snippet_check::path_join(root, path)
            + ":"@ + decimal(snips[j].line) + ": "@ + snips[j].info,
    decreases snips.len(),
{
    lemma_document_listing_len(root, path, snips.drop_last());
    if j < snips.len() - 1 {
        lemma_listing_names_every_snippet(root, path, snips.drop_last(), j);
    }
}

/// The text of the tracked baseline: the version's `major.minor`, or
/// `not found`.
pub open spec fn tracked_text(state: RustSyncState) -> Seq<char> {
    match state.tracked_minor {
        Some(t) => decimal(t.major as nat) + "."@ + decimal(t.minor as nat),
        None => "not found"@,
    }
}

/// The step summary and the printed report name the same tracked baseline,
/// the one the state tracks (not the stable release): the summary holds
/// `Tracked Rust baseline: **<baseline>**` and the report's second line is
/// `Tracked Rust baseline: <baseline>`.
pub proof fn lemma_summary_names_the_tracked_baseline(state: RustSyncState, result: Seq<char>)
    ensures
        ({
            let summary = crate::report::step_summary_spec(state, result);
            let line = "Tracked Rust baseline: **"@ + tracked_text(state) + "**"@;
            exists|k: int| 0 <= k && k + line.len() <= summary.len() && #[trigger] summary.subrange(k, k + line.len()) == line
        }),
        crate::report::report_lines(state, result)[1] == "Tracked Rust baseline: "@ + tracked_text(state),
{
    reveal_strlit(".");
    reveal_strlit("**\n\nTracked Rust baseline: **");
    reveal_strlit("**\n\n");
    reveal_strlit("Tracked Rust baseline: **");
    reveal_strlit("**");
    reveal_strlit("\n\n");
    let summary = crate::report::step_summary_spec(state, result);
    let line = "Tracked Rust baseline: **"@ + tracked_text(state) + "**"@;
    match state.tracked_minor {
        Some(t) => {
            assert(t.text() =~= tracked_text(state));
        },
        None => {},
    }
    assert(crate::report::baseline_text(state.tracked_minor) == tracked_text(state));
    let before = "Latest Rust stable: **"@ + state.latest_full@ + "**\n\n"@;
    let after = "\n\n"@ + result + "\n"@;
    assert(summary =~= before + line + after);
    let k = before.len() as int;
    assert(summary.subrange(k, k + line.len()) =~= line);
}

} // verus!
