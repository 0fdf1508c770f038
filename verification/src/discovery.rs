use vstd::prelude::*;
use crate::order::{chars_equal, strings_view};
use pulldown_cmark::{CodeBlockKind, Event, Parser, Tag, TagEnd};
use vstd::string::StringSliceAdditionalSpecFns;
use vstd::utf8::encode_utf8;
use crate::baselines::{normalize_path, normalize_path_text};
use crate::text::{
    all_whitespace, chars_of, is_all_whitespace, pieces_view, push_decimal, push_str_chars, push_vec,
    split_at_any, split_spec, string_of,
};

verus! {

// ---------------------------------------------------------------------------
// Fence attributes
// ---------------------------------------------------------------------------

/// The attributes that a Rust code fence may carry.
pub open spec fn is_rust_attribute(a: Seq<char>) -> bool {
    a == "rust"@ || a == "no_run"@ || a == "compile_fail"@ || a == "should_panic"@ || a == "ignore"@
        || a == "test_harness"@ || a == "edition2015"@ || a == "edition2018"@ || a == "edition2021"@
        || a == "edition2024"@ || a == "standalone_crate"@
}

/// Whether `a` and the literal `b` hold the same text.
pub fn str_eq(a: &str, b: &str) -> (r: bool)
    ensures
        r == (a@ == b@),
{
    let x = chars_of(a);
    let y = chars_of(b);
    chars_equal(&x, &y)
}

/// Whether `attribute` is one that a Rust code fence may carry.
pub fn rust_attribute(attribute: &str) -> (r: bool)
    ensures
        r == is_rust_attribute(attribute@),
{
    str_eq(attribute, "rust") || str_eq(attribute, "no_run") || str_eq(attribute, "compile_fail")
        || str_eq(attribute, "should_panic") || str_eq(attribute, "ignore") || str_eq(
        attribute,
        "test_harness",
    ) || str_eq(attribute, "edition2015") || str_eq(attribute, "edition2018") || str_eq(
        attribute,
        "edition2021",
    ) || str_eq(attribute, "edition2024") || str_eq(attribute, "standalone_crate")
}

/// The index of the first `c` in `s`.
pub open spec fn first_index(s: Seq<char>, c: char) -> Option<int>
    decreases s.len(),
{
    if s.len() == 0 {
        None
    } else if s[0] == c {
        Some(0)
    } else {
        match first_index(s.drop_first(), c) {
            Some(k) => Some(k + 1),
            None => None,
        }
    }
}

pub(crate) proof fn lemma_first_index(s: Seq<char>, c: char)
    ensures
        match first_index(s, c) {
            Some(k) => 0 <= k < s.len() && s[k] == c && forall|j: int| 0 <= j < k ==> s[j] != c,
            None => forall|j: int| 0 <= j < s.len() ==> s[j] != c,
        },
    decreases s.len(),
{
    if s.len() > 0 && s[0] != c {
        lemma_first_index(s.drop_first(), c);
        match first_index(s.drop_first(), c) {
            Some(k) => {
                assert forall|j: int| 0 <= j < k + 1 implies s[j] != c by {
                    if j > 0 {
                        assert(s[j] == s.drop_first()[j - 1]);
                    }
                }
            },
            None => {
                assert forall|j: int| 0 <= j < s.len() implies s[j] != c by {
                    if j > 0 {
                        assert(s[j] == s.drop_first()[j - 1]);
                    }
                }
            },
        }
    }
}

/// A fence's info string with its parenthesized comments taken out; a
/// comment runs from `(` to the next `)`, or to the end when none follows.
pub open spec fn strip_comments(s: Seq<char>, in_comment: bool) -> Seq<char>
    decreases s.len(),
{
    if s.len() == 0 {
        Seq::empty()
    } else if in_comment {
        strip_comments(s.drop_first(), s[0] != ')')
    } else if s[0] == '(' {
        strip_comments(s.drop_first(), true)
    } else {
        seq![s[0]] + strip_comments(s.drop_first(), false)
    }
}

/// The texts of the closed comments of an info string, in order, given the
/// text of the comment that is open (if one is).
pub open spec fn comments_of(s: Seq<char>, open: Option<Seq<char>>) -> Seq<Seq<char>>
    decreases s.len(),
{
    if s.len() == 0 {
        Seq::empty()
    } else {
        match open {
            None => if s[0] == '(' {
                comments_of(s.drop_first(), Some(Seq::<char>::empty()))
            } else {
                comments_of(s.drop_first(), None)
            },
            Some(cur) => if s[0] == ')' {
                seq![cur] + comments_of(s.drop_first(), None)
            } else {
                comments_of(s.drop_first(), Some(cur.push(s[0])))
            },
        }
    }
}

/// The characters that separate the attributes of a fence.
pub open spec fn attribute_separators() -> Seq<char> {
    seq![',', ' ', '\t']
}

/// The attributes of a fence: the non-empty pieces of its info string,
/// outside comments, split at commas, spaces and tabs.
pub open spec fn fence_attributes(info: Seq<char>) -> Seq<Seq<char>> {
    split_spec(strip_comments(info, false), attribute_separators()).filter(|p: Seq<char>| p.len() > 0)
}

/// An ignored fence must give a reason: a comment that is not blank.
pub open spec fn has_ignore_reason(info: Seq<char>) -> bool {
    exists|i: int| 0 <= i < comments_of(info, None).len() && !all_whitespace(#[trigger] comments_of(info, None)[i])
}

/// The first attribute that is not one a Rust fence may carry.
pub open spec fn first_unsupported(attrs: Seq<Seq<char>>) -> Option<Seq<char>>
    decreases attrs.len(),
{
    if attrs.len() == 0 {
        None
    } else if !is_rust_attribute(attrs[0]) {
        Some(attrs[0])
    } else {
        first_unsupported(attrs.drop_first())
    }
}

/// The info string without its comments; see `strip_comments`.
pub fn without_comments(info: &Vec<char>) -> (r: Vec<char>)
    ensures
        r@ == strip_comments(info@, false),
{
    let mut out: Vec<char> = Vec::new();
    let mut in_comment = false;
    let mut i: usize = 0;
    assert(info@.skip(0) == info@);
    while i < info.len()
        invariant
            0 <= i <= info.len(),
            strip_comments(info@, false) == out@ + strip_comments(info@.skip(i as int), in_comment),
        decreases info.len() - i,
    {
        let c = info[i];
        let ghost rest = info@.skip(i as int);
        assert(rest[0] == c);
        assert(rest.drop_first() == info@.skip(i + 1));
        if in_comment {
            in_comment = c != ')';
        } else if c == '(' {
            in_comment = true;
        } else {
            let ghost before = out@;
            out.push(c);
            assert(before + (seq![c] + strip_comments(info@.skip(i + 1), false)) =~= out@ + strip_comments(
                info@.skip(i + 1),
                false,
            ));
        }
        i = i + 1;
    }
    assert(info@.skip(i as int).len() == 0);
    assert(out@ + Seq::<char>::empty() == out@);
    out
}

/// Whether an ignored fence gives its reason; see `has_ignore_reason`.
pub fn gives_reason(info: &Vec<char>) -> (r: bool)
    ensures
        r == has_ignore_reason(info@),
{
    let mut open: Option<Vec<char>> = None;
    let mut i: usize = 0;
    let ghost mut seen: Seq<Seq<char>> = Seq::empty();
    assert(info@.skip(0) == info@);
    while i < info.len()
        invariant
            0 <= i <= info.len(),
            comments_of(info@, None) == seen + comments_of(
                info@.skip(i as int),
                match open {
                    Some(v) => Some(v@),
                    None => None,
                },
            ),
            forall|j: int| 0 <= j < seen.len() ==> all_whitespace(#[trigger] seen[j]),
        decreases info.len() - i,
    {
        let c = info[i];
        let ghost rest = info@.skip(i as int);
        assert(rest[0] == c);
        assert(rest.drop_first() == info@.skip(i + 1));
        match open {
            None => {
                if c == '(' {
                    let empty: Vec<char> = Vec::new();
                    assert(empty@ == Seq::<char>::empty());
                    open = Some(empty);
                }
            },
            Some(cur) => {
                if c == ')' {
                    if !is_all_whitespace(&cur) {
                        proof {
                            let all = comments_of(info@, None);
                            assert(all[seen.len() as int] == cur@);
                        }
                        return true;
                    }
                    proof {
                        let next = seen.push(cur@);
                        assert(seen + (seq![cur@] + comments_of(info@.skip(i + 1), None)) =~= next + comments_of(
                            info@.skip(i + 1),
                            None,
                        ));
                        seen = next;
                    }
                    open = None;
                } else {
                    let mut next = cur;
                    next.push(c);
                    open = Some(next);
                }
            },
        }
        i = i + 1;
    }
    assert(info@.skip(i as int).len() == 0);
    assert(seen + Seq::<Seq<char>>::empty() == seen);
    false
}

/// The attributes of a fence's info string.
pub fn attributes_of(info: &Vec<char>) -> (r: Vec<Vec<char>>)
    ensures
        pieces_view(r@) == fence_attributes(info@),
{
    let head = without_comments(info);
    let seps = vec![',', ' ', '\t'];
    assert(seps@ == attribute_separators());
    let pieces = split_at_any(&head, &seps);
    let ghost pv = pieces_view(pieces@);
    let mut out: Vec<Vec<char>> = Vec::new();
    let mut j: usize = 0;
    assert(pv.take(0) == Seq::<Seq<char>>::empty());
    while j < pieces.len()
        invariant
            0 <= j <= pieces.len(),
            pv == pieces_view(pieces@),
            pieces_view(out@) == pv.take(j as int).filter(|p: Seq<char>| p.len() > 0),
        decreases pieces.len() - j,
    {
        assert(pv[j as int] == pieces@[j as int]@);
        assert(pv.take(j + 1).drop_last() == pv.take(j as int));
        reveal_with_fuel(Seq::<_>::filter, 1);
        let ghost before = pieces_view(out@);
        if pieces[j].len() > 0 {
            out.push(copy_chars(&pieces[j]));
            assert(pieces_view(out@) == before.push(pv[j as int]));
        } else {
            assert(pieces_view(out@) == before);
        }
        j = j + 1;
    }
    assert(pv.take(pieces.len() as int) == pv);
    out
}

/// A copy of a character vector.
pub fn copy_chars(v: &Vec<char>) -> (r: Vec<char>)
    ensures
        r@ == v@,
{
    let mut r: Vec<char> = Vec::new();
    push_vec(&mut r, v);
    r
}

/// Whether the attribute list holds `ignore`.
pub fn has_ignore(attrs: &Vec<Vec<char>>) -> (r: bool)
    ensures
        r == pieces_view(attrs@).contains("ignore"@),
{
    let ignore = chars_of("ignore");
    let ghost pv = pieces_view(attrs@);
    let mut i: usize = 0;
    while i < attrs.len()
        invariant
            0 <= i <= attrs.len(),
            pv == pieces_view(attrs@),
            ignore@ == "ignore"@,
            forall|j: int| 0 <= j < i ==> pv[j] != "ignore"@,
        decreases attrs.len() - i,
    {
        assert(pv[i as int] == attrs@[i as int]@);
        if chars_equal(&attrs[i], &ignore) {
            return true;
        }
        i = i + 1;
    }
    false
}

/// The first attribute that a Rust fence may not carry.
pub fn find_unsupported(attrs: &Vec<Vec<char>>) -> (r: Option<usize>)
    ensures
        match r {
            Some(i) => i < attrs.len() && first_unsupported(pieces_view(attrs@)) == Some(attrs@[i as int]@),
            None => first_unsupported(pieces_view(attrs@)) is None,
        },
{
    let ghost pv = pieces_view(attrs@);
    let mut i: usize = 0;
    assert(pv.skip(0) == pv);
    while i < attrs.len()
        invariant
            0 <= i <= attrs.len(),
            pv == pieces_view(attrs@),
            first_unsupported(pv) == first_unsupported(pv.skip(i as int)),
        decreases attrs.len() - i,
    {
        assert(pv.skip(i as int)[0] == attrs@[i as int]@);
        let text = string_of(&attrs[i]);
        if !rust_attribute(text.as_str()) {
            return Some(i);
        }
        assert(pv.skip(i as int).drop_first() == pv.skip(i + 1));
        i = i + 1;
    }
    assert(pv.skip(i as int).len() == 0);
    None
}

// ---------------------------------------------------------------------------
// Counting and fences
// ---------------------------------------------------------------------------

/// The number of newline bytes in `b`.
pub open spec fn newline_count(b: Seq<u8>) -> nat
    decreases b.len(),
{
    if b.len() == 0 {
        0
    } else {
        newline_count(b.drop_last()) + if b.last() == 10u8 { 1nat } else { 0nat }
    }
}

/// The number of newline characters in `s`.
pub open spec fn newline_chars(s: Seq<char>) -> nat
    decreases s.len(),
{
    if s.len() == 0 {
        0
    } else {
        newline_chars(s.drop_last()) + if s.last() == '\n' { 1nat } else { 0nat }
    }
}

/// The number of newlines among the first `n` bytes.
pub fn count_newlines(bytes: &[u8], n: usize) -> (r: usize)
    requires
        n <= bytes@.len(),
    ensures
        r == newline_count(bytes@.take(n as int)),
{
    let mut count: usize = 0;
    let mut i: usize = 0;
    while i < n
        invariant
            0 <= i <= n <= bytes@.len(),
            count == newline_count(bytes@.take(i as int)),
            count <= i,
        decreases n - i,
    {
        assert(bytes@.take(i + 1).drop_last() == bytes@.take(i as int));
        if bytes[i] == 10u8 {
            count = count + 1;
        }
        i = i + 1;
    }
    count
}

/// The length of the run of backticks that ends `s`.
pub open spec fn trailing_backticks(s: Seq<char>) -> nat
    decreases s.len(),
{
    if s.len() == 0 || s.last() != '`' {
        0
    } else {
        trailing_backticks(s.drop_last()) + 1
    }
}

/// The length of the longest run of backticks in `s`.
pub open spec fn longest_backtick_run(s: Seq<char>) -> nat
    decreases s.len(),
{
    if s.len() == 0 {
        0
    } else {
        let before = longest_backtick_run(s.drop_last());
        let here = trailing_backticks(s);
        if here > before {
            here
        } else {
            before
        }
    }
}

/// The fence that wraps `code` without ending early: one backtick more than
/// the longest run inside it, and at least three.
pub open spec fn fence_for(code: Seq<char>) -> Seq<char> {
    let run = longest_backtick_run(code);
    Seq::new(if run > 2 { run + 1 } else { 3 }, |i: int| '`')
}

/// Builds `fence_for(code)`.
pub fn fence_of(code: &Vec<char>) -> (r: Vec<char>)
    ensures
        r@ == fence_for(code@),
{
    let mut best: usize = 0;
    let mut cur: usize = 0;
    let mut i: usize = 0;
    while i < code.len()
        invariant
            0 <= i <= code.len(),
            best == longest_backtick_run(code@.take(i as int)),
            cur == trailing_backticks(code@.take(i as int)),
            cur <= i,
            best <= i,
        decreases code.len() - i,
    {
        assert(code@.take(i + 1).drop_last() == code@.take(i as int));
        assert(code@.take(i + 1).last() == code@[i as int]);
        if code[i] == '`' {
            cur = cur + 1;
        } else {
            cur = 0;
        }
        if cur > best {
            best = cur;
        }
        i = i + 1;
    }
    assert(code@.take(code.len() as int) == code@);
    let len: u128 = if best > 2 { best as u128 + 1 } else { 3 };
    let mut fence: Vec<char> = Vec::new();
    let mut j: u128 = 0;
    while j < len
        invariant
            0 <= j <= len,
            len == (if longest_backtick_run(code@) > 2 { longest_backtick_run(code@) + 1 } else { 3 }),
            fence@ == Seq::new(j as nat, |k: int| '`'),
        decreases len - j,
    {
        fence.push('`');
        assert(fence@ =~= Seq::new((j + 1) as nat, |k: int| '`'));
        j = j + 1;
    }
    fence
}


// ---------------------------------------------------------------------------
// CommonMark events (pulldown-cmark)
// ---------------------------------------------------------------------------

/// The events of a CommonMark parse that the extraction reads: the start of a
/// fenced code block (its info string and the byte offset where it starts),
/// text, the end of a code block, and anything else.
#[derive(Debug)]
pub enum MarkdownEvent {
    FenceStart { info: String, offset: usize },
    Text { text: String },
    CodeBlockEnd,
    Other,
}

pub enum EventView {
    FenceStart { info: Seq<char>, offset: nat },
    Text { text: Seq<char> },
    CodeBlockEnd,
    Other,
}

impl View for MarkdownEvent {
    type V = EventView;

    open spec fn view(&self) -> EventView {
        match self {
            MarkdownEvent::FenceStart { info, offset } => EventView::FenceStart { info: info@, offset: *offset as nat },
            MarkdownEvent::Text { text } => EventView::Text { text: text@ },
            MarkdownEvent::CodeBlockEnd => EventView::CodeBlockEnd,
            MarkdownEvent::Other => EventView::Other,
        }
    }
}

pub open spec fn events_view(v: Seq<MarkdownEvent>) -> Seq<EventView> {
    v.map_values(|e: MarkdownEvent| e@)
}

/// The events that `pulldown_cmark::Parser::new(source).into_offset_iter()`
/// yields for `source`, in order.
pub uninterp spec fn commonmark_events(source: Seq<char>) -> Seq<EventView>;

/// `pulldown_cmark::Parser::into_offset_iter`: the CommonMark events of
/// `source`; each range lies within the source, so a fence's offset is at
/// most the source's length in bytes.
/// The order of the offsets from one fence to the next is not stated: the
/// crate's documentation gives it in no sentence.
#[verifier::external_body]
fn markdown_events(source: &str) -> (r: Vec<MarkdownEvent>)
    ensures
        events_view(r@) == commonmark_events(source@),
        forall|i: int|
            0 <= i < r@.len() ==> (#[trigger] r@[i] matches MarkdownEvent::FenceStart { offset, .. } ==> offset
                <= source.spec_bytes().len()),
{
    Parser::new(source).into_offset_iter().map(|(event, range)| match event {
        Event::Start(Tag::CodeBlock(CodeBlockKind::Fenced(info))) => MarkdownEvent::FenceStart {
            info: info.to_string(),
            offset: range.start,
        },
        Event::Text(text) => MarkdownEvent::Text { text: text.to_string() },
        Event::End(TagEnd::CodeBlock) => MarkdownEvent::CodeBlockEnd,
        _ => MarkdownEvent::Other,
    }).collect()
}

// ---------------------------------------------------------------------------
// Extracting the Rust snippets of a Markdown document
// ---------------------------------------------------------------------------

/// A Rust code fence: the line where it starts, its info string, its
/// attributes, its code, and whether it is ignored.
#[derive(Debug)]
pub struct Snippet {
    pub line: usize,
    pub info: String,
    pub attributes: Vec<String>,
    pub code: String,
    pub ignored: bool,
}

pub struct SnippetView {
    pub line: nat,
    pub info: Seq<char>,
    pub attributes: Seq<Seq<char>>,
    pub code: Seq<char>,
    pub ignored: bool,
}

impl View for Snippet {
    type V = SnippetView;

    open spec fn view(&self) -> SnippetView {
        SnippetView {
            line: self.line as nat,
            info: self.info@,
            attributes: strings_view(self.attributes@),
            code: self.code@,
            ignored: self.ignored,
        }
    }
}

pub open spec fn snippets_view(v: Seq<Snippet>) -> Seq<SnippetView> {
    v.map_values(|s: Snippet| s@)
}

/// A Rust fence that cannot be checked.
#[derive(Debug)]
pub enum ExtractError {
    UnsupportedAttribute { line: usize, attribute: String },
    MissingIgnoreReason { line: usize },
}

pub enum ExtractErrorView {
    UnsupportedAttribute { line: nat, attribute: Seq<char> },
    MissingIgnoreReason { line: nat },
}

impl View for ExtractError {
    type V = ExtractErrorView;

    open spec fn view(&self) -> ExtractErrorView {
        match self {
            ExtractError::UnsupportedAttribute { line, attribute } => ExtractErrorView::UnsupportedAttribute {
                line: *line as nat,
                attribute: attribute@,
            },
            ExtractError::MissingIgnoreReason { line } => ExtractErrorView::MissingIgnoreReason { line: *line as nat },
        }
    }
}

impl ExtractError {
    pub open spec fn message_spec(self) -> Seq<char> {
        match self {
            ExtractError::UnsupportedAttribute { line, attribute } => "line "@ + crate::text::decimal(line as nat)
                + ": unsupported Rust fence attribute `"@ + attribute@ + "`"@,
            ExtractError::MissingIgnoreReason { line } => "line "@ + crate::text::decimal(line as nat)
                + ": ignore requires a reason in parentheses"@,
        }
    }

    /// The message that reports this error.
    pub fn message(&self) -> (r: String)
        ensures
            r@ == self.message_spec(),
    {
        let mut out = chars_of("line ");
        match self {
            ExtractError::UnsupportedAttribute { line, attribute } => {
                push_decimal(&mut out, *line as u64);
                push_str_chars(&mut out, ": unsupported Rust fence attribute `");
                push_str_chars(&mut out, attribute.as_str());
                push_str_chars(&mut out, "`");
            },
            ExtractError::MissingIgnoreReason { line } => {
                push_decimal(&mut out, *line as u64);
                push_str_chars(&mut out, ": ignore requires a reason in parentheses");
            },
        }
        string_of(&out)
    }
}

/// The code of the block whose events start at `j`: the texts up to the end
/// of the code block, and the index just after that end (or the number of
/// events when no end follows).
pub open spec fn collect_code(ev: Seq<EventView>, j: int) -> (Seq<char>, int)
    decreases ev.len() - j,
{
    if j < 0 || j >= ev.len() {
        (Seq::<char>::empty(), ev.len() as int)
    } else {
        match ev[j] {
            EventView::Text { text } => {
                let rest = collect_code(ev, j + 1);
                (text + rest.0, rest.1)
            },
            EventView::CodeBlockEnd => (Seq::<char>::empty(), j + 1),
            _ => collect_code(ev, j + 1),
        }
    }
}

pub proof fn lemma_collect_code_next(ev: Seq<EventView>, j: int)
    requires
        0 <= j <= ev.len(),
    ensures
        j <= collect_code(ev, j).1 <= ev.len(),
    decreases ev.len() - j,
{
    if j < ev.len() {
        lemma_collect_code_next(ev, j + 1);
    }
}

/// The markdown after writing one snippet: newlines until the snippet starts
/// on its own line, then the snippet in a fence long enough for its code.
pub open spec fn append_snippet(md: Seq<char>, line: nat, info: Seq<char>, code: Seq<char>) -> Seq<char> {
    let fence = fence_for(code);
    let have = newline_chars(md);
    let want = if line >= 1 { line - 1 } else { 0 };
    let padded = md + Seq::new(if want > have { (want - have) as nat } else { 0 }, |k: int| '\n');
    let opened = padded + fence + info + seq!['\n'] + code;
    let closed = if opened.last() == '\n' {
        opened
    } else {
        opened.push('\n')
    };
    closed + fence + seq!['\n']
}

/// What the extraction makes of the events from index `i` on, given the
/// markdown and snippets so far. A fence counts when its first attribute is a
/// Rust one; it then must carry Rust attributes only, and an ignored fence
/// must give a reason in parentheses.
pub open spec fn extract_from(
    ev: Seq<EventView>,
    bytes: Seq<u8>,
    i: int,
    md: Seq<char>,
    snips: Seq<SnippetView>,
) -> Result<(Seq<char>, Seq<SnippetView>), ExtractErrorView>
    decreases ev.len() - i,
{
    if i < 0 || i >= ev.len() {
        Ok((md, snips))
    } else {
        match ev[i] {
            EventView::FenceStart { info, offset } => {
                let attrs = fence_attributes(info);
                if attrs.len() == 0 || !is_rust_attribute(attrs[0]) {
                    extract_from(ev, bytes, i + 1, md, snips)
                } else {
                    let line = newline_count(bytes.take(offset as int)) + 1;
                    match first_unsupported(attrs) {
                        Some(a) => Err(ExtractErrorView::UnsupportedAttribute { line, attribute: a }),
                        None => {
                            let ignored = attrs.contains("ignore"@);
                            if ignored && !has_ignore_reason(info) {
                                Err(ExtractErrorView::MissingIgnoreReason { line })
                            } else {
                                let collected = collect_code(ev, i + 1);
                                proof {
                                    lemma_collect_code_next(ev, i + 1);
                                }
                                extract_from(
                                    ev,
                                    bytes,
                                    collected.1,
                                    append_snippet(md, line, info, collected.0),
                                    snips.push(
                                        SnippetView {
                                            line,
                                            info,
                                            attributes: attrs,
                                            code: collected.0,
                                            ignored,
                                        },
                                    ),
                                )
                            }
                        },
                    }
                }
            },
            _ => extract_from(ev, bytes, i + 1, md, snips),
        }
    }
}

/// The number of newlines in `s`.
pub fn count_newline_chars(s: &Vec<char>) -> (r: usize)
    ensures
        r == newline_chars(s@),
{
    let mut count: usize = 0;
    let mut i: usize = 0;
    while i < s.len()
        invariant
            0 <= i <= s.len(),
            count == newline_chars(s@.take(i as int)),
            count <= i,
        decreases s.len() - i,
    {
        assert(s@.take(i + 1).drop_last() == s@.take(i as int));
        if s[i] == '\n' {
            count = count + 1;
        }
        i = i + 1;
    }
    assert(s@.take(s.len() as int) == s@);
    count
}

/// Writes one snippet into the markdown.
fn push_snippet(md: &mut Vec<char>, line: usize, info: &Vec<char>, code: &Vec<char>)
    requires
        line >= 1,
    ensures
        final(md)@ == append_snippet(old(md)@, line as nat, info@, code@),
{
    let ghost start = md@;
    let fence = fence_of(code);
    let have = count_newline_chars(md);
    let want = line - 1;
    let ghost pad_len: nat = if want > have { (want - have) as nat } else { 0 };
    let mut n: usize = have;
    let mut pushed: usize = 0;
    while n < want
        invariant
            have <= n,
            n <= want || n == have,
            want == line - 1,
            pushed == n - have,
            md@ == start + Seq::new(pushed as nat, |k: int| '\n'),
        decreases want - n,
    {
        md.push('\n');
        assert(md@ =~= start + Seq::new((pushed + 1) as nat, |k: int| '\n'));
        n = n + 1;
        pushed = pushed + 1;
    }
    assert(pushed as nat == pad_len);
    push_vec(md, &fence);
    push_vec(md, info);
    md.push('\n');
    push_vec(md, code);
    let ghost opened = md@;
    assert(opened =~= start + Seq::new(pad_len, |k: int| '\n') + fence@ + info@ + seq!['\n'] + code@);
    if md[md.len() - 1] != '\n' {
        md.push('\n');
    }
    push_vec(md, &fence);
    md.push('\n');
}


/// Strings holding the given character vectors.
pub fn strings_of(v: &Vec<Vec<char>>) -> (r: Vec<String>)
    ensures
        strings_view(r@) == pieces_view(v@),
{
    let mut r: Vec<String> = Vec::new();
    let mut i: usize = 0;
    while i < v.len()
        invariant
            0 <= i <= v.len(),
            strings_view(r@) == pieces_view(v@).take(i as int),
        decreases v.len() - i,
    {
        let ghost before = strings_view(r@);
        r.push(string_of(&v[i]));
        assert(strings_view(r@) =~= before.push(v@[i as int]@));
        assert(pieces_view(v@).take(i + 1) =~= pieces_view(v@).take(i as int).push(v@[i as int]@));
        i = i + 1;
    }
    assert(pieces_view(v@).take(v.len() as int) == pieces_view(v@));
    r
}

/// The Rust snippets of a Markdown document and the markdown that keeps
/// their locations, from the document's CommonMark events; see `extract`.
pub fn extract_events(source: &str, events: &Vec<MarkdownEvent>) -> (r: Result<(String, Vec<Snippet>), ExtractError>)
    requires
        source.spec_bytes().len() < usize::MAX,
        forall|j: int|
            0 <= j < events@.len() ==> (#[trigger] events@[j] matches MarkdownEvent::FenceStart { offset, .. }
                ==> offset <= source.spec_bytes().len()),
    ensures
        match extract_from(
            events_view(events@),
            source.spec_bytes(),
            0,
            Seq::<char>::empty(),
            Seq::<SnippetView>::empty(),
        ) {
            Ok((md, snips)) => (r matches Ok((m, s)) && m@ == md && snippets_view(s@) == snips),
            Err(e) => (r matches Err(err) && err@ == e),
        },
{
    let ghost ev = events_view(events@);
    let bytes = source.as_bytes();
    let ghost total = extract_from(ev, bytes@, 0, Seq::<char>::empty(), Seq::<SnippetView>::empty());
    let mut markdown: Vec<char> = Vec::new();
    let mut snippets: Vec<Snippet> = Vec::new();
    assert(snippets_view(snippets@) =~= Seq::<SnippetView>::empty());
    let mut i: usize = 0;
    while i < events.len()
        invariant
            0 <= i <= events.len(),
            ev == events_view(events@),
            total == extract_from(ev, bytes@, 0, Seq::<char>::empty(), Seq::<SnippetView>::empty()),
            bytes@ == source.spec_bytes(),
            bytes@.len() < usize::MAX,
            forall|j: int|
                0 <= j < events@.len() ==> (#[trigger] events@[j] matches MarkdownEvent::FenceStart { offset, .. }
                    ==> offset <= bytes@.len()),
            total == extract_from(ev, bytes@, i as int, markdown@, snippets_view(snippets@)),
        decreases events.len() - i,
    {
        assert(ev[i as int] == events@[i as int]@);
        match &events[i] {
            MarkdownEvent::FenceStart { info, offset } => {
                let info_chars = chars_of(info.as_str());
                let attrs = attributes_of(&info_chars);
                let ghost av = pieces_view(attrs@);
                if attrs.len() == 0 {
                    i = i + 1;
                    continue;
                }
                assert(av[0] == attrs@[0]@);
                let first = string_of(&attrs[0]);
                if !rust_attribute(first.as_str()) {
                    i = i + 1;
                    continue;
                }
                assert(*offset <= bytes@.len());
                let count = count_newlines(bytes, *offset);
                assert(count <= *offset) by {
                    lemma_newline_count_le(bytes@.take(*offset as int));
                }
                let line = count + 1;
                match find_unsupported(&attrs) {
                    Some(k) => {
                        assert(av[k as int] == attrs@[k as int]@);
                        return Err(ExtractError::UnsupportedAttribute { line, attribute: string_of(&attrs[k]) });
                    },
                    None => {},
                }
                let ignored = has_ignore(&attrs);
                if ignored {
                    if !gives_reason(&info_chars) {
                        return Err(ExtractError::MissingIgnoreReason { line });
                    }
                }
                let mut code: Vec<char> = Vec::new();
                let mut k: usize = i + 1;
                let mut next: usize = events.len();
                let mut done = false;
                proof {
                    lemma_collect_code_next(ev, i + 1);
                    assert(code@ + collect_code(ev, k as int).0 =~= collect_code(ev, k as int).0);
                }
                while k < events.len() && !done
                    invariant
                        i + 1 <= k <= events.len(),
                        ev == events_view(events@),
                        next <= events.len(),
                        done ==> collect_code(ev, i + 1) == (code@, next as int),
                        !done ==> collect_code(ev, i + 1) == (code@ + collect_code(ev, k as int).0, collect_code(
                            ev,
                            k as int,
                        ).1),
                        !done ==> next == events.len(),
                    decreases events.len() - k,
                {
                    assert(ev[k as int] == events@[k as int]@);
                    let ghost before = code@;
                    match &events[k] {
                        MarkdownEvent::Text { text } => {
                            push_str_chars(&mut code, text.as_str());
                            assert(before + collect_code(ev, k as int).0 =~= code@ + collect_code(ev, k + 1).0);
                        },
                        MarkdownEvent::CodeBlockEnd => {
                            next = k + 1;
                            done = true;
                            assert(before + collect_code(ev, k as int).0 =~= code@);
                        },
                        _ => {},
                    }
                    k = k + 1;
                }
                proof {
                    if !done {
                        assert(code@ + collect_code(ev, k as int).0 =~= code@);
                    }
                }
                let ghost collected = collect_code(ev, i + 1);
                assert(collected == (code@, next as int));
                push_snippet(&mut markdown, line, &info_chars, &code);
                let attributes = strings_of(&attrs);
                let snippet = Snippet { line, info: info.clone(), attributes, code: string_of(&code), ignored };
                let ghost before_snips = snippets_view(snippets@);
                snippets.push(snippet);
                assert(snippets_view(snippets@) =~= before_snips.push(snippet@));
                i = next;
            },
            _ => {
                i = i + 1;
            },
        }
    }
    (Ok((string_of(&markdown), snippets)))
}

/// The Rust snippets of a Markdown document, in order, and a markdown text
/// that holds each of them, in a fresh fence, starting on the line where it
/// starts in the document. Fences inside other fences (such as a Rust fence
/// shown inside a Markdown example) are not snippets.
pub fn extract(source: &str) -> (r: Result<(String, Vec<Snippet>), ExtractError>)
    requires
        source.spec_bytes().len() < usize::MAX,
    ensures
        match extract_from(
            commonmark_events(source@),
            source.spec_bytes(),
            0,
            Seq::<char>::empty(),
            Seq::<SnippetView>::empty(),
        ) {
            Ok((md, snips)) => (r matches Ok((m, s)) && m@ == md && snippets_view(s@) == snips),
            Err(e) => (r matches Err(err) && err@ == e),
        },
{
    let events = markdown_events(source);
    extract_events(source, &events)
}

proof fn lemma_newline_count_le(b: Seq<u8>)
    ensures
        newline_count(b) <= b.len(),
    decreases b.len(),
{
    if b.len() > 0 {
        lemma_newline_count_le(b.drop_last());
    }
}


// ---------------------------------------------------------------------------
// Selecting and reading the Markdown files
// ---------------------------------------------------------------------------

/// One file below the skills root: its relative path and its text.
pub struct MarkdownFile {
    pub path: String,
    pub source: String,
}

/// A Markdown file with at least one Rust snippet.
#[derive(Debug)]
pub struct Document {
    pub path: String,
    pub markdown: String,
    pub snippets: Vec<Snippet>,
}

pub struct DocumentView {
    pub path: Seq<char>,
    pub markdown: Seq<char>,
    pub snippets: Seq<SnippetView>,
}

impl View for Document {
    type V = DocumentView;

    open spec fn view(&self) -> DocumentView {
        DocumentView { path: self.path@, markdown: self.markdown@, snippets: snippets_view(self.snippets@) }
    }
}

pub open spec fn documents_view(v: Seq<Document>) -> Seq<DocumentView> {
    v.map_values(|d: Document| d@)
}

/// A file whose snippets cannot be checked, and why.
#[derive(Debug)]
pub struct DiscoveryError {
    pub path: String,
    pub error: ExtractError,
}

/// The last component of a `/`-separated path.
pub open spec fn file_name(path: Seq<char>) -> Seq<char> {
    split_spec(path, seq!['/']).last()
}

/// `Path::extension` is `md`: the file name ends with `.md` and has text
/// before that dot.
pub open spec fn has_md_extension(path: Seq<char>) -> bool {
    let name = file_name(path);
    name.len() > 3 && name.skip(name.len() - 3) == ".md"@
}

/// `str::contains` for a pattern string.
pub open spec fn contains_text(s: Seq<char>, pattern: Seq<char>) -> bool {
    exists|k: int| 0 <= k && k + pattern.len() <= s.len() && #[trigger] s.subrange(k, k + pattern.len()) == pattern
}

/// A Markdown file is checked when it is a `.md` file and, under a filter,
/// its path (with `/` separators) contains the filter text.
pub open spec fn is_selected_spec(path: Seq<char>, filter: Option<Seq<char>>) -> bool {
    has_md_extension(path) && match filter {
        Some(f) => contains_text(normalize_path(path), f),
        None => true,
    }
}

/// Whether `pattern` occurs in `s`.
pub fn contains_chars(s: &Vec<char>, pattern: &Vec<char>) -> (r: bool)
    ensures
        r == contains_text(s@, pattern@),
{
    if pattern.len() > s.len() {
        return false;
    }
    let last = s.len() - pattern.len();
    let mut k: usize = 0;
    while k <= last
        invariant_except_break
            0 <= k <= last,
            last + pattern.len() == s.len(),
            forall|j: int| 0 <= j < k ==> #[trigger] s@.subrange(j, j + pattern@.len()) != pattern@,
        ensures
            last + pattern.len() == s.len(),
            forall|j: int| 0 <= j <= last ==> #[trigger] s@.subrange(j, j + pattern@.len()) != pattern@,
        decreases last - k,
    {
        let mut i: usize = 0;
        let mut same = true;
        while i < pattern.len()
            invariant
                0 <= i <= pattern.len(),
                k + pattern.len() <= s.len(),
                same == (forall|j: int| 0 <= j < i ==> s@[k + j] == pattern@[j]),
            decreases pattern.len() - i,
        {
            if s[k + i] != pattern[i] {
                same = false;
            }
            i = i + 1;
        }
        if same {
            assert(s@.subrange(k as int, k + pattern@.len()) =~= pattern@);
            return true;
        }
        assert(s@.subrange(k as int, k + pattern@.len()) != pattern@) by {
            let j = choose|j: int| 0 <= j < pattern.len() && s@[k + j] != pattern@[j];
            assert(s@.subrange(k as int, k + pattern@.len())[j] == s@[k + j]);
        }
        if k == last {
            break;
        }
        k = k + 1;
    }
    assert forall|j: int| 0 <= j && j + pattern@.len() <= s@.len() implies #[trigger] s@.subrange(j, j + pattern@.len())
        != pattern@ by {
        assert(j <= last);
    }
    false
}

/// Whether `path` names a `.md` file.
pub fn has_md_extension_text(path: &Vec<char>) -> (r: bool)
    ensures
        r == has_md_extension(path@),
{
    let seps = vec!['/'];
    assert(seps@ == seq!['/']);
    let pieces = split_at_any(path, &seps);
    proof {
        crate::text::lemma_split_len(path@, seq!['/']);
    }
    let ghost pv = pieces_view(pieces@);
    let name = &pieces[pieces.len() - 1];
    assert(pv.last() == name@);
    if name.len() <= 3 {
        return false;
    }
    let n = name.len();
    let result = name[n - 3] == '.' && name[n - 2] == 'm' && name[n - 1] == 'd';
    proof {
        reveal_strlit(".md");
        let tail = name@.skip(n - 3);
        if result {
            assert(tail =~= ".md"@);
        } else {
            if tail == ".md"@ {
                assert(tail[0] == name@[n - 3]);
                assert(tail[1] == name@[n - 2]);
                assert(tail[2] == name@[n - 1]);
            }
        }
    }
    result
}

/// Whether the Markdown file at `path` is checked under `filter`.
pub fn is_selected(path: &str, filter: Option<&str>) -> (r: bool)
    ensures
        r == is_selected_spec(
            path@,
            match filter {
                Some(f) => Some(f@),
                None => None,
            },
        ),
{
    let chars = chars_of(path);
    if !has_md_extension_text(&chars) {
        return false;
    }
    match filter {
        None => true,
        Some(f) => {
            let normalized = normalize_path_text(path);
            let hay = chars_of(normalized.as_str());
            let needle = chars_of(f);
            contains_chars(&hay, &needle)
        },
    }
}

/// What `extract` makes of a source text.
pub open spec fn source_extract(source: Seq<char>) -> Result<(Seq<char>, Seq<SnippetView>), ExtractErrorView> {
    extract_from(
        commonmark_events(source),
        encode_utf8(source),
        0,
        Seq::<char>::empty(),
        Seq::<SnippetView>::empty(),
    )
}

/// The documents of `files` (in the order given) that are selected and hold
/// Rust snippets; the first selected file with an invalid snippet stops the
/// discovery.
pub open spec fn discover_spec(files: Seq<(Seq<char>, Seq<char>)>, filter: Option<Seq<char>>) -> Result<
    Seq<DocumentView>,
    (Seq<char>, ExtractErrorView),
>
    decreases files.len(),
{
    if files.len() == 0 {
        Ok(Seq::empty())
    } else {
        match discover_spec(files.drop_last(), filter) {
            Err(e) => Err(e),
            Ok(docs) => {
                let (path, source) = files.last();
                if !is_selected_spec(path, filter) {
                    Ok(docs)
                } else {
                    match source_extract(source) {
                        Err(e) => Err((path, e)),
                        Ok((md, snips)) => if snips.len() == 0 {
                            Ok(docs)
                        } else {
                            Ok(docs.push(DocumentView { path, markdown: md, snippets: snips }))
                        },
                    }
                }
            },
        }
    }
}

pub open spec fn markdown_files_view(files: Seq<MarkdownFile>) -> Seq<(Seq<char>, Seq<char>)> {
    files.map_values(|f: MarkdownFile| (f.path@, f.source@))
}

proof fn lemma_discover_err(files: Seq<(Seq<char>, Seq<char>)>, filter: Option<Seq<char>>, n: int)
    requires
        0 <= n <= files.len(),
        discover_spec(files.take(n), filter) is Err,
    ensures
        discover_spec(files, filter) == discover_spec(files.take(n), filter),
    decreases files.len() - n,
{
    if n < files.len() {
        assert(files.take(n + 1).drop_last() == files.take(n));
        lemma_discover_err(files, filter, n + 1);
    } else {
        assert(files.take(n) == files);
    }
}

/// Finds the Rust snippets of the Markdown files below the skills root.
pub fn discover(files: &Vec<MarkdownFile>, filter: Option<&str>) -> (r: Result<Vec<Document>, DiscoveryError>)
    requires
        forall|i: int| 0 <= i < files@.len() ==> encode_utf8((#[trigger] files@[i]).source@).len() < usize::MAX,
    ensures
        match discover_spec(
            markdown_files_view(files@),
            match filter {
                Some(f) => Some(f@),
                None => None,
            },
        ) {
            Ok(docs) => (r matches Ok(d) && documents_view(d@) == docs),
            Err((path, e)) => (r matches Err(err) && err.path@ == path && err.error@ == e),
        },
{
    let ghost fv = markdown_files_view(files@);
    let ghost fl = match filter {
        Some(f) => Some(f@),
        None => None,
    };
    let mut documents: Vec<Document> = Vec::new();
    let mut i: usize = 0;
    assert(fv.take(0) == Seq::<(Seq<char>, Seq<char>)>::empty());
    assert(documents_view(documents@) =~= Seq::<DocumentView>::empty());
    while i < files.len()
        invariant
            0 <= i <= files.len(),
            fv == markdown_files_view(files@),
            fl == match filter {
                Some(f) => Some(f@),
                None => None::<Seq<char>>,
            },
            forall|j: int| 0 <= j < files@.len() ==> encode_utf8((#[trigger] files@[j]).source@).len() < usize::MAX,
            discover_spec(fv.take(i as int), fl) == Ok::<Seq<DocumentView>, (Seq<char>, ExtractErrorView)>(
                documents_view(documents@),
            ),
        decreases files.len() - i,
    {
        let file = &files[i];
        assert(fv[i as int] == (file.path@, file.source@));
        assert(fv.take(i + 1).drop_last() == fv.take(i as int));
        assert(fv.take(i + 1).last() == fv[i as int]);
        if is_selected(file.path.as_str(), filter) {
            assert(encode_utf8(files@[i as int].source@).len() < usize::MAX);
            match extract(file.source.as_str()) {
                Err(e) => {
                    proof {
                        lemma_discover_err(fv, fl, i + 1);
                    }
                    return Err(DiscoveryError { path: file.path.clone(), error: e });
                },
                Ok((markdown, snippets)) => {
                    if snippets.len() > 0 {
                        let ghost before = documents_view(documents@);
                        let doc = Document { path: file.path.clone(), markdown, snippets };
                        documents.push(doc);
                        assert(documents_view(documents@) =~= before.push(doc@));
                    }
                },
            }
        }
        i = i + 1;
    }
    assert(fv.take(files.len() as int) == fv);
    Ok(documents)
}

} // verus!
