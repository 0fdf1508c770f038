use vstd::prelude::*;
use crate::discovery::{Document, DocumentView, SnippetView, documents_view, snippets_view};
use crate::report::lines_text;
use crate::text::{chars_of, decimal, push_decimal, push_str_chars, push_vec, string_of};

verus! {

/// `Path::join`: `rel` below `root`, with one `/` between them; an absolute
/// `rel` stands alone.
pub open spec fn path_join(root: Seq<char>, rel: Seq<char>) -> Seq<char> {
    if rel.len() > 0 && rel[0] == '/' {
        rel
    } else if root.len() == 0 {
        rel
    } else if root.last() == '/' {
        root + rel
    } else {
        root + seq!['/'] + rel
    }
}

/// Joins `rel` below `root`; see `path_join`.
pub fn join_path(root: &str, rel: &str) -> (r: Vec<char>)
    ensures
        r@ == path_join(root@, rel@),
{
    let root_chars = chars_of(root);
    let rel_chars = chars_of(rel);
    if rel_chars.len() > 0 && rel_chars[0] == '/' {
        return rel_chars;
    }
    let mut out = root_chars;
    if out.len() > 0 && out[out.len() - 1] != '/' {
        out.push('/');
    }
    push_vec(&mut out, &rel_chars);
    out
}

/// The number of snippets in the documents.
pub open spec fn snippet_count(docs: Seq<DocumentView>) -> nat
    decreases docs.len(),
{
    if docs.len() == 0 {
        0
    } else {
        snippet_count(docs.drop_last()) + docs.last().snippets.len()
    }
}

/// The number of ignored snippets among `snips`.
pub open spec fn ignored_in(snips: Seq<SnippetView>) -> nat
    decreases snips.len(),
{
    if snips.len() == 0 {
        0
    } else {
        ignored_in(snips.drop_last()) + if snips.last().ignored { 1nat } else { 0nat }
    }
}

/// The number of ignored snippets in the documents.
pub open spec fn ignored_count(docs: Seq<DocumentView>) -> nat
    decreases docs.len(),
{
    if docs.len() == 0 {
        0
    } else {
        ignored_count(docs.drop_last()) + ignored_in(docs.last().snippets)
    }
}

/// The listing line of one snippet: where it is, and its info string.
pub open spec fn listing_line(root: Seq<char>, path: Seq<char>, s: SnippetView) -> Seq<char> {
    path_join(root, path) + ":"@ + decimal(s.line) + ": "@ + s.info
}

/// The listed snippets of one document: all of them when listing, else the
/// ignored ones.
pub open spec fn document_listing(root: Seq<char>, path: Seq<char>, snips: Seq<SnippetView>, list: bool) -> Seq<
    Seq<char>,
>
    decreases snips.len(),
{
    if snips.len() == 0 {
        Seq::empty()
    } else {
        let before = document_listing(root, path, snips.drop_last(), list);
        if list || snips.last().ignored {
            before.push(listing_line(root, path, snips.last()))
        } else {
            before
        }
    }
}

/// The listed snippets of all documents, in order.
pub open spec fn listing(root: Seq<char>, docs: Seq<DocumentView>, list: bool) -> Seq<Seq<char>>
    decreases docs.len(),
{
    if docs.len() == 0 {
        Seq::empty()
    } else {
        listing(root, docs.drop_last(), list) + document_listing(root, docs.last().path, docs.last().snippets, list)
    }
}

/// The summary line of the discovery.
pub open spec fn summary_line(count: nat, files: nat, ignored: nat) -> Seq<char> {
    "Discovered "@ + decimal(count) + " Rust snippets in "@ + decimal(files) + " files ("@ + decimal(ignored)
        + " ignored). Other fence languages are outside this check."@
}

/// How the snippet check ends once the snippets are known.
#[derive(Debug)]
pub enum CheckOutcome {
    /// The snippet check fails with this message.
    Fail(String),
    /// The snippets were only listed.
    Listed,
    /// The snippets are to be compiled and run.
    Run,
}

/// What the snippet check prints, and how it goes on.
#[derive(Debug)]
pub struct SnippetCheckPlan {
    pub output: String,
    pub outcome: CheckOutcome,
}

/// The printed lines and the outcome of the snippet check: it fails when no
/// snippet was found; else it lists snippets (all of them with `list`, else
/// the ignored ones) and a summary, fails when `deny_ignored` meets an
/// ignored snippet, stops after listing, and fails when every snippet is
/// ignored; otherwise the snippets run.
pub fn plan_snippet_check(root: &str, documents: &Vec<Document>, list: bool, deny_ignored: bool) -> (r:
    SnippetCheckPlan)
    requires
        snippet_count(documents_view(documents@)) < usize::MAX,
    ensures
        ({
            let docs = documents_view(documents@);
            let count = snippet_count(docs);
            let ignored = ignored_count(docs);
            if count == 0 {
                r.output@ == Seq::<char>::empty() && (r.outcome matches CheckOutcome::Fail(m) && m@
                    == "no Rust snippets matched in "@ + root@)
            } else {
                &&& r.output@ == lines_text(
                    listing(root@, docs, list).push(summary_line(count, docs.len(), ignored)),
                )
                &&& (deny_ignored && ignored > 0) ==> (r.outcome matches CheckOutcome::Fail(m) && m@ == decimal(
                    ignored,
                ) + " Rust snippets are ignored"@)
                &&& !(deny_ignored && ignored > 0) && list ==> (r.outcome matches CheckOutcome::Listed)
                &&& !(deny_ignored && ignored > 0) && !list && count <= ignored ==> (r.outcome matches CheckOutcome::Fail(
                    m,
                ) && m@ == "all discovered Rust snippets are ignored"@)
                &&& !(deny_ignored && ignored > 0) && !list && count > ignored ==> (r.outcome matches CheckOutcome::Run)
            }
        }),
{
    let ghost docs = documents_view(documents@);
    let mut count: usize = 0;
    let mut ignored: usize = 0;
    let mut out: Vec<char> = Vec::new();
    let ghost mut lines: Seq<Seq<char>> = Seq::empty();
    let mut i: usize = 0;
    assert(docs.take(0) == Seq::<DocumentView>::empty());
    while i < documents.len()
        invariant
            0 <= i <= documents.len(),
            docs == documents_view(documents@),
            snippet_count(docs) < usize::MAX,
            count == snippet_count(docs.take(i as int)),
            ignored == ignored_count(docs.take(i as int)),
            ignored <= count,
            lines == listing(root@, docs.take(i as int), list),
            out@ == lines_text(lines),
        decreases documents.len() - i,
    {
        let doc = &documents[i];
        assert(docs[i as int] == doc@);
        assert(docs.take(i + 1).drop_last() == docs.take(i as int));
        assert(docs.take(i + 1).last() == doc@);
        proof {
            lemma_count_prefix(docs, i + 1);
        }
        let ghost sv = snippets_view(doc.snippets@);
        let ghost lines_before = lines;
        let ghost ignored_before = ignored as nat;
        let prefix = join_path(root, doc.path.as_str());
        let mut k: usize = 0;
        assert(sv.take(0) == Seq::<SnippetView>::empty());
        while k < doc.snippets.len()
            invariant
                0 <= k <= doc.snippets.len(),
                sv == snippets_view(doc.snippets@),
                prefix@ == path_join(root@, doc.path@),
                lines == lines_before + document_listing(root@, doc.path@, sv.take(k as int), list),
                out@ == lines_text(lines),
                ignored == ignored_before + ignored_in(sv.take(k as int)),
                ignored_in(sv.take(k as int)) <= k,
                ignored_before + doc.snippets.len() < usize::MAX,
            decreases doc.snippets.len() - k,
        {
            let s = &doc.snippets[k];
            assert(sv.take(k + 1).drop_last() == sv.take(k as int));
            assert(sv.take(k + 1).last() == s@);
            if s.ignored {
                ignored = ignored + 1;
            }
            if list || s.ignored {
                let mut line = copy(&prefix);
                push_str_chars(&mut line, ":");
                push_decimal(&mut line, s.line as u64);
                push_str_chars(&mut line, ": ");
                push_str_chars(&mut line, s.info.as_str());
                assert(line@ == listing_line(root@, doc.path@, s@));
                push_vec(&mut out, &line);
                out.push('\n');
                proof {
                    let next = lines.push(line@);
                    assert(next.drop_last() == lines);
                    assert(lines_before + document_listing(root@, doc.path@, sv.take(k + 1), list) =~= next);
                    lines = next;
                }
            } else {
                assert(lines_before + document_listing(root@, doc.path@, sv.take(k + 1), list) == lines);
            }
            k = k + 1;
        }
        assert(sv.take(doc.snippets.len() as int) == sv);
        count = count + doc.snippets.len();
        assert(lines =~= listing(root@, docs.take(i + 1), list));
        i = i + 1;
    }
    assert(docs.take(documents.len() as int) == docs);
    if count == 0 {
        let mut message = chars_of("no Rust snippets matched in ");
        push_str_chars(&mut message, root);
        return SnippetCheckPlan { output: String::new(), outcome: CheckOutcome::Fail(string_of(&message)) };
    }
    let mut summary = chars_of("Discovered ");
    push_decimal(&mut summary, count as u64);
    push_str_chars(&mut summary, " Rust snippets in ");
    push_decimal(&mut summary, documents.len() as u64);
    push_str_chars(&mut summary, " files (");
    push_decimal(&mut summary, ignored as u64);
    push_str_chars(&mut summary, " ignored). Other fence languages are outside this check.");
    push_vec(&mut out, &summary);
    out.push('\n');
    proof {
        let next = lines.push(summary@);
        assert(next.drop_last() == lines);
        lines = next;
    }
    let outcome = if deny_ignored && ignored > 0 {
        let mut message: Vec<char> = Vec::new();
        push_decimal(&mut message, ignored as u64);
        push_str_chars(&mut message, " Rust snippets are ignored");
        CheckOutcome::Fail(string_of(&message))
    } else if list {
        CheckOutcome::Listed
    } else if count <= ignored {
        CheckOutcome::Fail("all discovered Rust snippets are ignored".to_owned())
    } else {
        CheckOutcome::Run
    };
    SnippetCheckPlan { output: string_of(&out), outcome }
}

fn copy(v: &Vec<char>) -> (r: Vec<char>)
    ensures
        r@ == v@,
{
    let mut r: Vec<char> = Vec::new();
    push_vec(&mut r, v);
    r
}

proof fn lemma_count_prefix(docs: Seq<DocumentView>, n: int)
    requires
        0 <= n <= docs.len(),
    ensures
        snippet_count(docs.take(n)) <= snippet_count(docs),
        ignored_count(docs.take(n)) <= snippet_count(docs.take(n)),
    decreases docs.len() - n,
{
    if n < docs.len() {
        lemma_count_prefix(docs, n + 1);
        assert(docs.take(n + 1).drop_last() == docs.take(n));
        lemma_ignored_in_le(docs.take(n + 1).last().snippets);
    } else {
        assert(docs.take(n) == docs);
    }
    lemma_ignored_le(docs.take(n));
}

proof fn lemma_ignored_in_le(snips: Seq<SnippetView>)
    ensures
        ignored_in(snips) <= snips.len(),
    decreases snips.len(),
{
    if snips.len() > 0 {
        lemma_ignored_in_le(snips.drop_last());
    }
}

proof fn lemma_ignored_le(docs: Seq<DocumentView>)
    ensures
        ignored_count(docs) <= snippet_count(docs),
    decreases docs.len(),
{
    if docs.len() > 0 {
        lemma_ignored_le(docs.drop_last());
        lemma_ignored_in_le(docs.last().snippets);
    }
}

} // verus!
