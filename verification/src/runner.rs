use vstd::prelude::*;
use crate::discovery::{
    Document, DocumentView, Snippet, SnippetView, contains_chars, copy_chars, documents_view, snippets_view,
};
use crate::order::{insert_sorted, sorted_strict, strings_view};
use crate::text::{
    ascii_lower, chars_of, decimal, is_ascii_alphanumeric, pieces_view, push_decimal, push_str_chars, push_vec,
    split_at_any, split_spec, string_of, to_ascii_lowercase,
};

verus! {

// ---------------------------------------------------------------------------
// Paths
// ---------------------------------------------------------------------------

/// `Path::components` of a `/`-separated path, each as its text: a leading
/// `/` is the root, empty pieces and `.` pieces after the first are dropped.
pub open spec fn path_components(p: Seq<char>) -> Seq<Seq<char>> {
    let pieces = split_spec(p, seq!['/']);
    let rest = pieces.skip(1).filter(|c: Seq<char>| c.len() > 0 && c != "."@);
    if p.len() > 0 && p[0] == '/' {
        seq!["/"@] + rest
    } else if pieces[0].len() == 0 {
        rest
    } else {
        seq![pieces[0]] + rest
    }
}

/// The components of `p`, as `path_components` gives them.
pub fn components_of(p: &Vec<char>) -> (r: Vec<Vec<char>>)
    ensures
        pieces_view(r@) == path_components(p@),
{
    proof {
        reveal_strlit(".");
        reveal_strlit("/");
        crate::text::lemma_split_len(p@, seq!['/']);
    }
    let seps = vec!['/'];
    assert(seps@ == seq!['/']);
    let pieces = split_at_any(p, &seps);
    let ghost pv = pieces_view(pieces@);
    let ghost tail = pv.skip(1);
    let mut out: Vec<Vec<char>> = Vec::new();
    let rooted = p.len() > 0 && p[0] == '/';
    if rooted {
        out.push(chars_of("/"));
    } else if pieces[0].len() > 0 {
        out.push(copy_chars(&pieces[0]));
    }
    assert(pv[0] == pieces@[0]@);
    let ghost head = pieces_view(out@);
    assert(head == (if rooted { seq!["/"@] } else if pv[0].len() == 0 { Seq::<Seq<char>>::empty() } else { seq![pv[0]] }));
    let mut j: usize = 1;
    assert(tail.take(0) == Seq::<Seq<char>>::empty());
    assert(head + tail.take(0).filter(|c: Seq<char>| c.len() > 0 && c != "."@) =~= head);
    while j < pieces.len()
        invariant
            1 <= j <= pieces.len(),
            pv == pieces_view(pieces@),
            pv.len() >= 1,
            tail == pv.skip(1),
            pieces_view(out@) == head + tail.take(j - 1).filter(|c: Seq<char>| c.len() > 0 && c != "."@),
        decreases pieces.len() - j,
    {
        assert(pv[j as int] == pieces@[j as int]@);
        assert(tail[j - 1] == pv[j as int]);
        assert(tail.take(j as int).drop_last() == tail.take(j - 1));
        reveal_with_fuel(Seq::<_>::filter, 1);
        proof {
            reveal_strlit(".");
        }
        let piece = &pieces[j];
        let keep = piece.len() > 0 && !(piece.len() == 1 && piece[0] == '.');
        assert(keep == (pv[j as int].len() > 0 && pv[j as int] != "."@)) by {
            if piece.len() == 1 && piece[0] == '.' {
                assert(pv[j as int] =~= "."@);
            }
        }
        let ghost before = pieces_view(out@);
        if keep {
            out.push(copy_chars(piece));
            assert(pieces_view(out@) =~= before.push(pv[j as int]));
        } else {
            assert(pieces_view(out@) == before);
        }
        j = j + 1;
    }
    assert(tail.take(pieces.len() - 1) == tail);
    out
}

/// Why a document cannot be placed in a skill.
#[derive(Debug)]
pub enum SkillPathError {
    NoSkill,
    NotInSkillDirectory { path: String },
}

impl SkillPathError {
    pub open spec fn message_spec(self) -> Seq<char> {
        match self {
            SkillPathError::NoSkill => "document needs a skill"@,
            SkillPathError::NotInSkillDirectory { path } => "snippet documents must be inside a skill directory: "@
                + path@,
        }
    }

    /// The message that reports this error.
    pub fn message(&self) -> (r: String)
        ensures
            r@ == self.message_spec(),
    {
        match self {
            SkillPathError::NoSkill => "document needs a skill".to_owned(),
            SkillPathError::NotInSkillDirectory { path } => {
                let mut out = chars_of("snippet documents must be inside a skill directory: ");
                push_str_chars(&mut out, path.as_str());
                string_of(&out)
            },
        }
    }
}

/// The skill a document belongs to: the first component of its path, which
/// must have at least two.
pub fn skill(path: &str) -> (r: Result<String, SkillPathError>)
    ensures
        path_components(path@).len() == 0 ==> r matches Err(SkillPathError::NoSkill),
        path_components(path@).len() == 1 ==> (r matches Err(SkillPathError::NotInSkillDirectory { path: p })
            && p@ == path@),
        path_components(path@).len() > 1 ==> (r matches Ok(s) && s@ == path_components(path@)[0]),
{
    let chars = chars_of(path);
    let comps = components_of(&chars);
    let ghost cv = pieces_view(comps@);
    if comps.len() == 0 {
        return Err(SkillPathError::NoSkill);
    }
    if comps.len() == 1 {
        return Err(SkillPathError::NotInSkillDirectory { path: path.to_owned() });
    }
    assert(cv[0] == comps@[0]@);
    Ok(string_of(&comps[0]))
}

pub open spec fn skill_spec(path: Seq<char>) -> Option<Seq<char>> {
    if path_components(path).len() > 1 {
        Some(path_components(path)[0])
    } else {
        None
    }
}

/// The skills of the documents that hold snippets, each once and sorted; the
/// first document outside a skill directory stops with its error.
pub open spec fn selected_skills_spec(docs: Seq<DocumentView>) -> Option<Set<Seq<char>>>
    decreases docs.len(),
{
    if docs.len() == 0 {
        Some(Set::empty())
    } else {
        match selected_skills_spec(docs.drop_last()) {
            None => None,
            Some(s) => if docs.last().snippets.len() == 0 {
                Some(s)
            } else {
                match skill_spec(docs.last().path) {
                    None => None,
                    Some(k) => Some(s.insert(k)),
                }
            },
        }
    }
}

/// The index of the first document with snippets that is not in a skill.
pub open spec fn first_skill_error(docs: Seq<DocumentView>) -> Option<int>
    decreases docs.len(),
{
    if docs.len() == 0 {
        None
    } else {
        match first_skill_error(docs.drop_last()) {
            Some(i) => Some(i),
            None => if docs.last().snippets.len() > 0 && skill_spec(docs.last().path) is None {
                Some(docs.len() - 1)
            } else {
                None
            },
        }
    }
}

proof fn lemma_selected_skills(docs: Seq<DocumentView>)
    ensures
        selected_skills_spec(docs) is None <==> first_skill_error(docs) is Some,
        first_skill_error(docs) matches Some(i) ==> 0 <= i < docs.len() && docs[i].snippets.len() > 0
            && skill_spec(docs[i].path) is None,
    decreases docs.len(),
{
    if docs.len() > 0 {
        lemma_selected_skills(docs.drop_last());
    }
}

/// The skills whose documents were selected.
pub fn selected_skills(documents: &Vec<Document>) -> (r: Result<Vec<String>, SkillPathError>)
    ensures
        match selected_skills_spec(documents_view(documents@)) {
            Some(set) => (r matches Ok(v) && sorted_strict(strings_view(v@)) && strings_view(v@).to_set() == set),
            None => r is Err && (r matches Err(e) && first_skill_error(documents_view(documents@)) matches Some(i)
                && match e {
                SkillPathError::NoSkill => path_components(documents_view(documents@)[i].path).len() == 0,
                SkillPathError::NotInSkillDirectory { path } => path@ == documents_view(documents@)[i].path
                    && path_components(path@).len() == 1,
            }),
        },
{
    let ghost dv = documents_view(documents@);
    let mut skills: Vec<String> = Vec::new();
    let mut i: usize = 0;
    assert(dv.take(0) == Seq::<DocumentView>::empty());
    assert(strings_view(skills@).to_set() =~= Set::<Seq<char>>::empty());
    while i < documents.len()
        invariant
            0 <= i <= documents.len(),
            dv == documents_view(documents@),
            selected_skills_spec(dv.take(i as int)) == Some(strings_view(skills@).to_set()),
            first_skill_error(dv.take(i as int)) is None,
            sorted_strict(strings_view(skills@)),
        decreases documents.len() - i,
    {
        let doc = &documents[i];
        assert(dv[i as int] == doc@);
        assert(dv.take(i + 1).drop_last() == dv.take(i as int));
        assert(dv.take(i + 1).last() == dv[i as int]);
        if doc.snippets.len() > 0 {
            match skill(doc.path.as_str()) {
                Ok(s) => {
                    insert_sorted(&mut skills, s);
                },
                Err(e) => {
                    proof {
                        lemma_first_skill_error_extends(dv, i + 1);
                    }
                    return Err(e);
                },
            }
        }
        i = i + 1;
    }
    assert(dv.take(documents.len() as int) == dv);
    Ok(skills)
}

proof fn lemma_first_skill_error_extends(docs: Seq<DocumentView>, n: int)
    requires
        0 <= n <= docs.len(),
        first_skill_error(docs.take(n)) is Some,
    ensures
        first_skill_error(docs) == first_skill_error(docs.take(n)),
        selected_skills_spec(docs) is None,
    decreases docs.len() - n,
{
    lemma_selected_skills(docs);
    lemma_selected_skills(docs.take(n));
    if n < docs.len() {
        assert(docs.take(n + 1).drop_last() == docs.take(n));
        lemma_first_skill_error_extends(docs, n + 1);
    } else {
        assert(docs.take(n) == docs);
    }
}

/// `Path::starts_with`: the components of `base` begin the components of `path`.
pub open spec fn path_starts_with(path: Seq<char>, base: Seq<char>) -> bool {
    path_components(base).is_prefix_of(path_components(path))
}

/// Whether `path` lies below `base`, component by component.
pub fn starts_with_path(path: &str, base: &str) -> (r: bool)
    ensures
        r == path_starts_with(path@, base@),
{
    let a = components_of(&chars_of(path));
    let b = components_of(&chars_of(base));
    let ghost av = pieces_view(a@);
    let ghost bv = pieces_view(b@);
    if b.len() > a.len() {
        return false;
    }
    let mut i: usize = 0;
    while i < b.len()
        invariant
            0 <= i <= b.len() <= a.len(),
            av == pieces_view(a@),
            bv == pieces_view(b@),
            av == path_components(path@),
            bv == path_components(base@),
            forall|j: int| 0 <= j < i ==> bv[j] == av[j],
        decreases b.len() - i,
    {
        assert(av[i as int] == a@[i as int]@);
        assert(bv[i as int] == b@[i as int]@);
        if !crate::order::chars_equal(&a[i], &b[i]) {
            assert(av.subrange(0, bv.len() as int)[i as int] == av[i as int]);
            return false;
        }
        i = i + 1;
    }
    assert(bv =~= av.subrange(0, bv.len() as int));
    true
}

/// The indices of the documents that lie in `skill`.
pub fn skill_documents(documents: &Vec<Document>, skill: &str) -> (r: Vec<usize>)
    ensures
        r@.len() <= documents@.len(),
        forall|j: int| 0 <= j < r@.len() ==> (#[trigger] r@[j]) < documents@.len(),
        forall|j: int, k: int| 0 <= j < k < r@.len() ==> r@[j] < r@[k],
        forall|d: int|
            0 <= d < documents@.len() ==> (path_starts_with(documents@[d].path@, skill@) <==> r@.contains(
                d as usize,
            )),
{
    let mut r: Vec<usize> = Vec::new();
    let mut i: usize = 0;
    while i < documents.len()
        invariant
            0 <= i <= documents.len(),
            r@.len() <= i,
            forall|j: int| 0 <= j < r@.len() ==> (#[trigger] r@[j]) < i,
            forall|j: int, k: int| 0 <= j < k < r@.len() ==> r@[j] < r@[k],
            forall|d: int|
                0 <= d < i ==> (path_starts_with(documents@[d].path@, skill@) <==> r@.contains(d as usize)),
        decreases documents.len() - i,
    {
        let ghost before = r@;
        if starts_with_path(documents[i].path.as_str(), skill) {
            r.push(i);
            assert(r@[r@.len() - 1] == i);
        }
        assert forall|d: int| 0 <= d < i + 1 implies (path_starts_with(documents@[d].path@, skill@) <==> r@.contains(
            d as usize,
        )) by {
            if d < i {
                if before.contains(d as usize) {
                    let j = choose|j: int| 0 <= j < before.len() && before[j] == d as usize;
                    assert(r@[j] == d as usize);
                }
                if r@.contains(d as usize) {
                    let j = choose|j: int| 0 <= j < r@.len() && r@[j] == d as usize;
                    if j < before.len() {
                        assert(before[j] == d as usize);
                    }
                }
            } else {
                if r@.contains(d as usize) && !path_starts_with(documents@[d].path@, skill@) {
                    let j = choose|j: int| 0 <= j < r@.len() && r@[j] == d as usize;
                    assert(before[j] < i);
                }
                if path_starts_with(documents@[d].path@, skill@) {
                    assert(r@[r@.len() - 1] == d as usize);
                }
            }
        }
        i = i + 1;
    }
    r
}

// ---------------------------------------------------------------------------
// Generated test targets
// ---------------------------------------------------------------------------

/// `Path::file_name`: the last component, when it is a plain name.
pub open spec fn path_file_name(p: Seq<char>) -> Option<Seq<char>> {
    let cs = path_components(p);
    if cs.len() == 0 || cs.last() == "/"@ || cs.last() == "."@ || cs.last() == ".."@ {
        None
    } else {
        Some(cs.last())
    }
}

/// The index of the last `c` in `s`.
pub open spec fn last_index(s: Seq<char>, c: char) -> Option<int>
    decreases s.len(),
{
    if s.len() == 0 {
        None
    } else if s.last() == c {
        Some(s.len() - 1)
    } else {
        last_index(s.drop_last(), c)
    }
}

/// `Path::file_stem` of a file name: the text before its last `.`, unless the
/// name has no `.` or only a leading one.
pub open spec fn file_stem(name: Seq<char>) -> Seq<char> {
    match last_index(name, '.') {
        Some(k) => if k == 0 {
            name
        } else {
            name.take(k)
        },
        None => name,
    }
}

/// A character of a target name: ASCII letters and digits in lower case,
/// anything else as `_`.
pub open spec fn target_char(c: char) -> char {
    if is_ascii_alphanumeric(c) {
        ascii_lower(c)
    } else {
        '_'
    }
}

/// The name of the test target for document `index` at `path`.
pub open spec fn target_name_spec(index: nat, path: Seq<char>) -> Option<Seq<char>> {
    match path_file_name(path) {
        None => None,
        Some(name) => Some("document_"@ + decimal(index) + "_"@ + file_stem(name).map_values(|c: char| target_char(c))),
    }
}

/// A document whose path has no file name.
#[derive(Debug)]
pub struct TargetNameError {
    pub path: String,
}

impl TargetNameError {
    /// The message that reports this error.
    pub fn message(&self) -> (r: String)
        ensures
            r@ == "snippet document needs a UTF-8 file stem: "@ + self.path@,
    {
        let mut out = chars_of("snippet document needs a UTF-8 file stem: ");
        push_str_chars(&mut out, self.path.as_str());
        string_of(&out)
    }
}

fn last_index_of(s: &Vec<char>, c: char) -> (r: Option<usize>)
    ensures
        match r {
            Some(k) => last_index(s@, c) == Some(k as int) && k < s.len(),
            None => last_index(s@, c) is None,
        },
{
    let mut i: usize = s.len();
    assert(s@.take(i as int) == s@);
    while i > 0
        invariant
            0 <= i <= s.len(),
            last_index(s@, c) == last_index(s@.take(i as int), c),
        decreases i,
    {
        assert(s@.take(i as int).last() == s@[i - 1]);
        if s[i - 1] == c {
            return Some(i - 1);
        }
        assert(s@.take(i as int).drop_last() == s@.take(i - 1));
        i = i - 1;
    }
    None
}

/// The test target name for document number `index` at `path`:
/// `document_<index>_<file stem>`, with the stem's ASCII letters and digits
/// lowercased and every other character written as `_`.
pub fn target_name(index: usize, path: &str) -> (r: Result<String, TargetNameError>)
    ensures
        match target_name_spec(index as nat, path@) {
            Some(name) => (r matches Ok(s) && s@ == name),
            None => (r matches Err(e) && e.path@ == path@),
        },
{
    proof {
        reveal_strlit("/");
        reveal_strlit(".");
        reveal_strlit("..");
    }
    let comps = components_of(&chars_of(path));
    let ghost cv = pieces_view(comps@);
    if comps.len() == 0 {
        return Err(TargetNameError { path: path.to_owned() });
    }
    let last = &comps[comps.len() - 1];
    assert(cv.last() == last@);
    let special = (last.len() == 1 && (last[0] == '/' || last[0] == '.')) || (last.len() == 2 && last[0] == '.'
        && last[1] == '.');
    assert(special == (last@ == "/"@ || last@ == "."@ || last@ == ".."@)) by {
        if last.len() == 1 && last[0] == '/' {
            assert(last@ =~= "/"@);
        }
        if last.len() == 1 && last[0] == '.' {
            assert(last@ =~= "."@);
        }
        if last.len() == 2 && last[0] == '.' && last[1] == '.' {
            assert(last@ =~= ".."@);
        }
    }
    if special {
        return Err(TargetNameError { path: path.to_owned() });
    }
    let stem_len = match last_index_of(last, '.') {
        Some(k) => if k == 0 {
            last.len()
        } else {
            k
        },
        None => last.len(),
    };
    assert(file_stem(last@) == last@.take(stem_len as int)) by {
        if stem_len == last.len() {
            assert(last@.take(stem_len as int) == last@);
        }
    }
    let mut out = chars_of("document_");
    push_decimal(&mut out, index as u64);
    out.push('_');
    let ghost prefix = out@;
    let mut i: usize = 0;
    while i < stem_len
        invariant
            0 <= i <= stem_len <= last.len(),
            out@ == prefix + last@.take(i as int).map_values(|c: char| target_char(c)),
        decreases stem_len - i,
    {
        let c = last[i];
        let alnum = ('0' <= c && c <= '9') || ('a' <= c && c <= 'z') || ('A' <= c && c <= 'Z');
        let t = if alnum {
            to_ascii_lowercase(c)
        } else {
            '_'
        };
        out.push(t);
        assert(last@.take(i + 1).map_values(|c: char| target_char(c)) =~= last@.take(i as int).map_values(
            |c: char| target_char(c),
        ).push(target_char(c)));
        i = i + 1;
    }
    assert(prefix == "document_"@ + decimal(index as nat) + "_"@) by {
        reveal_strlit("_");
    }
    Ok(string_of(&out))
}

/// The attributes that take a snippet out of the shared test target.
pub open spec fn standalone_attribute(a: Seq<char>) -> bool {
    a == "compile_fail"@ || a == "should_panic"@ || a == "edition2015"@ || a == "edition2018"@ || a
        == "edition2021"@ || a == "edition2024"@ || a == "standalone_crate"@
}

/// A snippet goes into its document's shared test target when it is not
/// ignored and carries none of the standalone attributes; the others become
/// doctests.
pub open spec fn aggregate_spec(s: SnippetView) -> bool {
    !s.ignored && !exists|i: int| 0 <= i < s.attributes.len() && standalone_attribute(#[trigger] s.attributes[i])
}

/// Whether `snippet` goes into its document's shared test target.
pub fn aggregate(snippet: &Snippet) -> (r: bool)
    ensures
        r == aggregate_spec(snippet@),
{
    if snippet.ignored {
        return false;
    }
    let ghost av = strings_view(snippet.attributes@);
    let mut i: usize = 0;
    while i < snippet.attributes.len()
        invariant
            0 <= i <= snippet.attributes.len(),
            av == strings_view(snippet.attributes@),
            av == snippet@.attributes,
            !snippet.ignored,
            forall|j: int| 0 <= j < i ==> !standalone_attribute(#[trigger] av[j]),
        decreases snippet.attributes.len() - i,
    {
        let a = snippet.attributes[i].as_str();
        assert(av[i as int] == a@);
        if crate::discovery::str_eq(a, "compile_fail") || crate::discovery::str_eq(a, "should_panic")
            || crate::discovery::str_eq(a, "edition2015") || crate::discovery::str_eq(a, "edition2018")
            || crate::discovery::str_eq(a, "edition2021") || crate::discovery::str_eq(a, "edition2024")
            || crate::discovery::str_eq(a, "standalone_crate") {
            assert(standalone_attribute(av[i as int]));
            return false;
        }
        i = i + 1;
    }
    true
}

// ---------------------------------------------------------------------------
// Hidden lines
// ---------------------------------------------------------------------------

/// `str::split_inclusive('\n')`: the lines of `s`, each with its newline.
pub open spec fn lines_inclusive(s: Seq<char>) -> Seq<Seq<char>>
    decreases s.len(),
{
    if s.len() == 0 {
        Seq::empty()
    } else {
        match crate::discovery::first_index(s, '\n') {
            Some(k) => if 0 <= k < s.len() {
                seq![s.take(k + 1)] + lines_inclusive(s.skip(k + 1))
            } else {
                seq![s]
            },
            None => seq![s],
        }
    }
}

/// One line of a snippet as the compiler sees it: `##` escapes a leading `#`,
/// `# ` hides the rest of the line from readers, and a line holding only `#`
/// is blank.
pub open spec fn unhide_line(l: Seq<char>) -> Seq<char> {
    if l.len() >= 2 && l[0] == '#' && l[1] == '#' {
        seq!['#'] + l.skip(2)
    } else if l.len() >= 2 && l[0] == '#' && l[1] == ' ' {
        l.skip(2)
    } else if l == "#\n"@ || l == "#"@ {
        l.skip(1)
    } else {
        l
    }
}

/// The code with hidden lines shown.
pub open spec fn unhide_spec(code: Seq<char>) -> Seq<char>
    decreases code.len(),
{
    if code.len() == 0 {
        Seq::empty()
    } else {
        match crate::discovery::first_index(code, '\n') {
            Some(k) => if 0 <= k < code.len() {
                unhide_line(code.take(k + 1)) + unhide_spec(code.skip(k + 1))
            } else {
                unhide_line(code)
            },
            None => unhide_line(code),
        }
    }
}

fn unhide_line_exec(l: &Vec<char>) -> (r: Vec<char>)
    ensures
        r@ == unhide_line(l@),
{
    proof {
        reveal_strlit("#\n");
        reveal_strlit("#");
    }
    let n = l.len();
    let mut out: Vec<char> = Vec::new();
    let skip: usize = if n >= 2 && l[0] == '#' && l[1] == '#' {
        out.push('#');
        2
    } else if n >= 2 && l[0] == '#' && l[1] == ' ' {
        2
    } else if (n == 2 && l[0] == '#' && l[1] == '\n') || (n == 1 && l[0] == '#') {
        1
    } else {
        0
    };
    proof {
        if n == 2 && l[0] == '#' && l[1] == '\n' {
            assert(l@ =~= "#\n"@);
        }
        if n == 1 && l[0] == '#' {
            assert(l@ =~= "#"@);
        }
        if l@ == "#\n"@ {
            assert(n == 2 && l@[0] == '#' && l@[1] == '\n');
        }
        if l@ == "#"@ {
            assert(n == 1 && l@[0] == '#');
        }
    }
    let ghost start = out@;
    let mut i: usize = skip;
    while i < n
        invariant
            skip <= i <= n,
            n == l.len(),
            out@ == start + l@.subrange(skip as int, i as int),
        decreases n - i,
    {
        out.push(l[i]);
        assert(l@.subrange(skip as int, i + 1) == l@.subrange(skip as int, i as int).push(l@[i as int]));
        i = i + 1;
    }
    assert(l@.subrange(skip as int, n as int) == l@.skip(skip as int));
    if skip == 0 {
        assert(l@.skip(0) == l@);
    }
    out
}

/// Shows the hidden lines of a snippet's code, line by line.
pub fn unhide(code: &str) -> (r: String)
    ensures
        r@ == unhide_spec(code@),
{
    let chars = chars_of(code);
    let n = chars.len();
    let mut out: Vec<char> = Vec::new();
    let mut i: usize = 0;
    assert(chars@.skip(0) == chars@);
    while i < n
        invariant
            0 <= i <= n,
            n == chars.len(),
            chars@ == code@,
            unhide_spec(code@) == out@ + unhide_spec(chars@.skip(i as int)),
        decreases n - i,
    {
        let ghost rest = chars@.skip(i as int);
        let mut j: usize = i;
        while j < n && chars[j] != '\n'
            invariant
                i <= j <= n,
                n == chars.len(),
                forall|k: int| i <= k < j ==> chars@[k] != '\n',
            decreases n - j,
        {
            j = j + 1;
        }
        let end: usize = if j < n { j + 1 } else { n };
        proof {
            assert forall|k: int| 0 <= k < j - i implies rest[k] != '\n' by {
                assert(rest[k] == chars@[i + k]);
            }
            if j < n {
                assert(rest[j - i] == '\n');
                lemma_first_index_at(rest, '\n', j - i);
            } else {
                lemma_first_index_none(rest, '\n');
            }
        }
        let mut line: Vec<char> = Vec::new();
        let mut k: usize = i;
        while k < end
            invariant
                i <= k <= end <= n,
                n == chars.len(),
                line@ == chars@.subrange(i as int, k as int),
            decreases end - k,
        {
            line.push(chars[k]);
            assert(chars@.subrange(i as int, k + 1) == chars@.subrange(i as int, k as int).push(chars@[k as int]));
            k = k + 1;
        }
        assert(line@ == rest.take(end - i));
        let shown = unhide_line_exec(&line);
        push_vec(&mut out, &shown);
        proof {
            if j < n {
                assert(rest.skip(end - i) == chars@.skip(end as int));
            } else {
                assert(rest.take(end - i) == rest);
                assert(chars@.skip(end as int).len() == 0);
            }
        }
        i = end;
    }
    assert(chars@.skip(n as int).len() == 0);
    assert(out@ + Seq::<char>::empty() == out@);
    string_of(&out)
}

proof fn lemma_first_index_at(s: Seq<char>, c: char, k: int)
    requires
        0 <= k < s.len(),
        s[k] == c,
        forall|j: int| 0 <= j < k ==> s[j] != c,
    ensures
        crate::discovery::first_index(s, c) == Some(k),
    decreases s.len(),
{
    if k > 0 {
        assert forall|j: int| 0 <= j < k - 1 implies s.drop_first()[j] != c by {
            assert(s.drop_first()[j] == s[j + 1]);
        }
        lemma_first_index_at(s.drop_first(), c, k - 1);
    }
}

proof fn lemma_first_index_none(s: Seq<char>, c: char)
    requires
        forall|j: int| 0 <= j < s.len() ==> s[j] != c,
    ensures
        crate::discovery::first_index(s, c) is None,
    decreases s.len(),
{
    if s.len() > 0 {
        assert forall|j: int| 0 <= j < s.len() - 1 implies s.drop_first()[j] != c by {
            assert(s.drop_first()[j] == s[j + 1]);
        }
        lemma_first_index_none(s.drop_first(), c);
    }
}


// ---------------------------------------------------------------------------
// Checking a generated crate
// ---------------------------------------------------------------------------

/// The Cargo runs that check a generated crate, in order: Clippy with every
/// warning denied, then the test targets, then the doctests. After `passed`
/// successful runs this is the next one, or `None` when all have passed; a
/// failed run ends the checks.
pub open spec fn validate_step(passed: nat) -> Option<Seq<Seq<char>>> {
    if passed == 0 {
        Some(seq!["clippy"@, "--all-targets"@, "--all-features"@, "--"@, "-D"@, "warnings"@])
    } else if passed == 1 {
        Some(seq!["test"@, "--tests"@, "--all-features"@])
    } else if passed == 2 {
        Some(seq!["test"@, "--doc"@, "--all-features"@])
    } else {
        None
    }
}

fn strings_from(parts: &Vec<&str>) -> (r: Vec<String>)
    ensures
        strings_view(r@) == parts@.map_values(|s: &str| s@),
{
    let mut r: Vec<String> = Vec::new();
    let mut i: usize = 0;
    while i < parts.len()
        invariant
            0 <= i <= parts.len(),
            strings_view(r@) == parts@.map_values(|s: &str| s@).take(i as int),
        decreases parts.len() - i,
    {
        let ghost before = strings_view(r@);
        r.push(parts[i].to_owned());
        assert(strings_view(r@) =~= before.push(parts@[i as int]@));
        assert(parts@.map_values(|s: &str| s@).take(i + 1) =~= parts@.map_values(|s: &str| s@).take(i as int).push(
            parts@[i as int]@,
        ));
        i = i + 1;
    }
    assert(parts@.map_values(|s: &str| s@).take(parts.len() as int) == parts@.map_values(|s: &str| s@));
    r
}

/// The arguments of the next Cargo run that checks a generated crate, after
/// `passed` successful ones; see `validate_step`.
pub fn validate(passed: usize) -> (r: Option<Vec<String>>)
    ensures
        match validate_step(passed as nat) {
            Some(args) => (r matches Some(v) && strings_view(v@) == args),
            None => r is None,
        },
{
    if passed == 0 {
        let parts = vec!["clippy", "--all-targets", "--all-features", "--", "-D", "warnings"];
        let r = strings_from(&parts);
        assert(parts@.map_values(|s: &str| s@) =~= seq!["clippy"@, "--all-targets"@, "--all-features"@, "--"@, "-D"@, "warnings"@]);
        Some(r)
    } else if passed == 1 {
        let parts = vec!["test", "--tests", "--all-features"];
        let r = strings_from(&parts);
        assert(parts@.map_values(|s: &str| s@) =~= seq!["test"@, "--tests"@, "--all-features"@]);
        Some(r)
    } else if passed == 2 {
        let parts = vec!["test", "--doc", "--all-features"];
        let r = strings_from(&parts);
        assert(parts@.map_values(|s: &str| s@) =~= seq!["test"@, "--doc"@, "--all-features"@]);
        Some(r)
    } else {
        None
    }
}

/// The command line of a Cargo run on the crate at `manifest_path`: the
/// subcommand, then `--manifest-path` and the manifest, then the other
/// arguments.
pub fn cargo_arguments(args: &Vec<String>, manifest_path: &str) -> (r: Vec<String>)
    requires
        args@.len() >= 1,
    ensures
        strings_view(r@) == seq![args@[0]@, "--manifest-path"@, manifest_path@] + strings_view(args@).skip(1),
{
    let mut r: Vec<String> = Vec::new();
    r.push(args[0].clone());
    r.push("--manifest-path".to_owned());
    r.push(manifest_path.to_owned());
    let ghost head = strings_view(r@);
    assert(head =~= seq![args@[0]@, "--manifest-path"@, manifest_path@]);
    let mut i: usize = 1;
    while i < args.len()
        invariant
            1 <= i <= args.len(),
            strings_view(r@) == head + strings_view(args@).subrange(1, i as int),
        decreases args.len() - i,
    {
        let ghost before = strings_view(r@);
        r.push(args[i].clone());
        assert(strings_view(r@) =~= before.push(args@[i as int]@));
        assert(strings_view(args@).subrange(1, i + 1) =~= strings_view(args@).subrange(1, i as int).push(
            args@[i as int]@,
        ));
        i = i + 1;
    }
    assert(strings_view(args@).subrange(1, args.len() as int) =~= strings_view(args@).skip(1));
    r
}

// ---------------------------------------------------------------------------
// Rendering a document's shared test target
// ---------------------------------------------------------------------------

/// Whether the snippet is only compiled, not run.
pub fn is_no_run(snippet: &Snippet) -> (r: bool)
    ensures
        r == strings_view(snippet.attributes@).contains("no_run"@),
{
    let ghost av = strings_view(snippet.attributes@);
    let mut i: usize = 0;
    while i < snippet.attributes.len()
        invariant
            0 <= i <= snippet.attributes.len(),
            av == strings_view(snippet.attributes@),
            forall|j: int| 0 <= j < i ==> av[j] != "no_run"@,
        decreases snippet.attributes.len() - i,
    {
        assert(av[i as int] == snippet.attributes@[i as int]@);
        if crate::discovery::str_eq(snippet.attributes[i].as_str(), "no_run") {
            return true;
        }
        i = i + 1;
    }
    false
}

/// The text that is parsed as a block: the code between braces.
pub fn block_source(code: &str) -> (r: String)
    ensures
        r@ == "{\n"@ + code@ + "\n}"@,
{
    let mut out = chars_of("{\n");
    push_str_chars(&mut out, code);
    push_str_chars(&mut out, "\n}");
    string_of(&out)
}

/// A snippet's own `main` runs as a test unless the snippet is only compiled.
pub open spec fn runs_main_spec(no_run: bool, fn_names: Seq<Seq<char>>) -> bool {
    !no_run && fn_names.contains("main"@)
}

/// Whether the snippet's `main` runs as a test, given the names of the
/// functions among its items.
pub fn runs_main(no_run: bool, fn_names: &Vec<String>) -> (r: bool)
    ensures
        r == runs_main_spec(no_run, strings_view(fn_names@)),
{
    if no_run {
        return false;
    }
    let ghost nv = strings_view(fn_names@);
    let mut i: usize = 0;
    while i < fn_names.len()
        invariant
            0 <= i <= fn_names.len(),
            nv == strings_view(fn_names@),
            !no_run,
            forall|j: int| 0 <= j < i ==> nv[j] != "main"@,
        decreases fn_names.len() - i,
    {
        assert(nv[i as int] == fn_names@[i as int]@);
        if crate::discovery::str_eq(fn_names[i].as_str(), "main") {
            return true;
        }
        i = i + 1;
    }
    false
}

/// The function that holds a snippet's statements: a test that runs them, or
/// (for a snippet that is only compiled) a plain function.
pub open spec fn statements_function(statements: Seq<char>, no_run: bool) -> Seq<char> {
    (if no_run { ""@ } else { "#[test]"@ }) + " fn "@ + (if no_run { "compile"@ } else { "run"@ })
        + "() -> impl ::std::process::Termination { "@ + statements + " }"@
}

/// The module for one snippet, with the modules of the later snippets nested
/// inside it so that they see its items.
pub open spec fn snippet_module_spec(
    line: nat,
    attributes: Seq<char>,
    items: Seq<char>,
    statements: Option<Seq<char>>,
    no_run: bool,
    runs_main: bool,
    nested: Seq<char>,
) -> Seq<char> {
    "mod snippet_line_"@ + decimal(line) + " { "@ + attributes + " #[allow(unused_imports)] use super::*; "@ + items
        + " "@ + match statements {
        Some(s) => statements_function(s, no_run),
        None => ""@,
    } + " "@ + (if runs_main {
        "#[test] fn run_main() -> impl ::std::process::Termination { main() }"@
    } else {
        ""@
    }) + " "@ + nested + " }\n"@
}

/// Builds `snippet_module_spec`.
pub fn snippet_module(
    line: usize,
    attributes: &str,
    items: &str,
    statements: Option<&str>,
    no_run: bool,
    runs_main: bool,
    nested: &str,
) -> (r: String)
    ensures
        r@ == snippet_module_spec(
            line as nat,
            attributes@,
            items@,
            match statements {
                Some(s) => Some(s@),
                None => None,
            },
            no_run,
            runs_main,
            nested@,
        ),
{
    let mut out = chars_of("mod snippet_line_");
    push_decimal(&mut out, line as u64);
    push_str_chars(&mut out, " { ");
    push_str_chars(&mut out, attributes);
    push_str_chars(&mut out, " #[allow(unused_imports)] use super::*; ");
    push_str_chars(&mut out, items);
    push_str_chars(&mut out, " ");
    let ghost before_statements = out@;
    match statements {
        Some(s) => {
            if no_run {
                push_str_chars(&mut out, "");
            } else {
                push_str_chars(&mut out, "#[test]");
            }
            push_str_chars(&mut out, " fn ");
            if no_run {
                push_str_chars(&mut out, "compile");
            } else {
                push_str_chars(&mut out, "run");
            }
            push_str_chars(&mut out, "() -> impl ::std::process::Termination { ");
            push_str_chars(&mut out, s);
            push_str_chars(&mut out, " }");
            assert(out@ == before_statements + statements_function(s@, no_run));
        },
        None => {
            push_str_chars(&mut out, "");
        },
    }
    push_str_chars(&mut out, " ");
    if runs_main {
        push_str_chars(&mut out, "#[test] fn run_main() -> impl ::std::process::Termination { main() }");
    } else {
        push_str_chars(&mut out, "");
    }
    push_str_chars(&mut out, " ");
    push_str_chars(&mut out, nested);
    push_str_chars(&mut out, " }\n");
    string_of(&out)
}

/// The generated source of a document's test target, before it is parsed
/// and printed again.
pub open spec fn document_source_spec(nested: Seq<char>) -> Seq<char> {
    "#![allow(dead_code, unused_assignments, unused_attributes, unused_imports, unused_mut, unused_variables)]\n"@
        + nested
}

/// Builds `document_source_spec`.
pub fn document_source(nested: &str) -> (r: String)
    ensures
        r@ == document_source_spec(nested@),
{
    let mut out = chars_of(
        "#![allow(dead_code, unused_assignments, unused_attributes, unused_imports, unused_mut, unused_variables)]\n",
    );
    push_str_chars(&mut out, nested);
    string_of(&out)
}


/// What one snippet contributes to its document's test target, as token
/// text: inner attributes, items, statements (when there are any), whether it
/// is only compiled, and whether its `main` runs as a test.
pub struct SnippetParts {
    pub line: usize,
    pub attributes: String,
    pub items: String,
    pub statements: Option<String>,
    pub no_run: bool,
    pub runs_main: bool,
}

pub open spec fn parts_module(p: SnippetParts, nested: Seq<char>) -> Seq<char> {
    snippet_module_spec(
        p.line as nat,
        p.attributes@,
        p.items@,
        match p.statements {
            Some(s) => Some(s@),
            None => None,
        },
        p.no_run,
        p.runs_main,
        nested,
    )
}

/// The snippet modules, each later one nested inside the one before it.
pub open spec fn nest_spec(parts: Seq<SnippetParts>) -> Seq<char>
    decreases parts.len(),
{
    if parts.len() == 0 {
        Seq::empty()
    } else {
        parts_module(parts[0], nest_spec(parts.drop_first()))
    }
}

/// The generated source of a document's test target from its snippets.
pub fn nest_modules(parts: &Vec<SnippetParts>) -> (r: String)
    ensures
        r@ == document_source_spec(nest_spec(parts@)),
{
    let mut nested = String::new();
    let mut i: usize = parts.len();
    assert(parts@.skip(i as int) =~= Seq::<SnippetParts>::empty());
    while i > 0
        invariant
            0 <= i <= parts.len(),
            nested@ == nest_spec(parts@.skip(i as int)),
        decreases i,
    {
        let p = &parts[i - 1];
        let statements = match &p.statements {
            Some(s) => Some(s.as_str()),
            None => None,
        };
        let next = snippet_module(
            p.line,
            p.attributes.as_str(),
            p.items.as_str(),
            statements,
            p.no_run,
            p.runs_main,
            nested.as_str(),
        );
        assert(parts@.skip(i - 1).drop_first() =~= parts@.skip(i as int));
        assert(parts@.skip(i - 1)[0] == parts@[i - 1]);
        nested = next;
        i = i - 1;
    }
    assert(parts@.skip(0) == parts@);
    document_source(nested.as_str())
}

// ---------------------------------------------------------------------------
// The generated crate
// ---------------------------------------------------------------------------

/// The crate settings of a skill: its Rust version, and the rest of its
/// setup as TOML.
#[derive(Debug)]
pub struct Setup {
    pub rust_version: String,
    pub cargo: String,
}

/// One file of the generated crate: its path in the crate and its contents.
#[derive(Debug)]
pub struct GeneratedFile {
    pub path: String,
    pub contents: String,
}

pub open spec fn generated_view(v: Seq<GeneratedFile>) -> Seq<(Seq<char>, Seq<char>)> {
    v.map_values(|f: GeneratedFile| (f.path@, f.contents@))
}

/// What `format!("{:?}", s)` gives for a string: `s` quoted, with the
/// characters that need it escaped.
pub uninterp spec fn rust_debug_str(s: Seq<char>) -> Seq<char>;

/// `<str as Debug>::fmt`: the quoted, escaped form of `s`.
#[verifier::external_body]
fn debug_quoted(s: &str) -> (r: String)
    ensures
        r@ == rust_debug_str(s@),
{
    format!("{s:?}")
}

pub open spec fn test_file_path(name: Seq<char>) -> Seq<char> {
    "tests/"@ + name + ".rs"@
}

/// The manifest entry of one test target.
pub open spec fn target_entry(name: Seq<char>) -> Seq<char> {
    "[[test]]\nname = "@ + rust_debug_str(name) + "\npath = "@ + rust_debug_str(test_file_path(name)) + "\n\n"@
}

/// The doctest item for a snippet that does not join the shared target.
pub open spec fn doctest_entry(index: nat, s: SnippetView) -> Seq<char> {
    "#[doc = "@ + rust_debug_str("```"@ + s.info + "\n"@ + s.code + "\n```"@) + "]\npub mod document_"@ + decimal(
        index,
    ) + "_line_"@ + decimal(s.line) + " {}\n"@
}

/// The doctest items of one document's standalone snippets.
pub open spec fn doctests_of(index: nat, snips: Seq<SnippetView>) -> Seq<char>
    decreases snips.len(),
{
    if snips.len() == 0 {
        Seq::empty()
    } else {
        doctests_of(index, snips.drop_last()) + if aggregate_spec(snips.last()) {
            Seq::<char>::empty()
        } else {
            doctest_entry(index, snips.last())
        }
    }
}

pub open spec fn has_ordinary(snips: Seq<SnippetView>) -> bool {
    exists|i: int| 0 <= i < snips.len() && aggregate_spec(#[trigger] snips[i])
}

/// The test files, manifest entries and doctests of the first `n` documents;
/// a document without a file name stops with its path.
pub open spec fn prepare_fold(docs: Seq<DocumentView>, rendered: Seq<Option<Seq<char>>>, n: nat) -> Result<
    (Seq<(Seq<char>, Seq<char>)>, Seq<char>, Seq<char>),
    Seq<char>,
>
    decreases n,
{
    if n == 0 {
        Ok((Seq::empty(), Seq::empty(), Seq::empty()))
    } else {
        match prepare_fold(docs, rendered, (n - 1) as nat) {
            Err(p) => Err(p),
            Ok((files, targets, doctests)) => {
                let index = (n - 1) as nat;
                let doc = docs[index as int];
                let more_doctests = doctests + doctests_of(index, doc.snippets);
                if has_ordinary(doc.snippets) {
                    match target_name_spec(index, doc.path) {
                        None => Err(doc.path),
                        Some(name) => Ok(
                            (
                                files.push((test_file_path(name), rendered[index as int]->0)),
                                targets + target_entry(name),
                                more_doctests,
                            ),
                        ),
                    }
                } else {
                    Ok((files, targets, more_doctests))
                }
            },
        }
    }
}

/// The manifest of the generated crate.
pub open spec fn manifest_text(skill: Seq<char>, setup_version: Seq<char>, setup_cargo: Seq<char>, lints: Seq<char>, targets: Seq<char>) -> Seq<char> {
    "[package]\nname = "@ + rust_debug_str(skill + "-skill-snippets"@) + "\nversion = \"0.0.0\"\nedition = \"2024\"\nrust-version = "@
        + rust_debug_str(setup_version)
        + "\npublish = false\nautotests = false\n\n[workspace]\n\n[lints]\nworkspace = true\n\n"@ + lints + setup_cargo
        + "\n"@ + targets
}

/// The files of the generated crate: one test target per document with
/// shared snippets, `src/lib.rs` holding the doctests, and the manifest.
pub open spec fn prepare_spec(
    skill: Seq<char>,
    setup_version: Seq<char>,
    setup_cargo: Seq<char>,
    lints: Seq<char>,
    docs: Seq<DocumentView>,
    rendered: Seq<Option<Seq<char>>>,
) -> Result<Seq<(Seq<char>, Seq<char>)>, Seq<char>> {
    match prepare_fold(docs, rendered, docs.len()) {
        Err(p) => Err(p),
        Ok((files, targets, doctests)) => Ok(
            files + seq![
                ("src/lib.rs"@, doctests),
                ("Cargo.toml"@, manifest_text(skill, setup_version, setup_cargo, lints, targets)),
            ],
        ),
    }
}

pub open spec fn selected_documents(documents: Seq<Document>, selected: Seq<usize>) -> Seq<DocumentView> {
    selected.map_values(|i: usize| documents[i as int]@)
}

pub open spec fn rendered_view(rendered: Seq<Option<String>>) -> Seq<Option<Seq<char>>> {
    rendered.map_values(|r: Option<String>| match r {
        Some(s) => Some(s@),
        None => None,
    })
}

/// The positions of the snippets that join their document's shared test
/// target, in order.
pub open spec fn ordinary_indices(snips: Seq<SnippetView>) -> Seq<usize>
    decreases snips.len(),
{
    if snips.len() == 0 {
        Seq::empty()
    } else {
        ordinary_indices(snips.drop_last()) + if aggregate_spec(snips.last()) {
            seq![(snips.len() - 1) as usize]
        } else {
            Seq::empty()
        }
    }
}

/// The snippets of a document that join its shared test target.
pub fn ordinary_snippets(snippets: &Vec<Snippet>) -> (r: Vec<usize>)
    ensures
        r@ == ordinary_indices(snippets_view(snippets@)),
        forall|j: int| 0 <= j < r@.len() ==> (#[trigger] r@[j]) < snippets@.len(),
        forall|j: int, k: int| 0 <= j < k < r@.len() ==> r@[j] < r@[k],
        forall|i: int| 0 <= i < snippets@.len() ==> (aggregate_spec(snippets@[i]@) <==> r@.contains(i as usize)),
        r@.len() > 0 <==> has_ordinary(snippets_view(snippets@)),
{
    let mut r: Vec<usize> = Vec::new();
    let mut i: usize = 0;
    while i < snippets.len()
        invariant
            0 <= i <= snippets.len(),
            forall|j: int| 0 <= j < r@.len() ==> (#[trigger] r@[j]) < i,
            forall|j: int, k: int| 0 <= j < k < r@.len() ==> r@[j] < r@[k],
            forall|d: int| 0 <= d < i ==> (aggregate_spec(snippets@[d]@) <==> r@.contains(d as usize)),
            r@ == ordinary_indices(snippets_view(snippets@).take(i as int)),
        decreases snippets.len() - i,
    {
        let ghost before = r@;
        proof {
            let sv = snippets_view(snippets@);
            assert(sv.take(i + 1).drop_last() =~= sv.take(i as int));
            assert(sv.take(i + 1).last() == snippets@[i as int]@);
        }
        if aggregate(&snippets[i]) {
            r.push(i);
            assert(r@[r@.len() - 1] == i);
        }
        assert forall|d: int| 0 <= d < i + 1 implies (aggregate_spec(snippets@[d]@) <==> r@.contains(d as usize)) by {
            if d < i {
                if before.contains(d as usize) {
                    let j = choose|j: int| 0 <= j < before.len() && before[j] == d as usize;
                    assert(r@[j] == d as usize);
                }
                if r@.contains(d as usize) {
                    let j = choose|j: int| 0 <= j < r@.len() && r@[j] == d as usize;
                    if j < before.len() {
                        assert(before[j] == d as usize);
                    }
                }
            } else {
                if r@.contains(d as usize) && !aggregate_spec(snippets@[d]@) {
                    let j = choose|j: int| 0 <= j < r@.len() && r@[j] == d as usize;
                    assert(before[j] < i);
                }
                if aggregate_spec(snippets@[d]@) {
                    assert(r@[r@.len() - 1] == d as usize);
                }
            }
        }
        i = i + 1;
    }
    proof {
        let sv = snippets_view(snippets@);
        assert(sv.take(snippets.len() as int) =~= sv);
        if r@.len() > 0 {
            let d = r@[0] as int;
            assert(r@.contains(r@[0]));
            assert(sv[d] == snippets@[d]@);
        }
        if has_ordinary(sv) {
            let d = choose|d: int| 0 <= d < sv.len() && aggregate_spec(#[trigger] sv[d]);
            assert(sv[d] == snippets@[d]@);
            assert(r@.contains(d as usize));
        }
    }
    r
}


fn doctest_text(index: usize, snippet: &Snippet) -> (r: Vec<char>)
    ensures
        r@ == doctest_entry(index as nat, snippet@),
{
    let mut markdown = chars_of("```");
    push_str_chars(&mut markdown, snippet.info.as_str());
    push_str_chars(&mut markdown, "\n");
    push_str_chars(&mut markdown, snippet.code.as_str());
    push_str_chars(&mut markdown, "\n```");
    let quoted = debug_quoted(string_of(&markdown).as_str());
    let mut out = chars_of("#[doc = ");
    push_str_chars(&mut out, quoted.as_str());
    push_str_chars(&mut out, "]\npub mod document_");
    push_decimal(&mut out, index as u64);
    push_str_chars(&mut out, "_line_");
    push_decimal(&mut out, snippet.line as u64);
    push_str_chars(&mut out, " {}\n");
    out
}

fn target_text(name: &str) -> (r: Vec<char>)
    ensures
        r@ == target_entry(name@),
{
    let mut path = chars_of("tests/");
    push_str_chars(&mut path, name);
    push_str_chars(&mut path, ".rs");
    let mut out = chars_of("[[test]]\nname = ");
    push_str_chars(&mut out, debug_quoted(name).as_str());
    push_str_chars(&mut out, "\npath = ");
    push_str_chars(&mut out, debug_quoted(string_of(&path).as_str()).as_str());
    push_str_chars(&mut out, "\n\n");
    out
}

/// The files of the crate that checks the snippets of one skill, built from
/// the skill's documents (`selected`, indices into `documents`) and the
/// rendered test target of each document that has shared snippets.
pub fn prepare(
    skill: &str,
    setup: &Setup,
    lints: &str,
    documents: &Vec<Document>,
    selected: &Vec<usize>,
    rendered: &Vec<Option<String>>,
) -> (r: Result<Vec<GeneratedFile>, TargetNameError>)
    requires
        forall|j: int| 0 <= j < selected@.len() ==> (#[trigger] selected@[j]) < documents@.len(),
        rendered@.len() == selected@.len(),
        forall|j: int|
            0 <= j < selected@.len() && has_ordinary(documents@[(#[trigger] selected@[j]) as int]@.snippets)
                ==> rendered@[j] is Some,
    ensures
        match prepare_spec(
            skill@,
            setup.rust_version@,
            setup.cargo@,
            lints@,
            selected_documents(documents@, selected@),
            rendered_view(rendered@),
        ) {
            Ok(files) => (r matches Ok(v) && generated_view(v@) == files),
            Err(p) => (r matches Err(e) && e.path@ == p),
        },
{
    let ghost docs = selected_documents(documents@, selected@);
    let ghost rv = rendered_view(rendered@);
    let mut files: Vec<GeneratedFile> = Vec::new();
    let mut targets: Vec<char> = Vec::new();
    let mut doctests: Vec<char> = Vec::new();
    let mut n: usize = 0;
    assert(generated_view(files@) =~= Seq::<(Seq<char>, Seq<char>)>::empty());
    while n < selected.len()
        invariant
            0 <= n <= selected.len(),
            docs == selected_documents(documents@, selected@),
            rv == rendered_view(rendered@),
            rendered@.len() == selected@.len(),
            forall|j: int| 0 <= j < selected@.len() ==> (#[trigger] selected@[j]) < documents@.len(),
            forall|j: int|
                0 <= j < selected@.len() && has_ordinary(documents@[(#[trigger] selected@[j]) as int]@.snippets)
                    ==> rendered@[j] is Some,
            prepare_fold(docs, rv, n as nat) == Ok::<(Seq<(Seq<char>, Seq<char>)>, Seq<char>, Seq<char>), Seq<char>>(
                (generated_view(files@), targets@, doctests@),
            ),
        decreases selected.len() - n,
    {
        let doc = &documents[selected[n]];
        assert(docs[n as int] == doc@);
        let ordinary = ordinary_snippets(&doc.snippets);
        let ghost sv = snippets_view(doc.snippets@);
        if ordinary.len() > 0 {
            let name = match target_name(n, doc.path.as_str()) {
                Ok(name) => name,
                Err(e) => {
                    proof {
                        lemma_prepare_fold_err(docs, rv, (n + 1) as nat, docs.len());
                    }
                    return Err(e);
                },
            };
            let contents = match &rendered[n] {
                Some(text) => text.clone(),
                None => String::new(),
            };
            assert(rv[n as int] == Some(contents@));
            let mut path = chars_of("tests/");
            push_str_chars(&mut path, name.as_str());
            push_str_chars(&mut path, ".rs");
            let ghost before = generated_view(files@);
            let file = GeneratedFile { path: string_of(&path), contents };
            files.push(file);
            assert(generated_view(files@) =~= before.push((test_file_path(name@), contents@)));
            let entry = target_text(name.as_str());
            push_vec(&mut targets, &entry);
        }
        let ghost base = doctests@;
        let mut k: usize = 0;
        assert(sv.take(0) == Seq::<SnippetView>::empty());
        while k < doc.snippets.len()
            invariant
                0 <= k <= doc.snippets.len(),
                sv == snippets_view(doc.snippets@),
                doctests@ == base + doctests_of(n as nat, sv.take(k as int)),
            decreases doc.snippets.len() - k,
        {
            assert(sv.take(k + 1).drop_last() == sv.take(k as int));
            assert(sv.take(k + 1).last() == doc.snippets@[k as int]@);
            if !aggregate(&doc.snippets[k]) {
                let entry = doctest_text(n, &doc.snippets[k]);
                push_vec(&mut doctests, &entry);
            }
            assert(doctests@ == base + doctests_of(n as nat, sv.take(k + 1)));
            k = k + 1;
        }
        assert(sv.take(doc.snippets.len() as int) == sv);
        n = n + 1;
    }
    let lib_file = GeneratedFile { path: "src/lib.rs".to_owned(), contents: string_of(&doctests) };
    let mut package = chars_of(skill);
    push_str_chars(&mut package, "-skill-snippets");
    let mut manifest = chars_of("[package]\nname = ");
    push_str_chars(&mut manifest, debug_quoted(string_of(&package).as_str()).as_str());
    push_str_chars(&mut manifest, "\nversion = \"0.0.0\"\nedition = \"2024\"\nrust-version = ");
    push_str_chars(&mut manifest, debug_quoted(setup.rust_version.as_str()).as_str());
    push_str_chars(
        &mut manifest,
        "\npublish = false\nautotests = false\n\n[workspace]\n\n[lints]\nworkspace = true\n\n",
    );
    push_str_chars(&mut manifest, lints);
    push_str_chars(&mut manifest, setup.cargo.as_str());
    push_str_chars(&mut manifest, "\n");
    push_vec(&mut manifest, &targets);
    let manifest_file = GeneratedFile { path: "Cargo.toml".to_owned(), contents: string_of(&manifest) };
    let ghost before = generated_view(files@);
    let ghost lib_entry = (lib_file.path@, lib_file.contents@);
    let ghost manifest_entry = (manifest_file.path@, manifest_file.contents@);
    files.push(lib_file);
    files.push(manifest_file);
    assert(generated_view(files@) =~= before + seq![lib_entry, manifest_entry]);
    Ok(files)
}

proof fn lemma_prepare_fold_err(docs: Seq<DocumentView>, rendered: Seq<Option<Seq<char>>>, n: nat, m: nat)
    requires
        n <= m,
        prepare_fold(docs, rendered, n) is Err,
    ensures
        prepare_fold(docs, rendered, m) == prepare_fold(docs, rendered, n),
    decreases m - n,
{
    if n < m {
        lemma_prepare_fold_err(docs, rendered, n, (m - 1) as nat);
    }
}

} // verus!
