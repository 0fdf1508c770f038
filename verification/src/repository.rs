use vstd::prelude::*;
use crate::text::{chars_of, pieces_view, split_at_any, split_spec, string_of};

verus! {

/// A GitHub repository named `owner/repo`.
#[derive(Debug)]
pub struct Repository {
    pub owner: String,
    pub name: String,
}

/// A repository text that is not of the form `owner/repo`.
#[derive(Clone, Copy, Debug, PartialEq, Eq, Structural)]
pub struct RepositoryError;

/// A text names a repository when it splits at `/` into exactly two pieces,
/// neither of them empty.
pub open spec fn repository_form(s: Seq<char>) -> bool {
    let pieces = split_spec(s, seq!['/']);
    pieces.len() == 2 && pieces[0].len() > 0 && pieces[1].len() > 0
}

impl RepositoryError {
    pub open spec fn message_spec() -> Seq<char> {
        "GitHub repository must be in `owner/repo` form"@
    }

    /// The message that reports a malformed repository.
    pub fn message(&self) -> (r: String)
        ensures
            r@ == Self::message_spec(),
    {
        "GitHub repository must be in `owner/repo` form".to_owned()
    }
}

impl Repository {
    /// Reads `owner/repo`: the text before the one `/` is the owner, the text
    /// after it the name.
    pub fn parse(repository: &str) -> (r: Result<Repository, RepositoryError>)
        ensures
            r is Ok <==> repository_form(repository@),
            r matches Ok(repo) ==> repo.owner@ == split_spec(repository@, seq!['/'])[0]
                && repo.name@ == split_spec(repository@, seq!['/'])[1],
    {
        let chars = chars_of(repository);
        let seps = vec!['/'];
        assert(seps@ == seq!['/']);
        let pieces = split_at_any(&chars, &seps);
        let ghost pv = pieces_view(pieces@);
        assert(pv.len() == pieces@.len());
        if pieces.len() != 2 {
            return Err(RepositoryError);
        }
        assert(pv[0] == pieces@[0]@);
        assert(pv[1] == pieces@[1]@);
        if pieces[0].len() == 0 || pieces[1].len() == 0 {
            return Err(RepositoryError);
        }
        Ok(Repository { owner: string_of(&pieces[0]), name: string_of(&pieces[1]) })
    }
}

impl std::str::FromStr for Repository {
    type Err = RepositoryError;

    fn from_str(repository: &str) -> (r: Result<Repository, RepositoryError>)
        ensures
            r is Ok <==> repository_form(repository@),
            r matches Ok(repo) ==> repo.owner@ == split_spec(repository@, seq!['/'])[0]
                && repo.name@ == split_spec(repository@, seq!['/'])[1],
    {
        Repository::parse(repository)
    }
}

/// An accepted repository text is the owner, one `/`, and the name, and
/// neither part holds a `/`.
pub proof fn lemma_repository_parts(s: Seq<char>)
    requires
        repository_form(s),
    ensures
        s == split_spec(s, seq!['/'])[0] + seq!['/'] + split_spec(s, seq!['/'])[1],
        !split_spec(s, seq!['/'])[0].contains('/'),
        !split_spec(s, seq!['/'])[1].contains('/'),
{
    let seps = seq!['/'];
    lemma_split_pieces_join(s, seps);
    let p = split_spec(s, seps);
    assert(p.drop_last() =~= seq![p[0]]);
    assert(join_pieces(p.drop_last(), '/') == p[0]);
    assert(seps[0] == '/');
    assert(join_pieces(p, '/') == p[0] + seq!['/'] + p[1]);
}

/// Joining the pieces of a split with the one separator gives the text back,
/// and no piece holds a separator.
pub proof fn lemma_split_pieces_join(s: Seq<char>, seps: Seq<char>)
    requires
        seps.len() == 1,
    ensures
        join_pieces(split_spec(s, seps), seps[0]) == s,
        forall|i: int| 0 <= i < split_spec(s, seps).len() ==> !(#[trigger] split_spec(s, seps)[i]).contains(seps[0]),
    decreases s.len(),
{
    crate::text::lemma_split_len(s, seps);
    if s.len() == 0 {
        let e = Seq::<char>::empty();
        assert(split_spec(s, seps) == seq![e]);
        assert(join_pieces(seq![e], seps[0]) == e);
        assert(s =~= e);
    } else {
        let s0 = s.drop_last();
        let c = s.last();
        lemma_split_pieces_join(s0, seps);
        crate::text::lemma_split_len(s0, seps);
        let init = split_spec(s0, seps);
        if seps.contains(c) {
            assert(c == seps[0]);
            let p = init.push(Seq::<char>::empty());
            assert(p.drop_last() == init);
            assert(join_pieces(p, seps[0]) == join_pieces(init, seps[0]) + seq![seps[0]] + Seq::<char>::empty());
            assert(s0.push(c) =~= s);
            assert(join_pieces(init, seps[0]) + seq![seps[0]] + Seq::<char>::empty() =~= s);
            assert forall|i: int| 0 <= i < p.len() implies !(#[trigger] p[i]).contains(seps[0]) by {
                if i < init.len() {
                    assert(p[i] == init[i]);
                } else {
                    assert(p[i] == Seq::<char>::empty());
                }
            }
        } else {
            assert(c != seps[0]) by {
                if c == seps[0] {
                    assert(seps.contains(seps[0]));
                }
            }
            let n = init.len();
            let p = init.update(n - 1, init.last().push(c));
            lemma_join_update_last(init, c, seps[0]);
            assert(s0.push(c) =~= s);
            assert forall|i: int| 0 <= i < p.len() implies !(#[trigger] p[i]).contains(seps[0]) by {
                if i < n - 1 {
                    assert(p[i] == init[i]);
                } else {
                    assert(p[i] == init[n - 1].push(c));
                    assert(!init[n - 1].contains(seps[0]));
                    if p[i].contains(seps[0]) {
                        let k = choose|k: int| 0 <= k < p[i].len() && p[i][k] == seps[0];
                        if k < init[n - 1].len() {
                            assert(init[n - 1][k] == seps[0]);
                        }
                    }
                }
            }
        }
    }
}

/// Pieces joined with `sep` between them.
pub open spec fn join_pieces(pieces: Seq<Seq<char>>, sep: char) -> Seq<char>
    decreases pieces.len(),
{
    if pieces.len() == 0 {
        Seq::<char>::empty()
    } else if pieces.len() == 1 {
        pieces[0]
    } else {
        join_pieces(pieces.drop_last(), sep) + seq![sep] + pieces.last()
    }
}

proof fn lemma_join_update_last(pieces: Seq<Seq<char>>, c: char, sep: char)
    requires
        pieces.len() >= 1,
    ensures
        join_pieces(pieces.update(pieces.len() - 1, pieces.last().push(c)), sep) == join_pieces(pieces, sep).push(c),
{
    let p = pieces.update(pieces.len() - 1, pieces.last().push(c));
    if pieces.len() == 1 {
        assert(p[0] == pieces[0].push(c));
    } else {
        assert(p.drop_last() == pieces.drop_last());
        assert(join_pieces(pieces.drop_last(), sep) + seq![sep] + pieces.last().push(c)
            =~= (join_pieces(pieces.drop_last(), sep) + seq![sep] + pieces.last()).push(c));
    }
}

} // verus!
