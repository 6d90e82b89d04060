//! The origin form of a URI: an absolute path and perhaps a query.
use vstd::prelude::*;
use crate::encoding::{decode_form, decode_path, form_decoded, path_decoded};
use crate::text::{after, before, clone_strings, lemma_split_nonempty, opt_str, opt_text, split};
use crate::text::{law_parted, law_split, split_at_char, split_text, texts};

verus! {

/// A name and a value.
pub type Pair = (Seq<char>, Seq<char>);

/// An origin as texts.
#[verifier::ext_equal]
pub struct OriginView {
    pub path: Seq<char>,
    pub query: Option<Seq<char>>,
}

/// The pieces of a path between its slashes; a leading slash opens the first piece.
pub open spec fn raw_segments(path: Seq<char>) -> Seq<Seq<char>> {
    if path.len() == 0 {
        Seq::empty()
    } else if path[0] == '/' {
        split(path.skip(1), '/')
    } else {
        split(path, '/')
    }
}

/// The pieces that are not empty, in their order.
pub open spec fn nonempty(pieces: Seq<Seq<char>>) -> Seq<Seq<char>>
    decreases pieces.len(),
{
    if pieces.len() == 0 {
        Seq::empty()
    } else if pieces.last().len() > 0 {
        nonempty(pieces.drop_last()).push(pieces.last())
    } else {
        nonempty(pieces.drop_last())
    }
}

/// The pieces that count as segments: those that are not empty, and the last one in any case.
pub open spec fn kept_segments(pieces: Seq<Seq<char>>) -> Seq<Seq<char>> {
    if pieces.len() == 0 {
        Seq::empty()
    } else {
        nonempty(pieces.drop_last()).push(pieces.last())
    }
}

/// The segments of a path, percent-decoded.
pub open spec fn path_segments(path: Seq<char>) -> Seq<Seq<char>> {
    let kept = kept_segments(raw_segments(path));
    Seq::new(kept.len(), |i: int| path_decoded(kept[i]))
}

/// The name and value that one piece of a query stands for.
pub open spec fn query_pair(piece: Seq<char>) -> Pair {
    (form_decoded(before(piece, '=')), form_decoded(after(piece, '=')))
}

/// The names and values of a query: its pieces between `&` that are not empty.
pub open spec fn query_pairs(query: Option<Seq<char>>) -> Seq<Pair> {
    match query {
        Some(q) => {
            let kept = nonempty(split(q, '&'));
            Seq::new(kept.len(), |i: int| query_pair(kept[i]))
        },
        None => Seq::empty(),
    }
}

/// Every piece of `nonempty` has a character.
pub proof fn lemma_nonempty(pieces: Seq<Seq<char>>, i: int)
    requires
        0 <= i < nonempty(pieces).len(),
    ensures
        nonempty(pieces)[i].len() > 0,
        pieces.contains(nonempty(pieces)[i]),
    decreases pieces.len(),
{
    let init = pieces.drop_last();
    if pieces.last().len() > 0 && i == nonempty(init).len() {
        assert(pieces[pieces.len() - 1] == nonempty(pieces)[i]);
    } else {
        lemma_nonempty(init, i);
        let k = choose|k: int| 0 <= k < init.len() && init[k] == nonempty(init)[i];
        assert(pieces[k] == nonempty(pieces)[i]);
    }
}

/// Only the last segment of a path can be empty before decoding: empty ones in between are
/// skipped.
pub proof fn law_only_the_last_segment_is_empty(path: Seq<char>, i: int)
    requires
        0 <= i < path_segments(path).len() - 1,
    ensures
        kept_segments(raw_segments(path))[i].len() > 0,
{
    lemma_nonempty(raw_segments(path).drop_last(), i);
}

/// A path has a segment exactly if it is not the empty text.
pub proof fn law_a_path_has_a_segment(path: Seq<char>)
    ensures
        path_segments(path).len() > 0 <==> path.len() > 0,
{
    if path.len() > 0 {
        lemma_split_nonempty(path.skip(1), '/');
        lemma_split_nonempty(path, '/');
    }
}

/// A path whose only slash is the first one has one segment, which is what follows the slash.
pub proof fn law_one_segment(a: Seq<char>)
    requires
        !a.contains('/'),
    ensures
        path_segments(seq!['/'] + a) == seq![path_decoded(a)],
{
    let path = seq!['/'] + a;
    law_split(a, Seq::empty(), '/');
    assert(path.skip(1) =~= a);
    assert(raw_segments(path) == seq![a]);
    assert(seq![a].drop_last() =~= Seq::<Seq<char>>::empty());
    assert(kept_segments(seq![a]) =~= seq![a]);
    assert(path_segments(path) =~= seq![path_decoded(a)]);
}

/// A path has the same segments without its first slash.
pub proof fn law_first_slash_is_optional(path: Seq<char>)
    requires
        path.len() > 0,
        path[0] != '/',
    ensures
        path_segments(path) == path_segments(seq!['/'] + path),
{
    assert((seq!['/'] + path).skip(1) =~= path);
}

/// What stands between two slashes is a segment, before those of what follows. Where nothing stands
/// between them there is none.
pub proof fn law_next_segment(a: Seq<char>, b: Seq<char>)
    requires
        !a.contains('/'),
    ensures
        a.len() > 0 ==> path_segments(seq!['/'] + a + seq!['/'] + b) == seq![path_decoded(a)]
            + path_segments(seq!['/'] + b),
        a.len() == 0 ==> path_segments(seq!['/'] + a + seq!['/'] + b) == path_segments(
            seq!['/'] + b,
        ),
{
    let path = seq!['/'] + a + seq!['/'] + b;
    let tail = seq!['/'] + b;
    law_split(a, b, '/');
    lemma_split_nonempty(b, '/');
    assert(path.skip(1) =~= a.push('/') + b);
    assert(tail.skip(1) =~= b);
    let rest = split(b, '/');
    let all = seq![a] + rest;
    assert(raw_segments(path) == all);
    assert(raw_segments(tail) == rest);
    assert(all.drop_last() =~= seq![a] + rest.drop_last());
    lemma_nonempty_front(a, rest.drop_last());
    assert(all.last() == rest.last());
    let kept = kept_segments(rest);
    if a.len() > 0 {
        assert(kept_segments(all) =~= seq![a] + kept);
        assert(path_segments(path) =~= seq![path_decoded(a)] + path_segments(tail));
    } else {
        assert(kept_segments(all) =~= kept);
        assert(path_segments(path) =~= path_segments(tail));
    }
}

/// The pieces that are not empty, with one more in front.
proof fn lemma_nonempty_front(a: Seq<char>, rest: Seq<Seq<char>>)
    ensures
        nonempty(seq![a] + rest) == if a.len() > 0 {
            seq![a] + nonempty(rest)
        } else {
            nonempty(rest)
        },
    decreases rest.len(),
{
    let all = seq![a] + rest;
    if rest.len() == 0 {
        assert(all =~= seq![a]);
        assert(all.drop_last() =~= rest);
        assert(nonempty(rest) =~= Seq::<Seq<char>>::empty());
        assert(all.last() == a);
        assert(nonempty(all) =~= if a.len() > 0 {
            seq![a] + nonempty(rest)
        } else {
            nonempty(rest)
        });
    } else {
        assert(all.drop_last() =~= seq![a] + rest.drop_last());
        assert(all.last() == rest.last());
        lemma_nonempty_front(a, rest.drop_last());
        assert(nonempty(all) =~= if a.len() > 0 {
            seq![a] + nonempty(rest)
        } else {
            nonempty(rest)
        });
    }
}

/// A piece of a query is a name and a value on the two sides of its first `=`, or a name with an empty
/// value. An empty piece is nothing.
pub proof fn law_one_pair(name: Seq<char>, value: Seq<char>)
    requires
        !name.contains('='),
        !name.contains('&'),
        !value.contains('&'),
    ensures
        query_pairs(Some(name.push('=') + value)) == seq![(form_decoded(name), form_decoded(value))],
        name.len() > 0 ==> query_pairs(Some(name)) == seq![
            (form_decoded(name), form_decoded(Seq::<char>::empty())),
        ],
        query_pairs(Some(Seq::<char>::empty())) == Seq::<Pair>::empty(),
        query_pairs(None) == Seq::<Pair>::empty(),
{
    let piece = name.push('=') + value;
    assert(!piece.contains('&')) by {
        if piece.contains('&') {
            let i = choose|i: int| 0 <= i < piece.len() && piece[i] == '&';
            if i < name.len() {
                assert(name[i] == '&');
            } else if i > name.len() {
                assert(value[i - name.len() - 1] == '&');
            }
        }
    }
    let none = Seq::<char>::empty();
    law_parted(name, value, '=');
    law_split(piece, none, '&');
    law_split(name, none, '&');
    law_split(none, none, '&');
    lemma_nonempty_front(piece, Seq::empty());
    lemma_nonempty_front(name, Seq::empty());
    lemma_nonempty_front(none, Seq::empty());
    assert(seq![piece] + Seq::<Seq<char>>::empty() =~= seq![piece]);
    assert(seq![name] + Seq::<Seq<char>>::empty() =~= seq![name]);
    assert(seq![none] + Seq::<Seq<char>>::empty() =~= seq![none]);
    assert(nonempty(seq![piece]) =~= seq![piece]);
    assert(query_pairs(Some(piece)) =~= seq![(form_decoded(name), form_decoded(value))]);
    if name.len() > 0 {
        assert(nonempty(seq![name]) =~= seq![name]);
        assert(query_pairs(Some(name)) =~= seq![(form_decoded(name), form_decoded(none))]);
    }
    assert(query_pairs(Some(none)) =~= Seq::<Pair>::empty());
    assert(query_pairs(None) =~= Seq::<Pair>::empty());
}

/// The names and values of a query are those of its parts on the two sides of an `&`, in their order.
pub proof fn law_pairs_in_order(a: Seq<char>, b: Seq<char>)
    requires
        !a.contains('&'),
    ensures
        query_pairs(Some(a.push('&') + b)) == query_pairs(Some(a)) + query_pairs(Some(b)),
{
    law_split(a, b, '&');
    let rest = split(b, '&');
    lemma_nonempty_front(a, rest);
    lemma_nonempty_front(a, Seq::empty());
    assert(seq![a] + Seq::<Seq<char>>::empty() =~= seq![a]);
    assert(query_pairs(Some(a.push('&') + b)) =~= query_pairs(Some(a)) + query_pairs(Some(b)));
}

/// The pairs of views of pairs of strings.
pub open spec fn pair_views(v: Seq<(String, String)>) -> Seq<Pair> {
    Seq::new(v.len(), |i: int| (v[i].0@, v[i].1@))
}

/// An absolute path and perhaps a query, with both taken apart.
#[derive(Debug)]
pub struct Origin {
    path: String,
    query: Option<String>,
    segments: Vec<String>,
    pairs: Vec<(String, String)>,
}

impl View for Origin {
    type V = OriginView;

    closed spec fn view(&self) -> OriginView {
        OriginView { path: self.path@, query: opt_text(self.query) }
    }
}

impl Clone for Origin {
    fn clone(&self) -> (r: Origin)
        ensures
            r@ == self@,
            self.well_formed() ==> r.well_formed(),
    {
        let mut pairs: Vec<(String, String)> = Vec::new();
        let mut i: usize = 0;
        while i < self.pairs.len()
            invariant
                i <= self.pairs.len(),
                pairs@ == self.pairs@.take(i as int),
            decreases self.pairs.len() - i,
        {
            pairs.push((self.pairs[i].0.clone(), self.pairs[i].1.clone()));
            i += 1;
        }
        assert(pairs@ =~= self.pairs@);
        let query = match &self.query {
            Some(q) => Some(q.clone()),
            None => None,
        };
        Origin {
            path: self.path.clone(),
            query,
            segments: clone_strings(&self.segments),
            pairs,
        }
    }
}

/// Splits a path into its segments.
fn segment(path: &str) -> (r: Vec<String>)
    ensures
        texts(r@) == path_segments(path@),
{
    let n = path.unicode_len();
    if n == 0 {
        let r: Vec<String> = Vec::new();
        assert(texts(r@) =~= path_segments(path@));
        return r;
    }
    let pieces = if path.get_char(0) == '/' {
        assert(path@.skip(1) =~= path@.subrange(1, n as int));
        split_text(path.substring_char(1, n), '/')
    } else {
        split_text(path, '/')
    };
    let ghost raw = raw_segments(path@);
    assert(texts(pieces@) == raw);
    let mut r: Vec<String> = Vec::new();
    let mut i: usize = 0;
    proof {
        lemma_split_nonempty(path@.skip(1), '/');
        lemma_split_nonempty(path@, '/');
        assert(raw.take(0) =~= Seq::empty());
    }
    while i < pieces.len() - 1
        invariant
            i < pieces.len(),
            texts(pieces@) == raw,
            r@.len() == nonempty(raw.take(i as int)).len(),
            forall|j: int|
                0 <= j < r@.len() ==> #[trigger] r@[j]@ == path_decoded(
                    nonempty(raw.take(i as int))[j],
                ),
        decreases pieces.len() - i,
    {
        proof {
            assert(raw[i as int] == pieces@[i as int]@);
            assert(raw.take(i + 1).drop_last() =~= raw.take(i as int));
        }
        if !pieces[i].as_str().is_empty() {
            r.push(decode_path(pieces[i].as_str()));
        }
        i += 1;
    }
    assert(raw.take(i as int) =~= raw.drop_last());
    assert(raw.last() == pieces@[i as int]@);
    r.push(decode_path(pieces[i].as_str()));
    assert(texts(r@) =~= path_segments(path@));
    r
}

/// Splits a query into names and values.
fn pair_up(query: &str) -> (r: Vec<(String, String)>)
    ensures
        pair_views(r@) == query_pairs(Some(query@)),
{
    let pieces = split_text(query, '&');
    let ghost raw = split(query@, '&');
    let mut r: Vec<(String, String)> = Vec::new();
    let mut i: usize = 0;
    assert(raw.take(0) =~= Seq::empty());
    while i < pieces.len()
        invariant
            i <= pieces.len(),
            texts(pieces@) == raw,
            r@.len() == nonempty(raw.take(i as int)).len(),
            forall|j: int|
                0 <= j < r@.len() ==> ((#[trigger] r@[j]).0@, r@[j].1@) == query_pair(
                    nonempty(raw.take(i as int))[j],
                ),
        decreases pieces.len() - i,
    {
        proof {
            assert(raw[i as int] == pieces@[i as int]@);
            assert(raw.take(i + 1).drop_last() =~= raw.take(i as int));
        }
        if !pieces[i].as_str().is_empty() {
            let (name, value) = split_at_char(pieces[i].as_str(), '=');
            r.push((decode_form(name.as_str()), decode_form(value.as_str())));
        }
        i += 1;
    }
    assert(raw.take(i as int) =~= raw);
    assert(pair_views(r@) =~= query_pairs(Some(query@)));
    r
}

impl Origin {
    /// What is kept apart agrees with the texts.
    pub closed spec fn well_formed(&self) -> bool {
        &&& texts(self.segments@) == path_segments(self.path@)
        &&& pair_views(self.pairs@) == query_pairs(opt_text(self.query))
    }

    /// An origin with this path and query.
    pub fn new(path: &str, query: Option<&str>) -> (r: Origin)
        ensures
            r@ == (OriginView { path: path@, query: opt_str(query) }),
            r.well_formed(),
    {
        let segments = segment(path);
        match query {
            Some(q) => Origin {
                path: path.to_owned(),
                query: Some(q.to_owned()),
                segments,
                pairs: pair_up(q),
            },
            None => {
                let pairs: Vec<(String, String)> = Vec::new();
                assert(pair_views(pairs@) =~= query_pairs(None));
                Origin { path: path.to_owned(), query: None, segments, pairs }
            },
        }
    }

    /// The path `/`.
    pub fn root() -> (r: Origin)
        ensures
            r@ == (OriginView { path: seq!['/'], query: None }),
            r.well_formed(),
    {
        proof {
            reveal_strlit("/");
        }
        assert("/"@ =~= seq!['/']);
        Origin::new("/", None)
    }

    /// The path.
    pub fn path(&self) -> (r: &str)
        ensures
            r@ == self@.path,
    {
        self.path.as_str()
    }

    /// The query, without its `?`.
    pub fn query(&self) -> (r: Option<&str>)
        ensures
            opt_str(r) == self@.query,
    {
        match &self.query {
            Some(q) => Some(q.as_str()),
            None => None,
        }
    }

    /// The segments of the path.
    pub fn segments(&self) -> (r: Segments<'_>)
        requires
            self.well_formed(),
        ensures
            r@ == path_segments(self@.path),
            r.well_formed(),
    {
        let r = Segments { all: &self.segments, pos: 0 };
        assert(r@ =~= path_segments(self@.path));
        r
    }

    /// The number of names and values in the query.
    pub fn pair_count(&self) -> (r: usize)
        requires
            self.well_formed(),
        ensures
            r == query_pairs(self@.query).len(),
    {
        assert(pair_views(self.pairs@).len() == self.pairs@.len());
        self.pairs.len()
    }

    /// A name and value of the query.
    pub fn pair(&self, i: usize) -> (r: (&str, &str))
        requires
            self.well_formed(),
            i < query_pairs(self@.query).len(),
        ensures
            (r.0@, r.1@) == query_pairs(self@.query)[i as int],
    {
        assert(pair_views(self.pairs@)[i as int] == query_pairs(self@.query)[i as int]);
        (self.pairs[i].0.as_str(), self.pairs[i].1.as_str())
    }
}

/// The segments of a path from some position on.
pub struct Segments<'a> {
    all: &'a Vec<String>,
    pos: usize,
}

impl<'a> View for Segments<'a> {
    type V = Seq<Seq<char>>;

    closed spec fn view(&self) -> Seq<Seq<char>> {
        texts(self.all@).skip(self.pos as int)
    }
}

impl<'a> Segments<'a> {
    /// The position is within the segments.
    pub closed spec fn well_formed(&self) -> bool {
        self.pos <= self.all@.len()
    }

    /// The number of segments left.
    pub fn len(&self) -> (r: usize)
        requires
            self.well_formed(),
        ensures
            r == self@.len(),
    {
        self.all.len() - self.pos
    }

    /// The segment that is `n` further on.
    pub fn get(&self, n: usize) -> (r: Option<&'a str>)
        requires
            self.well_formed(),
        ensures
            opt_str(r) == if n < self@.len() {
                Some(self@[n as int])
            } else {
                None
            },
    {
        if n < self.all.len() - self.pos {
            Some(self.all[self.pos + n].as_str())
        } else {
            None
        }
    }

    /// The segments without the next `n`; none if there are not so many.
    pub fn skip(self, n: usize) -> (r: Segments<'a>)
        requires
            self.well_formed(),
        ensures
            r.well_formed(),
            r@ == if n <= self@.len() {
                self@.skip(n as int)
            } else {
                Seq::empty()
            },
    {
        let left: usize = self.all.len() - self.pos;
        let r = Segments {
            all: self.all,
            pos: if n < left {
                self.pos + n
            } else {
                self.all.len()
            },
        };
        assert(r@ =~= if n <= self@.len() {
            self@.skip(n as int)
        } else {
            Seq::empty()
        });
        r
    }
}

} // verus!
