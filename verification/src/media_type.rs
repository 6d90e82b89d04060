//! Media types, and the two headers that carry them.
use vstd::prelude::*;
use crate::text::{chars_of, eq_ignore_case, eq_text, same_text};

verus! {

/// A parameter of a media type.
pub struct Param {
    pub name: String,
    pub value: String,
}

/// A media type: `top/sub`, with parameters.
pub struct MediaType {
    pub top: String,
    pub sub: String,
    pub params: Vec<Param>,
}

/// A parameter as texts.
#[verifier::ext_equal]
pub struct ParamView {
    pub name: Seq<char>,
    pub value: Seq<char>,
}

/// A media type as texts.
#[verifier::ext_equal]
pub struct MediaTypeView {
    pub top: Seq<char>,
    pub sub: Seq<char>,
    pub params: Seq<ParamView>,
}

impl View for Param {
    type V = ParamView;

    open spec fn view(&self) -> ParamView {
        ParamView { name: self.name@, value: self.value@ }
    }
}

/// The views of the parameters.
pub open spec fn param_views(v: Seq<Param>) -> Seq<ParamView> {
    Seq::new(v.len(), |i: int| v[i]@)
}

impl View for MediaType {
    type V = MediaTypeView;

    open spec fn view(&self) -> MediaTypeView {
        MediaTypeView { top: self.top@, sub: self.sub@, params: param_views(self.params@) }
    }
}

impl Clone for MediaType {
    fn clone(&self) -> (r: MediaType)
        ensures
            r@ == self@,
    {
        let mut params: Vec<Param> = Vec::new();
        let mut i: usize = 0;
        while i < self.params.len()
            invariant
                i <= self.params.len(),
                params@.len() == i,
                forall|j: int| 0 <= j < i ==> #[trigger] params@[j]@ == self.params@[j]@,
            decreases self.params.len() - i,
        {
            params.push(
                Param { name: self.params[i].name.clone(), value: self.params[i].value.clone() },
            );
            i += 1;
        }
        assert(param_views(params@) =~= param_views(self.params@));
        MediaType { top: self.top.clone(), sub: self.sub.clone(), params }
    }
}

/// `*/*`, the media type that stands for all of them.
pub open spec fn any_type() -> MediaTypeView {
    MediaTypeView { top: seq!['*'], sub: seq!['*'], params: Seq::empty() }
}

/// Whether two media types have the same two names; their parameters do not count.
pub open spec fn same_type(a: MediaTypeView, b: MediaTypeView) -> bool {
    same_text(a.top, b.top) && same_text(a.sub, b.sub)
}

/// How many of the two names are not `*`.
pub open spec fn specificity_of(m: MediaTypeView) -> int {
    (if m.top == seq!['*'] {
        0int
    } else {
        1
    }) + (if m.sub == seq!['*'] {
        0int
    } else {
        1
    })
}

impl MediaType {
    /// `*/*`.
    pub fn any() -> (r: MediaType)
        ensures
            r@ == any_type(),
    {
        proof {
            reveal_strlit("*");
        }
        assert("*"@ =~= seq!['*']);
        let r = MediaType { top: "*".to_owned(), sub: "*".to_owned(), params: Vec::new() };
        assert(r@.params =~= Seq::empty());
        r
    }

    /// Whether both media types have the same names.
    pub fn is_same(&self, other: &MediaType) -> (r: bool)
        ensures
            r == same_type(self@, other@),
    {
        eq_ignore_case(self.top.as_str(), other.top.as_str()) && eq_ignore_case(
            self.sub.as_str(),
            other.sub.as_str(),
        )
    }

    /// How many of the two names are not `*`.
    pub fn specificity(&self) -> (r: u8)
        ensures
            r == specificity_of(self@),
    {
        proof {
            reveal_strlit("*");
        }
        assert("*"@ =~= seq!['*']);
        let mut n: u8 = 0;
        if !eq_text(self.top.as_str(), "*") {
            n += 1;
        }
        if !eq_text(self.sub.as_str(), "*") {
            n += 1;
        }
        n
    }
}

/// The characters of a name.
pub open spec fn is_token(c: char) -> bool {
    ||| 'a' <= c <= 'z'
    ||| 'A' <= c <= 'Z'
    ||| '0' <= c <= '9'
    ||| '#' <= c <= '\''
    ||| '^' <= c <= '`'
    ||| c == '!'
    ||| c == '*'
    ||| c == '+'
    ||| c == '-'
    ||| c == '.'
    ||| c == '|'
    ||| c == '~'
}

/// The characters that may surround a separator.
pub open spec fn is_space(c: char) -> bool {
    c == ' ' || c == '\t'
}

/// Where the name characters that start at `i` end.
pub open spec fn token_end(s: Seq<char>, i: int) -> int
    decreases s.len() - i,
{
    if 0 <= i < s.len() && is_token(s[i]) {
        token_end(s, i + 1)
    } else {
        i
    }
}

/// Where the spaces that start at `i` end.
pub open spec fn space_end(s: Seq<char>, i: int) -> int
    decreases s.len() - i,
{
    if 0 <= i < s.len() && is_space(s[i]) {
        space_end(s, i + 1)
    } else {
        i
    }
}

/// Where the quote is that closes a quoted text whose inside starts at `i`; a character after a
/// backslash closes nothing.
pub open spec fn quote_end(s: Seq<char>, i: int) -> Option<int>
    decreases s.len() - i,
{
    if i < 0 || i >= s.len() {
        None
    } else if s[i] == '"' {
        Some(i)
    } else if s[i] == '\\' {
        if i + 1 < s.len() {
            quote_end(s, i + 2)
        } else {
            None
        }
    } else {
        quote_end(s, i + 1)
    }
}

/// The parameter at `i`, `name=value` or `name="value"`, and where it ends.
pub open spec fn param_at(s: Seq<char>, i: int) -> Option<(ParamView, int)> {
    let k = token_end(s, i);
    if k == i || k >= s.len() || s[k] != '=' {
        None
    } else if k + 1 < s.len() && s[k + 1] == '"' {
        match quote_end(s, k + 2) {
            Some(q) => Some(
                (ParamView { name: s.subrange(i, k), value: s.subrange(k + 2, q) }, q + 1),
            ),
            None => None,
        }
    } else {
        let e = token_end(s, k + 1);
        if e == k + 1 {
            None
        } else {
            Some((ParamView { name: s.subrange(i, k), value: s.subrange(k + 1, e) }, e))
        }
    }
}

/// The parameters at `i`, each after a `;`, and where they end.
pub open spec fn params_at(s: Seq<char>, i: int) -> Option<(Seq<ParamView>, int)>
    decreases s.len() - i,
    via params_at_shrinks
{
    let j = space_end(s, i);
    if 0 <= i <= j < s.len() && s[j] == ';' {
        match param_at(s, space_end(s, j + 1)) {
            Some((param, e)) => match params_at(s, e) {
                Some((rest, end)) => Some((seq![param] + rest, end)),
                None => None,
            },
            None => None,
        }
    } else {
        Some((Seq::empty(), i))
    }
}

#[via_fn]
proof fn params_at_shrinks(s: Seq<char>, i: int) {
    let j = space_end(s, i);
    if 0 <= i <= j < s.len() && s[j] == ';' {
        lemma_ends(s, j + 1);
        lemma_ends(s, space_end(s, j + 1));
        let k = token_end(s, space_end(s, j + 1));
        if k < s.len() {
            lemma_ends(s, k + 1);
            if k + 2 <= s.len() {
                lemma_ends(s, k + 2);
            }
        }
    }
}

/// The ends of what starts at `i` lie between `i` and the end of the text.
pub proof fn lemma_ends(s: Seq<char>, i: int)
    requires
        0 <= i <= s.len(),
    ensures
        i <= token_end(s, i) <= s.len(),
        i <= space_end(s, i) <= s.len(),
        quote_end(s, i) matches Some(q) ==> i <= q < s.len(),
    decreases s.len() - i,
{
    if i < s.len() {
        lemma_ends(s, i + 1);
        if i + 2 <= s.len() {
            lemma_ends(s, i + 2);
        }
    }
}

/// The media type at `i`, and where it ends.
pub open spec fn media_type_at(s: Seq<char>, i: int) -> Option<(MediaTypeView, int)> {
    let k = token_end(s, i);
    if k == i || k >= s.len() || s[k] != '/' {
        None
    } else {
        let e = token_end(s, k + 1);
        if e == k + 1 {
            None
        } else {
            match params_at(s, e) {
                Some((params, end)) => Some(
                    (
                        MediaTypeView { top: s.subrange(i, k), sub: s.subrange(k + 1, e), params },
                        end,
                    ),
                ),
                None => None,
            }
        }
    }
}

/// The media type that all of `s` is.
pub open spec fn media_type_of(s: Seq<char>) -> Option<MediaTypeView> {
    match media_type_at(s, 0) {
        Some((m, end)) => if end == s.len() {
            Some(m)
        } else {
            None
        },
        None => None,
    }
}

fn token(c: char) -> (r: bool)
    ensures
        r == is_token(c),
{
    ('a' <= c && c <= 'z') || ('A' <= c && c <= 'Z') || ('0' <= c && c <= '9') || ('#' <= c && c
        <= '\'') || ('^' <= c && c <= '`') || c == '!' || c == '*' || c == '+' || c == '-' || c
        == '.' || c == '|' || c == '~'
}

fn skip_token(v: &Vec<char>, i: usize) -> (r: usize)
    requires
        i <= v.len(),
    ensures
        r == token_end(v@, i as int),
        i <= r <= v.len(),
{
    let mut k: usize = i;
    while k < v.len() && token(v[k])
        invariant
            i <= k <= v.len(),
            token_end(v@, i as int) == token_end(v@, k as int),
        decreases v.len() - k,
    {
        k += 1;
    }
    k
}

pub(crate) fn skip_space(v: &Vec<char>, i: usize) -> (r: usize)
    requires
        i <= v.len(),
    ensures
        r == space_end(v@, i as int),
        i <= r <= v.len(),
{
    let mut k: usize = i;
    while k < v.len() && (v[k] == ' ' || v[k] == '\t')
        invariant
            i <= k <= v.len(),
            space_end(v@, i as int) == space_end(v@, k as int),
        decreases v.len() - k,
    {
        k += 1;
    }
    k
}

fn find_quote(v: &Vec<char>, i: usize) -> (r: Option<usize>)
    requires
        i <= v.len(),
    ensures
        match r {
            Some(q) => quote_end(v@, i as int) == Some(q as int) && i <= q < v.len(),
            None => quote_end(v@, i as int) is None,
        },
{
    let mut k: usize = i;
    while k < v.len() && v[k] != '"'
        invariant
            i <= k <= v.len(),
            quote_end(v@, i as int) == quote_end(v@, k as int),
        decreases v.len() - k,
    {
        if v[k] == '\\' {
            if v.len() - k < 2 {
                return None;
            }
            k += 2;
        } else {
            k += 1;
        }
    }
    if k < v.len() {
        Some(k)
    } else {
        None
    }
}

fn parse_param(s: &str, v: &Vec<char>, i: usize) -> (r: Option<(Param, usize)>)
    requires
        v@ == s@,
        i <= v.len(),
    ensures
        match r {
            Some((p, e)) => param_at(s@, i as int) == Some((p@, e as int)) && i < e <= v.len(),
            None => param_at(s@, i as int) is None,
        },
{
    let k = skip_token(v, i);
    if k == i || k >= v.len() || v[k] != '=' {
        return None;
    }
    let name = s.substring_char(i, k).to_owned();
    if k + 1 < v.len() && v[k + 1] == '"' {
        match find_quote(v, k + 2) {
            Some(q) => {
                let value = s.substring_char(k + 2, q).to_owned();
                Some((Param { name, value }, q + 1))
            },
            None => None,
        }
    } else {
        let e = skip_token(v, k + 1);
        if e == k + 1 {
            return None;
        }
        let value = s.substring_char(k + 1, e).to_owned();
        Some((Param { name, value }, e))
    }
}

fn parse_params(s: &str, v: &Vec<char>, i: usize) -> (r: Option<(Vec<Param>, usize)>)
    requires
        v@ == s@,
        i <= v.len(),
    ensures
        match r {
            Some((p, e)) => params_at(s@, i as int) == Some((param_views(p@), e as int)) && i <= e
                <= v.len(),
            None => params_at(s@, i as int) is None,
        },
{
    let mut params: Vec<Param> = Vec::new();
    let mut at: usize = i;
    proof {
        if let Some((rest, end)) = params_at(s@, i as int) {
            assert(param_views(params@) + rest =~= rest);
        }
    }
    loop
        invariant
            v@ == s@,
            i <= at <= v.len(),
            match params_at(s@, at as int) {
                Some((rest, end)) => params_at(s@, i as int) == Some(
                    (param_views(params@) + rest, end),
                ),
                None => params_at(s@, i as int) is None,
            },
        decreases v.len() - at,
    {
        let j = skip_space(v, at);
        if j >= v.len() || v[j] != ';' {
            assert(param_views(params@) + Seq::empty() =~= param_views(params@));
            return Some((params, at));
        }
        let p = skip_space(v, j + 1);
        match parse_param(s, v, p) {
            Some((param, e)) => {
                let ghost done = param_views(params@);
                params.push(param);
                proof {
                    assert(param_views(params@) =~= done.push(param@));
                    if let Some((rest, end)) = params_at(s@, e as int) {
                        assert(done + (seq![param@] + rest) =~= param_views(params@) + rest);
                    }
                }
                at = e;
            },
            None => {
                return None;
            },
        }
    }
}

pub(crate) fn parse_media_type_at(s: &str, v: &Vec<char>, i: usize) -> (r: Option<(MediaType, usize)>)
    requires
        v@ == s@,
        i <= v.len(),
    ensures
        match r {
            Some((m, e)) => media_type_at(s@, i as int) == Some((m@, e as int)) && i < e <= v.len(),
            None => media_type_at(s@, i as int) is None,
        },
{
    let k = skip_token(v, i);
    if k == i || k >= v.len() || v[k] != '/' {
        return None;
    }
    let e = skip_token(v, k + 1);
    if e == k + 1 {
        return None;
    }
    match parse_params(s, v, e) {
        Some((params, end)) => Some(
            (
                MediaType {
                    top: s.substring_char(i, k).to_owned(),
                    sub: s.substring_char(k + 1, e).to_owned(),
                    params,
                },
                end,
            ),
        ),
        None => None,
    }
}

/// The optional view of a media type.
pub open spec fn opt_type(m: Option<MediaType>) -> Option<MediaTypeView> {
    match m {
        Some(t) => Some(t@),
        None => None,
    }
}

/// Reads a whole text as a media type.
pub fn parse_media_type(s: &str) -> (r: Option<MediaType>)
    ensures
        opt_type(r) == media_type_of(s@),
{
    let v = chars_of(s);
    match parse_media_type_at(s, &v, 0) {
        Some((m, end)) => {
            if end == v.len() {
                Some(m)
            } else {
                None
            }
        },
        None => None,
    }
}

/// The media type of a body.
pub struct ContentType {
    pub media_type: MediaType,
}

impl View for ContentType {
    type V = MediaTypeView;

    open spec fn view(&self) -> MediaTypeView {
        self.media_type@
    }
}

impl Clone for ContentType {
    fn clone(&self) -> (r: ContentType)
        ensures
            r@ == self@,
    {
        ContentType { media_type: self.media_type.clone() }
    }
}

impl ContentType {
    /// The media type itself.
    pub fn media_type(&self) -> (r: &MediaType)
        ensures
            r@ == self@,
    {
        &self.media_type
    }
}

/// Whether all of `s` are characters of a name.
pub open spec fn all_token(s: Seq<char>) -> bool {
    forall|i: int| 0 <= i < s.len() ==> is_token(#[trigger] s[i])
}

/// A name: at least one character, and all of them those of a name.
pub open spec fn is_name(s: Seq<char>) -> bool {
    s.len() > 0 && all_token(s)
}

/// How the value of a parameter is written: as it is if it is a name, in quotes otherwise.
pub open spec fn rendered_value(s: Seq<char>) -> Seq<char> {
    if is_name(s) {
        s
    } else {
        seq!['"'] + s + seq!['"']
    }
}

/// How a parameter is written, with what goes before it.
pub open spec fn rendered_param(p: ParamView) -> Seq<char> {
    seq![';', ' '] + p.name + seq!['='] + rendered_value(p.value)
}

/// How parameters are written one after the other.
pub open spec fn rendered_params(params: Seq<ParamView>) -> Seq<char>
    decreases params.len(),
{
    if params.len() == 0 {
        Seq::empty()
    } else {
        rendered_param(params[0]) + rendered_params(params.skip(1))
    }
}

/// How a media type is written in a header.
pub open spec fn rendered(m: MediaTypeView) -> Seq<char> {
    m.top + seq!['/'] + m.sub + rendered_params(m.params)
}

/// Whether a text can stand between quotes: no quote in it closes it, and the one after it does.
pub open spec fn quotable(s: Seq<char>) -> bool {
    quote_end(s.push('"'), 0) == Some(s.len() as int)
}

/// Whether a media type can be written: its names are names, and its values are names or can stand
/// between quotes.
pub open spec fn writable(m: MediaTypeView) -> bool {
    &&& is_name(m.top)
    &&& is_name(m.sub)
    &&& forall|i: int|
        0 <= i < m.params.len() ==> is_name((#[trigger] m.params[i]).name) && (is_name(
            m.params[i].value,
        ) || quotable(m.params[i].value))
}

/// Name characters up to another character, or the end, end there.
proof fn lemma_token_end(s: Seq<char>, i: int, k: int)
    requires
        0 <= i <= k <= s.len(),
        forall|j: int| i <= j < k ==> is_token(#[trigger] s[j]),
        k < s.len() ==> !is_token(s[k]),
    ensures
        token_end(s, i) == k,
    decreases k - i,
{
    if i < k {
        lemma_token_end(s, i + 1, k);
    }
}

/// Where a quoted text ends does not depend on what goes before and after it.
proof fn lemma_quote_end(s: Seq<char>, t: Seq<char>, at: int, i: int)
    requires
        0 <= at,
        0 <= i <= t.len(),
        at + t.len() <= s.len(),
        s.subrange(at, at + t.len()) == t,
        quote_end(t, i) is Some,
    ensures
        quote_end(s, at + i) == Some(at + quote_end(t, i)->0),
    decreases t.len() - i,
{
    assert(s[at + i] == s.subrange(at, at + t.len())[i]);
    if t[i] == '"' {
    } else if t[i] == '\\' {
        lemma_quote_end(s, t, at, i + 2);
    } else {
        lemma_quote_end(s, t, at, i + 1);
    }
}

/// A parameter reads as it was written.
proof fn lemma_param_reads(s: Seq<char>, i: int, p: ParamView, end: int)
    requires
        0 <= i <= end <= s.len(),
        is_name(p.name),
        is_name(p.value) || quotable(p.value),
        s.subrange(i, end) == p.name + seq!['='] + rendered_value(p.value),
        end < s.len() ==> s[end] == ';' || s[end] == ',',
    ensures
        param_at(s, i) == Some((p, end)),
{
    let t = p.name + seq!['='] + rendered_value(p.value);
    let k = i + p.name.len();
    let w = s.subrange(i, end);
    assert(w.len() == end - i && t.len() == p.name.len() + 1 + rendered_value(p.value).len());
    assert forall|j: int| i <= j < k implies is_token(#[trigger] s[j]) by {
        assert(s[j] == w[j - i]);
        assert(p.name[j - i] == w[j - i]);
    }
    assert(s[k] == w[k - i]);
    assert(s[k] == '=');
    lemma_token_end(s, i, k);
    assert(s.subrange(i, k) =~= p.name);
    if is_name(p.value) {
        assert(end == k + 1 + p.value.len());
        assert forall|j: int| k + 1 <= j < end implies is_token(#[trigger] s[j]) by {
            assert(s[j] == w[j - i]);
            assert(p.value[j - k - 1] == w[j - i]);
        }
        lemma_token_end(s, k + 1, end);
        assert(is_token(s[k + 1]));
        assert(s.subrange(k + 1, end) =~= p.value) by {
            assert forall|j: int| 0 <= j < p.value.len() implies s.subrange(k + 1, end)[j]
                == p.value[j] by {
                assert(s[k + 1 + j] == w[k + 1 + j - i]);
            }
        }
    } else {
        assert(s[k + 1] == w[k + 1 - i]);
        assert(s[k + 1] == '"');
        let inside = p.value.push('"');
        assert(s.subrange(k + 2, end) =~= inside) by {
            assert forall|j: int| 0 <= j < inside.len() implies s.subrange(k + 2, end)[j]
                == inside[j] by {
                assert(s[k + 2 + j] == w[k + 2 + j - i]);
            }
        }
        lemma_quote_end(s, inside, k + 2, 0);
        assert(s.subrange(k + 2, end - 1) =~= p.value) by {
            assert forall|j: int| 0 <= j < p.value.len() implies s.subrange(k + 2, end - 1)[j]
                == p.value[j] by {
                assert(s.subrange(k + 2, end)[j] == inside[j]);
            }
        }
    }
}

/// Parameters read as they were written, up to the end or a comma.
proof fn lemma_params_read(s: Seq<char>, i: int, params: Seq<ParamView>, end: int)
    requires
        0 <= i <= end <= s.len(),
        forall|k: int|
            0 <= k < params.len() ==> is_name((#[trigger] params[k]).name) && (is_name(
                params[k].value,
            ) || quotable(params[k].value)),
        s.subrange(i, end) == rendered_params(params),
        end < s.len() ==> s[end] == ',',
    ensures
        params_at(s, i) == Some((params, end)),
    decreases params.len(),
{
    if params.len() == 0 {
        assert(i == end);
    } else {
        let p = params[0];
        let rest = params.skip(1);
        let w = s.subrange(i, end);
        let e = i + rendered_param(p).len();
        assert(w.len() == end - i && w.len() == rendered_param(p).len() + rendered_params(rest).len());
        assert(s[i] == w[0]);
        assert(s[i + 1] == w[1]);
        assert(s[i + 2] == w[2]);
        assert(w[2] == p.name[0]);
        assert(is_token(p.name[0]));
        assert(space_end(s, i) == i);
        assert(space_end(s, i + 1) == space_end(s, i + 2));
        assert(space_end(s, i + 2) == i + 2);
        let t = p.name + seq!['='] + rendered_value(p.value);
        assert(s.subrange(i + 2, e) =~= t) by {
            assert forall|j: int| 0 <= j < t.len() implies s.subrange(i + 2, e)[j] == t[j] by {
                assert(s[i + 2 + j] == w[2 + j]);
            }
        }
        assert(s.subrange(e, end) =~= rendered_params(rest)) by {
            assert forall|j: int| 0 <= j < rendered_params(rest).len() implies s.subrange(
                e,
                end,
            )[j] == rendered_params(rest)[j] by {
                assert(s[e + j] == w[e - i + j]);
            }
        }
        if rest.len() > 0 {
            assert(s[e] == s.subrange(e, end)[0]);
            assert(rendered_params(rest)[0] == ';');
        } else {
            assert(e == end);
        }
        lemma_param_reads(s, i + 2, p, e);
        lemma_params_read(s, e, rest, end);
        assert(seq![p] + rest =~= params);
    }
}

/// A media type reads as it was written, up to the end or a comma.
pub proof fn lemma_type_reads(s: Seq<char>, i: int, m: MediaTypeView, end: int)
    requires
        0 <= i <= end <= s.len(),
        writable(m),
        s.subrange(i, end) == rendered(m),
        end < s.len() ==> s[end] == ',',
    ensures
        media_type_at(s, i) == Some((m, end)),
{
    let w = s.subrange(i, end);
    let k = i + m.top.len();
    let e = k + 1 + m.sub.len();
    let params = rendered_params(m.params);
    assert(w.len() == end - i && w.len() == m.top.len() + 1 + m.sub.len() + params.len());
    assert forall|j: int| i <= j < k implies is_token(#[trigger] s[j]) by {
        assert(s[j] == w[j - i]);
        assert(m.top[j - i] == w[j - i]);
    }
    assert(s[k] == w[k - i]);
    assert(s[k] == '/');
    lemma_token_end(s, i, k);
    assert forall|j: int| k + 1 <= j < e implies is_token(#[trigger] s[j]) by {
        assert(s[j] == w[j - i]);
        assert(m.sub[j - k - 1] == w[j - i]);
    }
    assert(s.subrange(e, end) =~= params) by {
        assert forall|j: int| 0 <= j < params.len() implies s.subrange(e, end)[j] == params[j] by {
            assert(s[e + j] == w[e - i + j]);
        }
    }
    if e < end {
        assert(s[e] == s.subrange(e, end)[0]);
        assert(params[0] == ';');
    }
    lemma_token_end(s, k + 1, e);
    assert(s.subrange(i, k) =~= m.top);
    assert(s.subrange(k + 1, e) =~= m.sub) by {
        assert forall|j: int| 0 <= j < m.sub.len() implies s.subrange(k + 1, e)[j] == m.sub[j] by {
            assert(s[k + 1 + j] == w[k + 1 + j - i]);
        }
    }
    lemma_params_read(s, e, m.params, end);
}

/// A media type that was written reads as itself.
pub proof fn law_written_type_reads(m: MediaTypeView)
    requires
        writable(m),
    ensures
        media_type_of(rendered(m)) == Some(m),
{
    let s = rendered(m);
    assert(s.subrange(0, s.len() as int) =~= s);
    lemma_type_reads(s, 0, m, s.len() as int);
}

/// The characters of a name are those of ASCII that can be seen and are no separators.
pub proof fn law_token(c: char)
    ensures
        is_token(c) <==> 0x21 <= c as int <= 0x7e && c != '"' && c != '(' && c != ')' && c != ',' && c
            != '/' && c != ':' && c != ';' && c != '<' && c != '=' && c != '>' && c != '?' && c != '@'
            && c != '[' && c != '\\' && c != ']' && c != '{' && c != '}',
{
}

/// The view of a media type has its names and its parameters, in their order.
pub proof fn law_media_type_view(m: MediaType, c: ContentType, i: int)
    requires
        0 <= i < m.params@.len(),
    ensures
        m@.top == m.top@,
        m@.sub == m.sub@,
        m@.params.len() == m.params@.len(),
        m@.params[i].name == m.params@[i].name@,
        m@.params[i].value == m.params@[i].value@,
        c@ == c.media_type@,
        opt_type(Some(m)) == Some(m@),
        opt_type(None) is None,
{
}

/// Only the space and the tab may surround a separator.
pub proof fn law_space(c: char)
    ensures
        is_space(c) <==> c == ' ' || c as int == 9,
{
}

/// A text without quotes and backslashes can stand between quotes. So can one with any character after
/// a backslash in it.
pub proof fn law_quotable(a: Seq<char>, c: char, b: Seq<char>)
    requires
        !a.contains('"') && !a.contains('\\'),
        !b.contains('"') && !b.contains('\\'),
    ensures
        quotable(a),
        quotable(a + seq!['\\', c] + b),
        !quotable(a + seq!['"'] + b),
{
    let s = a + seq!['\\', c] + b;
    let t = a + seq!['"'] + b;
    assert(a.push('"').subrange(0, a.len() as int) =~= a);
    lemma_unquoted(a.push('"'), 0, a.len() as int, a);
    assert(s.push('"').subrange(0, a.len() as int) =~= a);
    lemma_unquoted(s.push('"'), 0, a.len() as int, a);
    assert(s.push('"')[a.len() as int] == '\\');
    let k = a.len() as int + 2;
    assert(s.push('"').subrange(k, s.len() as int) =~= b);
    lemma_unquoted(s.push('"'), k, s.len() as int, b);
    assert(t.push('"').subrange(0, a.len() as int) =~= a);
    lemma_unquoted(t.push('"'), 0, a.len() as int, a);
    assert(t.push('"')[a.len() as int] == '"');
}

/// The search for a closing quote goes past a text without quotes and backslashes.
proof fn lemma_unquoted(s: Seq<char>, i: int, k: int, t: Seq<char>)
    requires
        0 <= i <= k < s.len(),
        s.subrange(i, k) == t,
        !t.contains('"') && !t.contains('\\'),
    ensures
        quote_end(s, i) == quote_end(s, k),
    decreases k - i,
{
    if i < k {
        assert(s[i] == s.subrange(i, k)[0]);
        assert(t.contains(t[0]));
        let rest = t.skip(1);
        assert(s.subrange(i + 1, k) =~= rest);
        if rest.contains('"') {
            let n = choose|n: int| 0 <= n < rest.len() && rest[n] == '"';
            assert(t[n + 1] == '"');
        }
        if rest.contains('\\') {
            let n = choose|n: int| 0 <= n < rest.len() && rest[n] == '\\';
            assert(t[n + 1] == '\\');
        }
        lemma_unquoted(s, i + 1, k, rest);
    }
}

/// Two names with a slash between them are a media type without parameters.
pub proof fn law_plain_type(top: Seq<char>, sub: Seq<char>)
    requires
        is_name(top),
        is_name(sub),
    ensures
        media_type_of(top + seq!['/'] + sub) == Some(
            MediaTypeView { top, sub, params: Seq::empty() },
        ),
{
    let m = MediaTypeView { top, sub, params: Seq::<ParamView>::empty() };
    law_written_type_reads(m);
    assert(rendered(m) =~= top + seq!['/'] + sub);
}

/// One parameter more is written after the others, behind a semicolon, with its name and its value on
/// the two sides of a `=`; the value stands between quotes if it is no name.
pub proof fn law_one_param_more(m: MediaTypeView, p: ParamView)
    requires
        writable(m),
        is_name(p.name),
    ensures
        is_name(p.value) ==> media_type_of(
            rendered(m) + seq![';', ' '] + p.name + seq!['='] + p.value,
        ) == Some(MediaTypeView { params: m.params.push(p), ..m }),
        quotable(p.value) && !is_name(p.value) ==> media_type_of(
            rendered(m) + seq![';', ' '] + p.name + seq!['=', '"'] + p.value + seq!['"'],
        ) == Some(MediaTypeView { params: m.params.push(p), ..m }),
{
    let out = MediaTypeView { params: m.params.push(p), ..m };
    lemma_rendered_param(m, p);
    if is_name(p.value) || quotable(p.value) {
        assert forall|i: int| 0 <= i < out.params.len() implies is_name(
            (#[trigger] out.params[i]).name,
        ) && (is_name(out.params[i].value) || quotable(out.params[i].value)) by {
            if i < m.params.len() {
                assert(out.params[i] == m.params[i]);
            }
        }
        law_written_type_reads(out);
    }
}

/// How a media type with one parameter more is written.
proof fn lemma_rendered_param(m: MediaTypeView, p: ParamView)
    ensures
        rendered(MediaTypeView { params: m.params.push(p), ..m }) == if is_name(p.value) {
            rendered(m) + seq![';', ' '] + p.name + seq!['='] + p.value
        } else {
            rendered(m) + seq![';', ' '] + p.name + seq!['=', '"'] + p.value + seq!['"']
        },
{
    let out = MediaTypeView { params: m.params.push(p), ..m };
    lemma_rendered_more(m.params, p);
    assert(rendered(out) =~= rendered(m) + rendered_param(p));
    let a = rendered(m);
    if is_name(p.value) {
        assert(a + (seq![';', ' '] + p.name + seq!['='] + p.value) =~= a + seq![';', ' '] + p.name
            + seq!['='] + p.value);
    } else {
        let q = seq!['"'] + p.value + seq!['"'];
        assert(seq!['='] + q =~= seq!['=', '"'] + p.value + seq!['"']);
        assert(a + (seq![';', ' '] + p.name + seq!['='] + q) =~= a + seq![';', ' '] + p.name + (
        seq!['='] + q));
        assert(a + seq![';', ' '] + p.name + (seq!['=', '"'] + p.value + seq!['"']) =~= a + seq![
            ';',
            ' ',
        ] + p.name + seq!['=', '"'] + p.value + seq!['"']);
    }
}

/// Parameters with one more are written as before, with the one after them.
proof fn lemma_rendered_more(params: Seq<ParamView>, p: ParamView)
    ensures
        rendered_params(params.push(p)) == rendered_params(params) + rendered_param(p),
    decreases params.len(),
{
    let all = params.push(p);
    if params.len() == 0 {
        assert(all.skip(1) =~= Seq::<ParamView>::empty());
        assert(rendered_params(all.skip(1)) =~= Seq::<char>::empty());
        assert(rendered_params(params) =~= Seq::<char>::empty());
        assert(rendered_params(all) =~= rendered_params(params) + rendered_param(p));
    } else {
        assert(all.skip(1) =~= params.skip(1).push(p));
        assert(all[0] == params[0]);
        lemma_rendered_more(params.skip(1), p);
        assert(rendered_params(all) =~= rendered_params(params) + rendered_param(p));
    }
}

/// Spaces and tabs up to another character, or the end, end there.
pub proof fn lemma_space_end(s: Seq<char>, i: int, k: int)
    requires
        0 <= i <= k <= s.len(),
        forall|j: int| i <= j < k ==> is_space(#[trigger] s[j]),
        k < s.len() ==> !is_space(s[k]),
    ensures
        space_end(s, i) == k,
    decreases k - i,
{
    if i < k {
        lemma_space_end(s, i + 1, k);
    }
}

/// Two names with a slash between them read as a media type wherever no semicolon follows, perhaps
/// after spaces.
pub proof fn lemma_plain_type_reads(s: Seq<char>, i: int, top: Seq<char>, sub: Seq<char>, e: int)
    requires
        is_name(top),
        is_name(sub),
        0 <= i <= e <= s.len(),
        s.subrange(i, e) == top + seq!['/'] + sub,
        e < s.len() ==> !is_token(s[e]),
    ensures
        e == i + top.len() + 1 + sub.len(),
        token_end(s, i) == i + top.len(),
        token_end(s, i + top.len() + 1) == e,
        space_end(s, e) >= s.len() || s[space_end(s, e)] != ';' ==> media_type_at(s, i) == Some(
            (MediaTypeView { top, sub, params: Seq::empty() }, e),
        ),
        params_at(s, e) matches Some((params, end)) ==> media_type_at(s, i) == Some(
            (MediaTypeView { top, sub, params }, end),
        ),
{
    let w = s.subrange(i, e);
    let k = i + top.len();
    assert(w.len() == e - i && w.len() == top.len() + 1 + sub.len());
    assert forall|j: int| i <= j < k implies is_token(#[trigger] s[j]) by {
        assert(s[j] == w[j - i]);
        assert(top[j - i] == w[j - i]);
    }
    assert(s[k] == w[k - i]);
    assert(s[k] == '/');
    lemma_token_end(s, i, k);
    assert forall|j: int| k + 1 <= j < e implies is_token(#[trigger] s[j]) by {
        assert(s[j] == w[j - i]);
        assert(sub[j - k - 1] == w[j - i]);
    }
    lemma_token_end(s, k + 1, e);
    assert(s.subrange(i, k) =~= top);
    assert(s.subrange(k + 1, e) =~= sub) by {
        assert forall|j: int| 0 <= j < sub.len() implies s.subrange(k + 1, e)[j] == sub[j] by {
            assert(s[k + 1 + j] == w[k + 1 + j - i]);
        }
    }
    lemma_ends(s, e);
}

/// Spaces and tabs on the two sides of a semicolon make no difference.
pub proof fn law_spaces_round_semicolon(
    top: Seq<char>,
    sub: Seq<char>,
    left: Seq<char>,
    right: Seq<char>,
    p: ParamView,
)
    requires
        is_name(top),
        is_name(sub),
        is_name(p.name),
        is_name(p.value),
        forall|i: int| 0 <= i < left.len() ==> is_space(#[trigger] left[i]),
        forall|i: int| 0 <= i < right.len() ==> is_space(#[trigger] right[i]),
    ensures
        media_type_of(
            (top + seq!['/'] + sub) + left + seq![';'] + right + (p.name + seq!['='] + p.value),
        ) == Some(MediaTypeView { top, sub, params: seq![p] }),
{
    let head = top + seq!['/'] + sub;
    let tail = p.name + seq!['='] + p.value;
    let s = head + left + seq![';'] + right + tail;
    let e = head.len() as int;
    let j = e + left.len();
    let a = j + 1 + right.len();
    let n = s.len() as int;
    assert(s.subrange(0, e) =~= head);
    assert(s[j] == ';');
    assert forall|k: int| e <= k < j implies is_space(#[trigger] s[k]) by {
        assert(s[k] == left[k - e]);
    }
    assert forall|k: int| j + 1 <= k < a implies is_space(#[trigger] s[k]) by {
        assert(s[k] == right[k - j - 1]);
    }
    assert(s[a] == tail[0]);
    assert(tail[0] == p.name[0]);
    assert(is_token(p.name[0]));
    if left.len() > 0 {
        assert(s[e] == left[0]);
        assert(is_space(left[0]));
    }
    lemma_space_end(s, e, j);
    lemma_space_end(s, j + 1, a);
    assert(s.subrange(a, n) =~= tail);
    lemma_param_reads(s, a, p, n);
    assert(params_at(s, n) == Some((Seq::<ParamView>::empty(), n)));
    assert(seq![p] + Seq::<ParamView>::empty() =~= seq![p]);
    assert(params_at(s, e) == Some((seq![p], n)));
    lemma_plain_type_reads(s, 0, top, sub, e);
}

/// Without a slash, or without a name on one side of it, there is no media type. There is none either
/// where anything but a parameter follows.
pub proof fn law_no_media_type(top: Seq<char>, sub: Seq<char>, c: char)
    requires
        is_name(top),
        is_name(sub),
        !is_token(c),
    ensures
        media_type_of(top) is None,
        media_type_of(top + seq!['/']) is None,
        media_type_of(seq!['/'] + sub) is None,
        media_type_of(top + seq!['/'] + sub + seq![c]) is None,
        media_type_of(Seq::<char>::empty()) is None,
{
    let n = top.len() as int;
    lemma_token_end(top, 0, n);
    let a = top + seq!['/'];
    assert forall|j: int| 0 <= j < n implies is_token(#[trigger] a[j]) by {
        assert(a[j] == top[j]);
    }
    assert(a[n] == '/');
    lemma_token_end(a, 0, n);
    lemma_token_end(a, n + 1, n + 1);
    let b = seq!['/'] + sub;
    assert(b[0] == '/');
    lemma_token_end(b, 0, 0);
    let plain = top + seq!['/'] + sub;
    let s = plain + seq![c];
    let e = plain.len() as int;
    assert(s.subrange(0, e) =~= plain);
    assert(s[e] == c);
    lemma_plain_type_reads(s, 0, top, sub, e);
    lemma_ends(s, e);
    if c == ';' {
        lemma_space_end(s, e, e);
        lemma_space_end(s, e + 1, e + 1);
        lemma_token_end(s, e + 1, e + 1);
    } else if is_space(c) {
        lemma_space_end(s, e, e + 1);
    } else {
        lemma_space_end(s, e, e);
    }
}

/// A parameter has to have a name and a value.
pub proof fn law_no_param(top: Seq<char>, sub: Seq<char>, name: Seq<char>)
    requires
        is_name(top),
        is_name(sub),
        is_name(name),
    ensures
        media_type_of(top + seq!['/'] + sub + (seq![';'] + name)) is None,
        media_type_of(top + seq!['/'] + sub + (seq![';'] + name + seq!['='])) is None,
        media_type_of(top + seq!['/'] + sub + (seq![';', '='] + name)) is None,
{
    lemma_bad_param(top, sub, seq![';'] + name, name);
    lemma_bad_param(top, sub, seq![';'] + name + seq!['='], name);
    lemma_bad_param(top, sub, seq![';', '='] + name, name);
}

proof fn lemma_bad_param(top: Seq<char>, sub: Seq<char>, tail: Seq<char>, name: Seq<char>)
    requires
        is_name(top),
        is_name(sub),
        is_name(name),
        tail == seq![';'] + name || tail == seq![';'] + name + seq!['='] || tail == seq![';', '=']
            + name,
    ensures
        media_type_of(top + seq!['/'] + sub + tail) is None,
{
    let plain = top + seq!['/'] + sub;
    let s = plain + tail;
    let e = plain.len() as int;
    let n = s.len() as int;
    let k = e + 1 + name.len();
    assert(s.subrange(0, e) =~= plain);
    assert(s[e] == tail[0]);
    lemma_plain_type_reads(s, 0, top, sub, e);
    lemma_space_end(s, e, e);
    assert(s[e + 1] == tail[1]);
    assert(is_token(name[0]));
    lemma_space_end(s, e + 1, e + 1);
    if tail == seq![';', '='] + name {
        lemma_token_end(s, e + 1, e + 1);
    } else {
        assert forall|j: int| e + 1 <= j < k implies is_token(#[trigger] s[j]) by {
            assert(s[j] == tail[j - e]);
            assert(tail[j - e] == name[j - e - 1]);
        }
        if k < n {
            assert(s[k] == tail[k - e]);
        }
        lemma_token_end(s, e + 1, k);
        if k < n {
            lemma_token_end(s, n, n);
        }
    }
}

/// `*/*` is the media type that stands for all of them.
pub proof fn law_any_type()
    ensures
        media_type_of(seq!['*', '/', '*']) == Some(any_type()),
{
    let star = seq!['*'];
    law_plain_type(star, star);
    assert(star + seq!['/'] + star =~= seq!['*', '/', '*']);
}

/// Media types are the same if both names are, in any case, whatever their parameters are.
pub proof fn law_same_type(a: MediaTypeView, b: MediaTypeView)
    ensures
        same_type(a, b) <==> same_text(a.top, b.top) && same_text(a.sub, b.sub),
{
}

/// Each of the two names counts if it is not `*`.
pub proof fn law_specificity(m: MediaTypeView)
    ensures
        m.top == seq!['*'] && m.sub == seq!['*'] ==> specificity_of(m) == 0,
        m.top != seq!['*'] && m.sub == seq!['*'] ==> specificity_of(m) == 1,
        m.top == seq!['*'] && m.sub != seq!['*'] ==> specificity_of(m) == 1,
        m.top != seq!['*'] && m.sub != seq!['*'] ==> specificity_of(m) == 2,
{
}

/// What lies before the end of name characters are name characters.
proof fn lemma_tokens(s: Seq<char>, i: int)
    requires
        0 <= i <= s.len(),
    ensures
        i <= token_end(s, i) <= s.len(),
        all_token(s.subrange(i, token_end(s, i))),
    decreases s.len() - i,
{
    lemma_ends(s, i);
    let k = token_end(s, i);
    if i < k {
        lemma_tokens(s, i + 1);
        assert forall|j: int| 0 <= j < k - i implies is_token(#[trigger] s.subrange(i, k)[j]) by {
            if j > 0 {
                assert(s.subrange(i, k)[j] == s.subrange(i + 1, k)[j - 1]);
            }
        }
    }
}

/// A quoted text that was read can stand between quotes.
proof fn lemma_quoted(s: Seq<char>, at: int, i: int)
    requires
        0 <= at <= i <= s.len(),
        quote_end(s, i) is Some,
    ensures
        i <= quote_end(s, i)->0 < s.len(),
        quote_end(s.subrange(at, quote_end(s, i)->0 + 1), i - at) == Some(quote_end(s, i)->0 - at),
    decreases s.len() - i,
{
    lemma_ends(s, i);
    let q = quote_end(s, i)->0;
    let t = s.subrange(at, q + 1);
    assert(t[i - at] == s[i]);
    if s[i] == '"' {
    } else if s[i] == '\\' {
        lemma_quoted(s, at, i + 2);
    } else {
        lemma_quoted(s, at, i + 1);
    }
}

/// Parameters that were read can be written.
proof fn lemma_read_params(s: Seq<char>, i: int)
    requires
        0 <= i <= s.len(),
        params_at(s, i) is Some,
    ensures
        forall|k: int|
            0 <= k < (params_at(s, i)->0).0.len() ==> is_name(
                (#[trigger] (params_at(s, i)->0).0[k]).name,
            ) && (is_name((params_at(s, i)->0).0[k].value) || quotable(
                (params_at(s, i)->0).0[k].value,
            )),
    decreases s.len() - i,
{
    let j = space_end(s, i);
    lemma_ends(s, i);
    if j < s.len() && s[j] == ';' {
        lemma_ends(s, j + 1);
        let a = space_end(s, j + 1);
        let k = token_end(s, a);
        let (p, e) = param_at(s, a)->0;
        lemma_tokens(s, a);
        if s[k + 1] == '"' {
            let q = quote_end(s, k + 2)->0;
            lemma_quoted(s, k + 2, k + 2);
            assert(s.subrange(k + 2, q + 1) =~= p.value.push('"')) by {
                assert(quote_end(s.subrange(k + 2, q + 1), 0) == Some(q - (k + 2)));
                lemma_quote_is_there(s, k + 2);
            }
        } else {
            lemma_tokens(s, k + 1);
        }
        lemma_read_params(s, e);
        let rest = (params_at(s, e)->0).0;
        let all = (params_at(s, i)->0).0;
        assert(all == seq![p] + rest);
        assert forall|n: int| 0 <= n < all.len() implies is_name((#[trigger] all[n]).name) && (
        is_name(all[n].value) || quotable(all[n].value)) by {
            if n > 0 {
                assert(all[n] == rest[n - 1]);
            }
        }
    }
}

/// Where a quoted text ends there is a quote.
proof fn lemma_quote_is_there(s: Seq<char>, i: int)
    ensures
        quote_end(s, i) matches Some(q) ==> s[q] == '"',
    decreases s.len() - i,
{
    if 0 <= i < s.len() && s[i] != '"' {
        if s[i] == '\\' {
            if i + 1 < s.len() {
                lemma_quote_is_there(s, i + 2);
            }
        } else {
            lemma_quote_is_there(s, i + 1);
        }
    }
}

/// A media type that was read can be written, wherever it stood.
pub proof fn lemma_read_type(s: Seq<char>, i: int)
    requires
        0 <= i <= s.len(),
        media_type_at(s, i) is Some,
    ensures
        writable((media_type_at(s, i)->0).0),
{
    lemma_tokens(s, i);
    let k = token_end(s, i);
    lemma_tokens(s, k + 1);
    lemma_read_params(s, token_end(s, k + 1));
}

/// Every media type that was read can be written, and then reads as itself.
pub proof fn law_read_type_is_writable(s: Seq<char>)
    requires
        media_type_of(s) is Some,
    ensures
        writable(media_type_of(s)->0),
        media_type_of(rendered(media_type_of(s)->0)) == media_type_of(s),
{
    lemma_read_type(s, 0);
    law_written_type_reads(media_type_of(s)->0);
}

fn is_name_text(s: &str) -> (r: bool)
    ensures
        r == is_name(s@),
{
    let v = chars_of(s);
    let mut i: usize = 0;
    while i < v.len()
        invariant
            i <= v.len(),
            v@ == s@,
            forall|j: int| 0 <= j < i ==> is_token(#[trigger] s@[j]),
        decreases v.len() - i,
    {
        if !token(v[i]) {
            return false;
        }
        i += 1;
    }
    v.len() > 0
}

impl MediaType {
    /// The media type as it is written in a header.
    pub fn render(&self) -> (r: String)
        ensures
            r@ == rendered(self@),
    {
        proof {
            reveal_strlit("/");
            reveal_strlit("; ");
            reveal_strlit("=");
            reveal_strlit("\"");
            assert("/"@ =~= seq!['/']);
            assert("; "@ =~= seq![';', ' ']);
            assert("="@ =~= seq!['=']);
            assert("\""@ =~= seq!['"']);
        }
        let ghost all = self@.params;
        let mut text = self.top.clone();
        text.append("/");
        text.append(self.sub.as_str());
        let mut i: usize = 0;
        assert(all.skip(0) =~= all);
        while i < self.params.len()
            invariant
                i <= self.params.len(),
                all == param_views(self.params@),
                "; "@ == seq![';', ' '],
                "="@ == seq!['='],
                "\""@ == seq!['"'],
                text@ + rendered_params(all.skip(i as int)) == rendered(self@),
            decreases self.params.len() - i,
        {
            let ghost before = text@;
            let ghost p = all[i as int];
            let value = self.params[i].value.as_str();
            text.append("; ");
            text.append(self.params[i].name.as_str());
            text.append("=");
            if is_name_text(value) {
                text.append(value);
            } else {
                text.append("\"");
                text.append(value);
                text.append("\"");
            }
            proof {
                assert(p == self.params@[i as int]@);
                assert(text@ =~= before + rendered_param(p));
                assert(all.skip(i as int)[0] == p);
                assert(all.skip(i as int).skip(1) =~= all.skip(i + 1));
                assert(text@ + rendered_params(all.skip(i + 1)) =~= before + rendered_params(
                    all.skip(i as int),
                ));
            }
            i += 1;
        }
        assert(all.skip(i as int) =~= Seq::empty());
        assert(text@ + Seq::<char>::empty() =~= text@);
        text
    }
}

} // verus!
