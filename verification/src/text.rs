//! Text as sequences of characters: splitting, trimming, comparing.
use vstd::prelude::*;

verus! {

/// The code point of `c`, with the ASCII capital letters moved onto the small ones.
pub open spec fn lower_code(c: char) -> u32 {
    if 'A' <= c && c <= 'Z' {
        (c as u32 + 32) as u32
    } else {
        c as u32
    }
}

/// The code points of `s` with ASCII case removed.
pub open spec fn folded(s: Seq<char>) -> Seq<u32> {
    Seq::new(s.len(), |i: int| lower_code(s[i]))
}

/// Whether two texts are equal when ASCII case is ignored.
pub open spec fn same_text(a: Seq<char>, b: Seq<char>) -> bool {
    folded(a) == folded(b)
}

/// The characters with the Unicode property `White_Space`.
pub open spec fn is_white_space(c: char) -> bool {
    let u = c as u32;
    ||| 0x09 <= u <= 0x0d
    ||| u == 0x20
    ||| u == 0x85
    ||| u == 0xa0
    ||| u == 0x1680
    ||| 0x2000 <= u <= 0x200a
    ||| u == 0x2028
    ||| u == 0x2029
    ||| u == 0x202f
    ||| u == 0x205f
    ||| u == 0x3000
}

/// `s` without its leading white space.
pub open spec fn trim_start(s: Seq<char>) -> Seq<char>
    decreases s.len(),
{
    if s.len() > 0 && is_white_space(s[0]) {
        trim_start(s.skip(1))
    } else {
        s
    }
}

/// `s` without its trailing white space.
pub open spec fn trim_end(s: Seq<char>) -> Seq<char>
    decreases s.len(),
{
    if s.len() > 0 && is_white_space(s.last()) {
        trim_end(s.drop_last())
    } else {
        s
    }
}

/// `s` without white space at either end.
pub open spec fn trimmed(s: Seq<char>) -> Seq<char> {
    trim_end(trim_start(s))
}

/// What stands before the first `c` in `s`; all of `s` if there is none.
pub open spec fn before(s: Seq<char>, c: char) -> Seq<char> {
    match s.index_of_first(c) {
        Some(i) => s.take(i),
        None => s,
    }
}

/// What stands after the first `c` in `s`; nothing if there is none.
pub open spec fn after(s: Seq<char>, c: char) -> Seq<char> {
    match s.index_of_first(c) {
        Some(i) => s.skip(i + 1),
        None => Seq::empty(),
    }
}

/// The pieces of `s` between the occurrences of `c`: one more than there are of those.
pub open spec fn split(s: Seq<char>, c: char) -> Seq<Seq<char>>
    decreases s.len(),
    via split_shrinks
{
    if s.contains(c) {
        seq![before(s, c)] + split(after(s, c), c)
    } else {
        seq![s]
    }
}

#[via_fn]
proof fn split_shrinks(s: Seq<char>, c: char) {
    s.index_of_first_ensures(c);
}

/// The views of a sequence of strings.
pub open spec fn texts(v: Seq<String>) -> Seq<Seq<char>> {
    Seq::new(v.len(), |i: int| v[i]@)
}

/// The text of an optional string.
pub open spec fn opt_text(s: Option<String>) -> Option<Seq<char>> {
    match s {
        Some(t) => Some(t@),
        None => None,
    }
}

/// The text of an optional string slice.
pub open spec fn opt_str(s: Option<&str>) -> Option<Seq<char>> {
    match s {
        Some(t) => Some(t@),
        None => None,
    }
}

/// A split text has at least one piece.
pub proof fn lemma_split_nonempty(s: Seq<char>, c: char)
    ensures
        split(s, c).len() >= 1,
    decreases s.len(),
{
    s.index_of_first_ensures(c);
    if s.contains(c) {
        lemma_split_nonempty(after(s, c), c);
    }
}

/// Putting the separator back between the pieces.
pub open spec fn joined(pieces: Seq<Seq<char>>, c: char) -> Seq<char>
    decreases pieces.len(),
{
    if pieces.len() == 0 {
        Seq::empty()
    } else if pieces.len() == 1 {
        pieces[0]
    } else {
        pieces[0].push(c) + joined(pieces.skip(1), c)
    }
}

/// Splitting loses nothing: the pieces joined by the separator are the text, and no piece
/// holds the separator.
pub proof fn law_split_joins(s: Seq<char>, c: char)
    ensures
        joined(split(s, c), c) == s,
        forall|i: int| 0 <= i < split(s, c).len() ==> !(#[trigger] split(s, c)[i]).contains(c),
    decreases s.len(),
{
    s.index_of_first_ensures(c);
    if s.contains(c) {
        let rest = after(s, c);
        law_split_joins(rest, c);
        lemma_split_nonempty(rest, c);
        let pieces = split(s, c);
        assert(pieces.skip(1) =~= split(rest, c));
        assert(before(s, c).push(c) + rest =~= s);
        assert forall|i: int| 0 <= i < pieces.len() implies !(#[trigger] pieces[i]).contains(c) by {
            if i > 0 {
                assert(pieces[i] == split(rest, c)[i - 1]);
            }
        }
    }
}

/// Two texts are the same without regard to case exactly if they are equally long and differ only in
/// that one has an ASCII capital letter where the other has the small one.
pub proof fn law_same_text(a: Seq<char>, b: Seq<char>)
    ensures
        same_text(a, b) <==> a.len() == b.len() && forall|i: int|
            0 <= i < a.len() ==> #[trigger] a[i] == b[i] || ('A' <= a[i] <= 'Z' && b[i] as int
                == a[i] as int + 32) || ('A' <= b[i] <= 'Z' && a[i] as int == b[i] as int + 32),
{
    let x = folded(a);
    let y = folded(b);
    if same_text(a, b) {
        assert(x.len() == y.len());
        assert forall|i: int| 0 <= i < a.len() implies #[trigger] a[i] == b[i] || ('A' <= a[i]
            <= 'Z' && b[i] as int == a[i] as int + 32) || ('A' <= b[i] <= 'Z' && a[i] as int
            == b[i] as int + 32) by {
            assert(x[i] == y[i]);
            lemma_lower(a[i], b[i]);
        }
    }
    if a.len() == b.len() && forall|i: int|
        0 <= i < a.len() ==> #[trigger] a[i] == b[i] || ('A' <= a[i] <= 'Z' && b[i] as int
            == a[i] as int + 32) || ('A' <= b[i] <= 'Z' && a[i] as int == b[i] as int + 32) {
        assert forall|i: int| 0 <= i < a.len() implies x[i] == y[i] by {
            assert(a[i] == a[i]);
            lemma_lower(a[i], b[i]);
        }
        assert(x =~= y);
    }
}

/// Characters have the same code without case exactly if they are the same letter.
proof fn lemma_lower(a: char, b: char)
    ensures
        lower_code(a) == lower_code(b) <==> a == b || ('A' <= a <= 'Z' && b as int == a as int + 32) || (
        'A' <= b <= 'Z' && a as int == b as int + 32),
{
}

/// The white space is that of ASCII, and outside ASCII the spaces and separators of Unicode.
pub proof fn law_white_space(c: char)
    ensures
        c as int <= 0x7f ==> (is_white_space(c) <==> c == ' ' || c == '\t' || c == '\n' || c == '\r'
            || c as int == 0xb || c as int == 0xc),
        c as int > 0x7f ==> (is_white_space(c) <==> seq![
            0x85int,
            0xa0,
            0x1680,
            0x2000,
            0x2001,
            0x2002,
            0x2003,
            0x2004,
            0x2005,
            0x2006,
            0x2007,
            0x2008,
            0x2009,
            0x200a,
            0x2028,
            0x2029,
            0x202f,
            0x205f,
            0x3000,
        ].contains(c as int)),
{
    let list = seq![
        0x85int,
        0xa0,
        0x1680,
        0x2000,
        0x2001,
        0x2002,
        0x2003,
        0x2004,
        0x2005,
        0x2006,
        0x2007,
        0x2008,
        0x2009,
        0x200a,
        0x2028,
        0x2029,
        0x202f,
        0x205f,
        0x3000,
    ];
    assert(list[0] == 0x85 && list[1] == 0xa0 && list[2] == 0x1680 && list[14] == 0x2028 && list[15]
        == 0x2029 && list[16] == 0x202f && list[17] == 0x205f && list[18] == 0x3000);
    assert(list[3] == 0x2000 && list[4] == 0x2001 && list[5] == 0x2002 && list[6] == 0x2003 && list[7]
        == 0x2004 && list[8] == 0x2005 && list[9] == 0x2006 && list[10] == 0x2007 && list[11] == 0x2008
        && list[12] == 0x2009 && list[13] == 0x200a);
}

/// White space at the ends is trimmed, and nothing else.
pub proof fn law_trimmed(left: Seq<char>, core: Seq<char>, right: Seq<char>)
    requires
        forall|i: int| 0 <= i < left.len() ==> is_white_space(#[trigger] left[i]),
        forall|i: int| 0 <= i < right.len() ==> is_white_space(#[trigger] right[i]),
        core.len() > 0 ==> !is_white_space(core[0]) && !is_white_space(core.last()),
    ensures
        trimmed(left + core + right) == core,
{
    lemma_trim_start(left, core + right);
    assert(left + core + right =~= left + (core + right));
    if core.len() == 0 {
        assert(core + right =~= right);
        assert(right + Seq::<char>::empty() =~= right);
        lemma_trim_start(right, Seq::empty());
        assert(trim_end(Seq::<char>::empty()) =~= core);
    } else {
        assert(trim_start(core + right) == core + right);
        lemma_trim_end(core, right);
    }
}

/// Leading white space is trimmed first.
proof fn lemma_trim_start(left: Seq<char>, rest: Seq<char>)
    requires
        forall|i: int| 0 <= i < left.len() ==> is_white_space(#[trigger] left[i]),
    ensures
        trim_start(left + rest) == trim_start(rest),
    decreases left.len(),
{
    if left.len() > 0 {
        assert(is_white_space(left[0]));
        assert((left + rest).skip(1) =~= left.skip(1) + rest);
        lemma_trim_start(left.skip(1), rest);
    } else {
        assert(left + rest =~= rest);
    }
}

/// Trailing white space is trimmed up to another character.
proof fn lemma_trim_end(core: Seq<char>, right: Seq<char>)
    requires
        core.len() > 0,
        !is_white_space(core.last()),
        forall|i: int| 0 <= i < right.len() ==> is_white_space(#[trigger] right[i]),
    ensures
        trim_end(core + right) == core,
    decreases right.len(),
{
    if right.len() > 0 {
        assert(is_white_space(right[right.len() - 1]));
        assert((core + right).drop_last() =~= core + right.drop_last());
        lemma_trim_end(core, right.drop_last());
    } else {
        assert(core + right =~= core);
    }
}

/// The first separator parts what stands before it from what stands after it. Without a separator
/// everything stands before it.
pub proof fn law_parted(a: Seq<char>, b: Seq<char>, c: char)
    requires
        !a.contains(c),
    ensures
        before(a.push(c) + b, c) == a,
        after(a.push(c) + b, c) == b,
        before(a, c) == a,
        after(a, c) == Seq::<char>::empty(),
        a.push(c) + b != a,
        (a.push(c) + b).contains(c),
{
    let s = a.push(c) + b;
    a.index_of_first_ensures(c);
    s.index_of_first_ensures(c);
    assert(s[a.len() as int] == c);
    let i = s.index_of_first(c)->0;
    if i < a.len() {
        assert(a[i] == c);
    }
    assert(s.take(i) =~= a);
    assert(s.skip(i + 1) =~= b);
    assert(s.len() != a.len());
}

/// A text without a separator is one piece. A separator ends the first piece, and the other pieces
/// are those of the rest.
pub proof fn law_split(a: Seq<char>, b: Seq<char>, c: char)
    requires
        !a.contains(c),
    ensures
        split(a, c) == seq![a],
        split(a.push(c) + b, c) == seq![a] + split(b, c),
{
    law_parted(a, b, c);
}

/// Pieces without the separator come back when what joins them is split.
pub proof fn law_joined_splits(pieces: Seq<Seq<char>>, c: char)
    requires
        pieces.len() > 0,
        forall|i: int| 0 <= i < pieces.len() ==> !(#[trigger] pieces[i]).contains(c),
    ensures
        split(joined(pieces, c), c) == pieces,
    decreases pieces.len(),
{
    let rest = pieces.skip(1);
    assert(!pieces[0].contains(c));
    law_split(pieces[0], joined(rest, c), c);
    if pieces.len() == 1 {
        assert(seq![pieces[0]] =~= pieces);
    } else {
        assert forall|i: int| 0 <= i < rest.len() implies !(#[trigger] rest[i]).contains(c) by {
            assert(rest[i] == pieces[i + 1]);
        }
        law_joined_splits(rest, c);
        assert(seq![pieces[0]] + rest =~= pieces);
    }
}

/// The text of a string that is there or not is the text of the string.
pub proof fn law_optional_text(s: String, v: Seq<String>, i: int)
    requires
        0 <= i < v.len(),
    ensures
        opt_text(Some(s)) == Some(s@),
        opt_text(None) is None,
        texts(v).len() == v.len(),
        texts(v)[i] == v[i]@,
{
}

/// The text of a string slice that is there or not is the text of the slice.
pub proof fn law_optional_str(s: &str)
    ensures
        opt_str(Some(s)) == Some(s@),
        opt_str(None) is None,
{
}

/// `lower_code`, computed.
pub fn lower(c: char) -> (code: u32)
    ensures
        code == lower_code(c),
{
    if 'A' <= c && c <= 'Z' {
        c as u32 + 32
    } else {
        c as u32
    }
}

/// The characters of a string.
pub fn chars_of(s: &str) -> (v: Vec<char>)
    ensures
        v@ == s@,
{
    let mut v: Vec<char> = Vec::new();
    for c in it: s.chars()
        invariant
            v@ == it.seq().take(it.index()),
            it.seq() == s@,
    {
        v.push(c);
    }
    v
}

/// Whether two strings are equal when ASCII case is ignored.
pub fn eq_ignore_case(a: &str, b: &str) -> (r: bool)
    ensures
        r == same_text(a@, b@),
{
    let x = chars_of(a);
    let y = chars_of(b);
    if x.len() != y.len() {
        assert(folded(a@).len() != folded(b@).len());
        return false;
    }
    let mut i: usize = 0;
    while i < x.len()
        invariant
            i <= x.len(),
            x.len() == y.len(),
            x@ == a@,
            y@ == b@,
            forall|j: int| 0 <= j < i ==> lower_code(x@[j]) == lower_code(y@[j]),
        decreases x.len() - i,
    {
        if lower(x[i]) != lower(y[i]) {
            assert(folded(a@)[i as int] != folded(b@)[i as int]);
            return false;
        }
        i += 1;
    }
    assert(folded(a@) =~= folded(b@));
    true
}

/// Whether two strings are equal.
pub fn eq_text(a: &str, b: &str) -> (r: bool)
    ensures
        r == (a@ == b@),
{
    let x = chars_of(a);
    let y = chars_of(b);
    if x.len() != y.len() {
        return false;
    }
    let mut i: usize = 0;
    while i < x.len()
        invariant
            i <= x.len(),
            x.len() == y.len(),
            x@ == a@,
            y@ == b@,
            forall|j: int| 0 <= j < i ==> x@[j] == y@[j],
        decreases x.len() - i,
    {
        if x[i] != y[i] {
            return false;
        }
        i += 1;
    }
    assert(a@ =~= b@);
    true
}

/// `is_white_space`, computed.
pub fn white_space(c: char) -> (r: bool)
    ensures
        r == is_white_space(c),
{
    let u: u32 = c as u32;
    (0x09 <= u && u <= 0x0d) || u == 0x20 || u == 0x85 || u == 0xa0 || u == 0x1680 || (0x2000 <= u
        && u <= 0x200a) || u == 0x2028 || u == 0x2029 || u == 0x202f || u == 0x205f || u == 0x3000
}

/// `s` without white space at either end.
pub fn trim(s: &str) -> (r: &str)
    ensures
        r@ == trimmed(s@),
{
    let v = chars_of(s);
    let mut from: usize = 0;
    assert(s@.skip(0) =~= s@);
    while from < v.len() && white_space(v[from])
        invariant
            from <= v.len(),
            v@ == s@,
            trim_start(s@) == trim_start(s@.skip(from as int)),
        decreases v.len() - from,
    {
        assert(s@.skip(from as int).skip(1) =~= s@.skip(from + 1));
        from += 1;
    }
    let ghost t = s@.skip(from as int);
    assert(trim_start(s@) == t);
    let mut to: usize = v.len();
    assert(t =~= s@.subrange(from as int, to as int));
    while from < to && white_space(v[to - 1])
        invariant
            from <= to <= v.len(),
            v@ == s@,
            trim_end(t) == trim_end(s@.subrange(from as int, to as int)),
        decreases to - from,
    {
        assert(s@.subrange(from as int, to as int).drop_last() =~= s@.subrange(
            from as int,
            to - 1,
        ));
        to -= 1;
    }
    s.substring_char(from, to)
}

/// The pieces of `s` between the occurrences of `c`.
pub fn split_text(s: &str, c: char) -> (r: Vec<String>)
    ensures
        texts(r@) == split(s@, c),
{
    let v = chars_of(s);
    let mut r: Vec<String> = Vec::new();
    let mut start: usize = 0;
    let mut i: usize = 0;
    assert(s@.skip(0) =~= s@);
    assert(texts(r@) + split(s@, c) =~= split(s@, c));
    while i < v.len()
        invariant
            start <= i <= v.len(),
            v@ == s@,
            forall|j: int| start <= j < i ==> s@[j] != c,
            texts(r@) + split(s@.skip(start as int), c) == split(s@, c),
        decreases v.len() - i,
    {
        if v[i] == c {
            let ghost rest = s@.skip(start as int);
            let ghost done = texts(r@);
            proof {
                rest.index_of_first_ensures(c);
                assert(rest[i - start] == c);
                assert(rest.index_of_first(c) == Some(i - start));
                assert(rest.take(i - start) =~= s@.subrange(start as int, i as int));
                assert(rest.skip(i - start + 1) =~= s@.skip(i + 1));
            }
            r.push(s.substring_char(start, i).to_owned());
            start = i + 1;
            assert(texts(r@) =~= done.push(before(rest, c)));
            assert(texts(r@) + split(s@.skip(start as int), c) =~= done + split(rest, c));
        }
        i += 1;
    }
    let ghost rest = s@.skip(start as int);
    let ghost done = texts(r@);
    proof {
        rest.index_of_first_ensures(c);
        assert(!rest.contains(c)) by {
            if rest.contains(c) {
                let k = choose|k: int| 0 <= k < rest.len() && rest[k] == c;
                assert(s@[start + k] == c);
            }
        }
        assert(rest =~= s@.subrange(start as int, v.len() as int));
    }
    r.push(s.substring_char(start, v.len()).to_owned());
    assert(texts(r@) =~= done + seq![rest]);
    r
}

/// A copy of a list of strings.
pub fn clone_strings(v: &Vec<String>) -> (r: Vec<String>)
    ensures
        r@ == v@,
{
    let mut r: Vec<String> = Vec::new();
    let mut i: usize = 0;
    while i < v.len()
        invariant
            i <= v.len(),
            r@ == v@.take(i as int),
        decreases v.len() - i,
    {
        r.push(v[i].clone());
        i += 1;
    }
    assert(r@ =~= v@);
    r
}

/// The text before and after the first `c`; all of it and nothing if there is none.
pub fn split_at_char(s: &str, c: char) -> (r: (String, String))
    ensures
        r.0@ == before(s@, c),
        r.1@ == after(s@, c),
{
    let v = chars_of(s);
    let mut i: usize = 0;
    while i < v.len() && v[i] != c
        invariant
            i <= v.len(),
            v@ == s@,
            forall|j: int| 0 <= j < i ==> s@[j] != c,
        decreases v.len() - i,
    {
        i += 1;
    }
    proof {
        s@.index_of_first_ensures(c);
    }
    if i < v.len() {
        assert(s@.index_of_first(c) == Some(i as int));
        assert(s@.take(i as int) =~= s@.subrange(0, i as int));
        assert(s@.skip(i + 1) =~= s@.subrange(i + 1, s@.len() as int));
        (s.substring_char(0, i).to_owned(), s.substring_char(i + 1, v.len()).to_owned())
    } else {
        assert(!s@.contains(c));
        (s.to_owned(), String::new())
    }
}

} // verus!
