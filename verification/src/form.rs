//! Form fields, and what values can be made of them.
use vstd::prelude::*;
use crate::text::chars_of;
use crate::uri::Segments;

verus! {

/// Whether a key of a field name starts at the character.
pub open spec fn opens_key(c: char) -> bool {
    c == '.' || c == '['
}

/// Where the next opening of a key is from `i` on, or the length.
pub open spec fn opening_from(s: Seq<char>, i: int) -> int
    decreases s.len() - i,
{
    if 0 <= i < s.len() && !opens_key(s[i]) {
        opening_from(s, i + 1)
    } else if i >= s.len() {
        s.len() as int
    } else {
        i
    }
}

/// Where the next closing bracket is from `i` on, plus one, or the length.
pub open spec fn closing_from(s: Seq<char>, i: int) -> int
    decreases s.len() - i,
{
    if 0 <= i < s.len() && s[i] != ']' {
        closing_from(s, i + 1)
    } else if i >= s.len() {
        s.len() as int
    } else {
        i + 1
    }
}

/// Where the part of a field name that starts at `i` ends. A part is `[key]`, `.key`, or a key that
/// runs up to the next of those.
pub open spec fn part_end(s: Seq<char>, i: int) -> int {
    if i >= s.len() || s[i] == '=' {
        i
    } else if s[i] == '[' {
        closing_from(s, i)
    } else if s[i] == '.' {
        opening_from(s, i + 1)
    } else {
        opening_from(s, i)
    }
}

/// The key in a part of a field name: without its point or brackets.
pub open spec fn part_key(part: Seq<char>) -> Seq<char> {
    if part.len() > 0 && part[0] == '.' {
        part.skip(1)
    } else if part.len() > 1 && part[0] == '[' && part.last() == ']' {
        part.subrange(1, part.len() - 1)
    } else {
        part
    }
}

/// A field name and the part of it that is looked at.
pub struct NameView {
    name: String,
    start: usize,
    end: usize,
}

/// A field name and the part of it that is looked at, as text and positions.
#[verifier::ext_equal]
pub struct NameSpan {
    pub name: Seq<char>,
    pub start: int,
    pub end: int,
}

impl View for NameView {
    type V = NameSpan;

    closed spec fn view(&self) -> NameSpan {
        NameSpan { name: self.name@, start: self.start as int, end: self.end as int }
    }
}

/// The view of the part after the one looked at.
pub open spec fn shifted(v: NameSpan) -> NameSpan {
    NameSpan { name: v.name, start: v.end, end: part_end(v.name, v.end) }
}

/// The view of the first part.
pub open spec fn first_part(name: Seq<char>) -> NameSpan {
    NameSpan { name, start: 0, end: part_end(name, 0) }
}

/// The key that is looked at.
pub open spec fn key_of(v: NameSpan) -> Seq<char> {
    part_key(v.name.subrange(v.start, v.end))
}

/// Whether a text can be a key as it stands: it has a character, opens no other key, and is not empty
/// for an `=`.
pub open spec fn is_plain_key(s: Seq<char>) -> bool {
    s.len() > 0 && s[0] != '=' && !s.contains('.') && !s.contains('[')
}

/// The search for an opening goes past what opens nothing.
proof fn lemma_opening(s: Seq<char>, i: int, k: int)
    requires
        0 <= i <= k <= s.len(),
        forall|j: int| i <= j < k ==> !opens_key(#[trigger] s[j]),
        k < s.len() ==> opens_key(s[k]),
    ensures
        opening_from(s, i) == k,
    decreases k - i,
{
    if i < k {
        lemma_opening(s, i + 1, k);
    }
}

/// The search for a closing bracket goes past what is none.
proof fn lemma_closing(s: Seq<char>, i: int, k: int)
    requires
        0 <= i <= k < s.len(),
        forall|j: int| i <= j < k ==> #[trigger] s[j] != ']',
        s[k] == ']',
    ensures
        closing_from(s, i) == k + 1,
    decreases k - i,
{
    if i < k {
        lemma_closing(s, i + 1, k);
    }
}

/// A name that opens no other key is its own first key, and has no second one. A point or a bracket
/// ends the first key, whatever follows.
pub proof fn law_first_key(key: Seq<char>, rest: Seq<char>)
    requires
        is_plain_key(key),
        rest.len() > 0 ==> rest[0] == '.' || rest[0] == '[',
    ensures
        key_of(first_part(key + rest)) == key,
        rest.len() == 0 ==> key_of(shifted(first_part(key + rest))) == Seq::<char>::empty(),
{
    let s = key + rest;
    let k = key.len() as int;
    assert forall|j: int| 0 <= j < k implies !opens_key(#[trigger] s[j]) by {
        assert(s[j] == key[j]);
        if opens_key(key[j]) {
            assert(key.contains('.') || key.contains('['));
        }
    }
    assert(s[0] == key[0]);
    assert(!opens_key(s[0]));
    if rest.len() > 0 {
        assert(s[k] == rest[0]);
    }
    lemma_opening(s, 0, k);
    assert(s.subrange(0, k) =~= key);
    assert(!opens_key(key[0]));
    if rest.len() == 0 {
        assert(s.subrange(k, k) =~= Seq::<char>::empty());
    }
}

/// A name that starts with a `=`, or is empty, has an empty first key.
pub proof fn law_no_first_key(rest: Seq<char>)
    ensures
        key_of(first_part(seq!['='] + rest)) == Seq::<char>::empty(),
        key_of(first_part(Seq::<char>::empty())) == Seq::<char>::empty(),
{
    let s = seq!['='] + rest;
    assert(s[0] == '=');
    assert(s.subrange(0, 0) =~= Seq::<char>::empty());
    assert(Seq::<char>::empty().subrange(0, 0) =~= Seq::<char>::empty());
}

/// After the first key, a point is followed by the second one, up to the next point or bracket.
pub proof fn law_key_after_point(key: Seq<char>, next: Seq<char>, rest: Seq<char>)
    requires
        is_plain_key(key),
        !next.contains('.'),
        !next.contains('['),
        rest.len() > 0 ==> rest[0] == '.' || rest[0] == '[',
    ensures
        key_of(shifted(first_part(key + (seq!['.'] + next + rest)))) == next,
{
    let tail = seq!['.'] + next + rest;
    let s = key + tail;
    let k = key.len() as int;
    let e = k + 1 + next.len();
    law_first_key(key, tail);
    lemma_first_end(key, tail);
    assert(s[k] == tail[0]);
    assert forall|j: int| k + 1 <= j < e implies !opens_key(#[trigger] s[j]) by {
        assert(s[j] == next[j - k - 1]);
        if opens_key(s[j]) {
            assert(next.contains('.') || next.contains('['));
        }
    }
    if rest.len() > 0 {
        assert(s[e] == rest[0]);
    }
    lemma_opening(s, k + 1, e);
    assert(s.subrange(k, e) =~= seq!['.'] + next);
    assert((seq!['.'] + next).skip(1) =~= next);
}

/// After the first key, brackets hold the second one, whatever follows.
pub proof fn law_key_in_brackets(key: Seq<char>, next: Seq<char>, rest: Seq<char>)
    requires
        is_plain_key(key),
        !next.contains(']'),
    ensures
        key_of(shifted(first_part(key + (seq!['['] + next + seq![']'] + rest)))) == next,
{
    let tail = seq!['['] + next + seq![']'] + rest;
    let s = key + tail;
    let k = key.len() as int;
    let e = k + 1 + next.len();
    law_first_key(key, tail);
    lemma_first_end(key, tail);
    assert(s[k] == tail[0]);
    assert(s[e] == ']');
    assert forall|j: int| k <= j < e implies #[trigger] s[j] != ']' by {
        if j > k {
            assert(s[j] == next[j - k - 1]);
            if s[j] == ']' {
                assert(next.contains(']'));
            }
        }
    }
    lemma_closing(s, k, e);
    let part = s.subrange(k, e + 1);
    assert(part =~= seq!['['] + next + seq![']']);
    assert(part.subrange(1, part.len() - 1) =~= next);
}

/// A bracket that is not closed is part of the key.
pub proof fn law_unclosed_bracket(key: Seq<char>, next: Seq<char>)
    requires
        is_plain_key(key),
        !next.contains(']'),
    ensures
        key_of(shifted(first_part(key + (seq!['['] + next)))) == seq!['['] + next,
{
    let tail = seq!['['] + next;
    let s = key + tail;
    let k = key.len() as int;
    lemma_first_end(key, tail);
    assert(s[k] == tail[0]);
    assert forall|j: int| k <= j < s.len() implies #[trigger] s[j] != ']' by {
        if j > k {
            assert(s[j] == next[j - k - 1]);
            if s[j] == ']' {
                assert(next.contains(']'));
            }
        }
    }
    lemma_unclosed(s, k);
    assert(s.subrange(k, s.len() as int) =~= tail);
    assert(tail.last() == s[s.len() - 1]);
}

/// Without a closing bracket the search for it goes to the end.
proof fn lemma_unclosed(s: Seq<char>, i: int)
    requires
        0 <= i <= s.len(),
        forall|j: int| i <= j < s.len() ==> #[trigger] s[j] != ']',
    ensures
        closing_from(s, i) == s.len(),
    decreases s.len() - i,
{
    if i < s.len() {
        lemma_unclosed(s, i + 1);
    }
}

/// Where the first part ends.
proof fn lemma_first_end(key: Seq<char>, rest: Seq<char>)
    requires
        is_plain_key(key),
        rest.len() > 0 ==> rest[0] == '.' || rest[0] == '[',
    ensures
        part_end(key + rest, 0) == key.len(),
{
    let s = key + rest;
    let k = key.len() as int;
    assert forall|j: int| 0 <= j < k implies !opens_key(#[trigger] s[j]) by {
        assert(s[j] == key[j]);
        if opens_key(key[j]) {
            assert(key.contains('.') || key.contains('['));
        }
    }
    assert(s[0] == key[0]);
    assert(!opens_key(s[0]));
    if rest.len() > 0 {
        assert(s[k] == rest[0]);
    }
    lemma_opening(s, 0, k);
}

fn find_opening(v: &Vec<char>, i: usize) -> (r: usize)
    requires
        i <= v.len(),
    ensures
        r == opening_from(v@, i as int),
        i <= r <= v.len(),
{
    let mut k: usize = i;
    while k < v.len() && v[k] != '.' && v[k] != '['
        invariant
            i <= k <= v.len(),
            opening_from(v@, i as int) == opening_from(v@, k as int),
        decreases v.len() - k,
    {
        k += 1;
    }
    k
}

fn find_closing(v: &Vec<char>, i: usize) -> (r: usize)
    requires
        i <= v.len(),
    ensures
        r == closing_from(v@, i as int),
        i <= r <= v.len(),
{
    let mut k: usize = i;
    while k < v.len() && v[k] != ']'
        invariant
            i <= k <= v.len(),
            closing_from(v@, i as int) == closing_from(v@, k as int),
        decreases v.len() - k,
    {
        k += 1;
    }
    if k < v.len() {
        k + 1
    } else {
        k
    }
}

fn find_part_end(v: &Vec<char>, i: usize) -> (r: usize)
    requires
        i <= v.len(),
    ensures
        r == part_end(v@, i as int),
        i <= r <= v.len(),
{
    if i >= v.len() || v[i] == '=' {
        i
    } else if v[i] == '[' {
        find_closing(v, i)
    } else if v[i] == '.' {
        find_opening(v, i + 1)
    } else {
        find_opening(v, i)
    }
}

impl NameView {
    /// The part that is looked at lies within the name.
    pub open spec fn well_formed(&self) -> bool {
        0 <= self@.start <= self@.end <= self@.name.len()
    }

    /// Looks at the first part of a name.
    pub fn new(name: &str) -> (r: NameView)
        ensures
            r@ == first_part(name@),
            r.well_formed(),
    {
        let v = chars_of(name);
        let end = find_part_end(&v, 0);
        NameView { name: name.to_owned(), start: 0, end }
    }

    /// Looks at the next part.
    pub fn shift(&mut self)
        requires
            old(self).well_formed(),
        ensures
            final(self)@ == shifted(old(self)@),
            final(self).well_formed(),
    {
        let v = chars_of(self.name.as_str());
        let next = find_part_end(&v, self.end);
        self.start = self.end;
        self.end = next;
    }

    /// The key that is looked at.
    pub fn key(&self) -> (r: &str)
        requires
            self.well_formed(),
        ensures
            r@ == key_of(self@),
    {
        let part = self.name.as_str().substring_char(self.start, self.end);
        let n = part.unicode_len();
        if n > 0 && part.get_char(0) == '.' {
            assert(part@.skip(1) =~= part@.subrange(1, n as int));
            part.substring_char(1, n)
        } else if n > 1 && part.get_char(0) == '[' && part.get_char(n - 1) == ']' {
            part.substring_char(1, n - 1)
        } else {
            part
        }
    }
}

/// A field of a form: a name and a value.
pub struct ValueField {
    pub name: NameView,
    pub value: String,
}

/// A field as text.
#[verifier::ext_equal]
pub struct FieldView {
    pub name: NameSpan,
    pub value: Seq<char>,
}

impl View for ValueField {
    type V = FieldView;

    open spec fn view(&self) -> FieldView {
        FieldView { name: self.name@, value: self.value@ }
    }
}

/// The field with a name and a value.
pub open spec fn field_of(pair: (Seq<char>, Seq<char>)) -> FieldView {
    FieldView { name: first_part(pair.0), value: pair.1 }
}

/// The field with the next part of its name looked at.
pub open spec fn shifted_field(f: FieldView) -> FieldView {
    FieldView { name: shifted(f.name), value: f.value }
}

/// The views of fields.
pub open spec fn field_views(v: Seq<ValueField>) -> Seq<FieldView> {
    Seq::new(v.len(), |i: int| v[i]@)
}

/// A field has the value of its pair and looks at the first key of its name. Looking at the next key
/// changes neither the name nor the value.
pub proof fn law_field(name: Seq<char>, value: Seq<char>, f: FieldView)
    ensures
        field_of((name, value)).value == value,
        field_of((name, value)).name == first_part(name),
        field_of((name, value)).name.name == name,
        shifted_field(f).value == f.value,
        shifted_field(f).name == shifted(f.name),
        shifted_field(f).name.name == f.name.name,
{
}

impl ValueField {
    /// The field with a name and a value.
    pub fn from_pair(name: &str, value: &str) -> (r: ValueField)
        ensures
            r@ == field_of((name@, value@)),
            r.name.well_formed(),
    {
        ValueField { name: NameView::new(name), value: value.to_owned() }
    }

    /// The field with the next part of its name looked at.
    pub fn shift(self) -> (r: ValueField)
        requires
            self.name.well_formed(),
        ensures
            r@ == shifted_field(self@),
            r.name.well_formed(),
    {
        let mut name = self.name;
        name.shift();
        ValueField { name, value: self.value }
    }
}

/// How strictly a form is read.
#[derive(Clone, Copy, PartialEq, Eq, Structural, Debug)]
pub enum Options {
    Lenient,
    Strict,
}

/// What can be made of the fields of a form, taken in one at a time.
pub trait FromForm: Sized {
    /// What has been taken in so far.
    type Context;

    /// What makes a form unusable.
    type Error;

    /// Starts without a field.
    fn init(options: Options) -> Self::Context;

    /// Takes in a field.
    fn push_value(context: Self::Context, field: ValueField) -> Self::Context;

    /// Makes the value.
    fn finalize(context: Self::Context) -> Result<Self, Self::Error>;
}

/// Whether `r` can come of the fields: of starting leniently, taking them in one after the other,
/// and finishing.
pub open spec fn form_result<T: FromForm>(fields: Seq<ValueField>, r: Result<T, T::Error>) -> bool {
    exists|contexts: Seq<T::Context>|
        {
            &&& contexts.len() == fields.len() + 1
            &&& call_ensures(T::init, (Options::Lenient,), contexts[0])
            &&& forall|i: int|
                0 <= i < fields.len() ==> call_ensures(
                    T::push_value,
                    (#[trigger] contexts[i], fields[i]),
                    contexts[i + 1],
                )
            &&& #[trigger] call_ensures(T::finalize, (contexts.last(),), r)
        }
}

/// What comes of a form is what finishing gives after a lenient start and after every field has been
/// taken in, in their order, each with what came of the one before; and all of that can come of it.
pub proof fn law_form<T: FromForm>(fields: Seq<ValueField>, contexts: Seq<T::Context>, r: Result<T, T::Error>)
    requires
        contexts.len() == fields.len() + 1,
        forall|i: int|
            0 <= i < fields.len() ==> call_ensures(
                T::push_value,
                (#[trigger] contexts[i], fields[i]),
                contexts[i + 1],
            ),
        call_ensures(T::init, (Options::Lenient,), contexts[0]),
        call_ensures(T::finalize, (contexts.last(),), r),
    ensures
        form_result::<T>(fields, r),
{
}

/// What comes of a form without fields comes of a lenient start alone, and of a form with one field of
/// taking that in.
pub proof fn law_short_form<T: FromForm>(field: ValueField, r: Result<T, T::Error>)
    ensures
        form_result::<T>(Seq::empty(), r) ==> exists|c: T::Context|
            call_ensures(T::init, (Options::Lenient,), c) && #[trigger] call_ensures(
                T::finalize,
                (c,),
                r,
            ),
        form_result::<T>(seq![field], r) ==> exists|c: T::Context, d: T::Context|
            call_ensures(T::init, (Options::Lenient,), c) && #[trigger] call_ensures(
                T::push_value,
                (c, field),
                d,
            ) && call_ensures(T::finalize, (d,), r),
{
    if form_result::<T>(Seq::empty(), r) {
        let contexts = choose|contexts: Seq<T::Context>|
            {
                &&& contexts.len() == 1
                &&& call_ensures(T::init, (Options::Lenient,), contexts[0])
                &&& #[trigger] call_ensures(T::finalize, (contexts.last(),), r)
            };
        assert(call_ensures(T::finalize, (contexts[0],), r));
    }
    if form_result::<T>(seq![field], r) {
        let fields = seq![field];
        let contexts = choose|contexts: Seq<T::Context>|
            {
                &&& contexts.len() == fields.len() + 1
                &&& call_ensures(T::init, (Options::Lenient,), contexts[0])
                &&& forall|i: int|
                    0 <= i < fields.len() ==> call_ensures(
                        T::push_value,
                        (#[trigger] contexts[i], fields[i]),
                        contexts[i + 1],
                    )
                &&& #[trigger] call_ensures(T::finalize, (contexts.last(),), r)
            };
        assert(call_ensures(T::push_value, (contexts[0], fields[0]), contexts[1]));
        assert(contexts.last() == contexts[1]);
    }
}

/// What can be made of one segment of a path.
pub trait FromParam<'a>: Sized {
    /// What makes a segment unusable.
    type Error;

    /// Makes the value.
    fn from_param(param: &'a str) -> Result<Self, Self::Error>;
}

/// What can be made of the rest of a path.
pub trait FromSegments<'a>: Sized {
    /// What makes segments unusable.
    type Error;

    /// Makes the value.
    fn from_segments(segments: Segments<'a>) -> Result<Self, Self::Error>;
}

/// The error of a value that cannot be empty.
#[derive(Clone, Copy, PartialEq, Eq, Structural, Debug)]
pub struct Empty;

impl<'a> FromParam<'a> for &'a str {
    type Error = Empty;

    fn from_param(param: &'a str) -> (r: Result<&'a str, Empty>)
        ensures
            match r {
                Ok(s) => s@ == param@ && param@.len() > 0,
                Err(_) => param@.len() == 0,
            },
    {
        if param.is_empty() {
            Err(Empty)
        } else {
            Ok(param)
        }
    }
}

} // verus!
