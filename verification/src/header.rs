//! Headers, and the map that keeps them in the order in which their names first came.
use vstd::prelude::*;
use crate::accept::{rendered_list, Accept, QMediaTypeView};
use crate::media_type::{rendered, ContentType, MediaTypeView};
use crate::text::{clone_strings, eq_ignore_case, opt_str, same_text, texts};

verus! {

/// A header: a name, compared without regard to case, and a value.
#[derive(Debug)]
pub struct Header {
    pub name: String,
    pub value: String,
}

/// A header as texts.
#[verifier::ext_equal]
pub struct HeaderView {
    pub name: Seq<char>,
    pub value: Seq<char>,
}

impl View for Header {
    type V = HeaderView;

    open spec fn view(&self) -> HeaderView {
        HeaderView { name: self.name@, value: self.value@ }
    }
}

impl Header {
    /// A header with this name and value.
    pub fn new(name: &str, value: &str) -> (r: Header)
        ensures
            r@ == (HeaderView { name: name@, value: value@ }),
    {
        Header { name: name.to_owned(), value: value.to_owned() }
    }

    /// The header's name.
    pub fn name(&self) -> (r: &str)
        ensures
            r@ == self@.name,
    {
        self.name.as_str()
    }

    /// The header's value.
    pub fn value(&self) -> (r: &str)
        ensures
            r@ == self@.value,
    {
        self.value.as_str()
    }
}

/// `From::from` from a type to itself, which gives back its argument.
pub assume_specification<X> [<X as std::convert::From<X>>::from] (value: X) -> (r: X)
    ensures
        r == value,
;

/// The header that gives a content type.
pub open spec fn content_type_header(m: MediaTypeView) -> HeaderView {
    HeaderView { name: "Content-Type"@, value: rendered(m) }
}

/// The header that gives accepted media types.
pub open spec fn accept_header(list: Seq<QMediaTypeView>) -> HeaderView {
    HeaderView { name: "Accept"@, value: rendered_list(list) }
}

impl From<ContentType> for Header {
    fn from(content_type: ContentType) -> (r: Header)
        ensures
            r@ == content_type_header(content_type@),
    {
        Header { name: "Content-Type".to_owned(), value: content_type.media_type.render() }
    }
}

// What the conversions give is stated over the views of headers, not as one value.
impl vstd::std_specs::convert::FromSpecImpl<ContentType> for Header {
    open spec fn obeys_from_spec() -> bool {
        false
    }

    open spec fn from_spec(content_type: ContentType) -> Header {
        arbitrary()
    }
}

impl From<Accept> for Header {
    fn from(accept: Accept) -> (r: Header)
        ensures
            r@ == accept_header(accept@),
    {
        Header { name: "Accept".to_owned(), value: accept.render() }
    }
}

impl vstd::std_specs::convert::FromSpecImpl<Accept> for Header {
    open spec fn obeys_from_spec() -> bool {
        false
    }

    open spec fn from_spec(accept: Accept) -> Header {
        arbitrary()
    }
}

/// One name with all the values it has, oldest first.
#[derive(Debug)]
pub struct Entry {
    name: String,
    values: Vec<String>,
}

/// An entry as texts.
#[verifier::ext_equal]
pub struct EntryView {
    pub name: Seq<char>,
    pub values: Seq<Seq<char>>,
}

impl View for Entry {
    type V = EntryView;

    closed spec fn view(&self) -> EntryView {
        EntryView { name: self.name@, values: texts(self.values@) }
    }
}

impl Clone for Entry {
    fn clone(&self) -> (r: Entry)
        ensures
            r@ == self@,
    {
        Entry { name: self.name.clone(), values: clone_strings(&self.values) }
    }
}

/// Whether some entry has the name.
pub open spec fn has_header(map: Seq<EntryView>, name: Seq<char>) -> bool {
    exists|i: int| 0 <= i < map.len() && same_text(#[trigger] map[i].name, name)
}

/// Where the entry with the name is.
pub open spec fn header_index(map: Seq<EntryView>, name: Seq<char>) -> int {
    choose|i: int| 0 <= i < map.len() && same_text(#[trigger] map[i].name, name)
}

/// All the values under the name, oldest first.
pub open spec fn header_values(map: Seq<EntryView>, name: Seq<char>) -> Seq<Seq<char>> {
    if has_header(map, name) {
        map[header_index(map, name)].values
    } else {
        Seq::empty()
    }
}

/// The oldest value under the name.
pub open spec fn first_value(map: Seq<EntryView>, name: Seq<char>) -> Option<Seq<char>> {
    if has_header(map, name) {
        Some(map[header_index(map, name)].values[0])
    } else {
        None
    }
}

/// The map with one more value: after those of its name, or under its name at the end.
pub open spec fn with_added(map: Seq<EntryView>, h: HeaderView) -> Seq<EntryView> {
    if has_header(map, h.name) {
        let k = header_index(map, h.name);
        map.update(k, EntryView { name: map[k].name, values: map[k].values.push(h.value) })
    } else {
        map.push(EntryView { name: h.name, values: seq![h.value] })
    }
}

/// The map with the value as the only one of its name.
pub open spec fn with_replaced(map: Seq<EntryView>, h: HeaderView) -> Seq<EntryView> {
    if has_header(map, h.name) {
        let k = header_index(map, h.name);
        map.update(k, EntryView { name: map[k].name, values: seq![h.value] })
    } else {
        map.push(EntryView { name: h.name, values: seq![h.value] })
    }
}

/// No name occurs twice, and every name has a value.
pub open spec fn well_formed(map: Seq<EntryView>) -> bool {
    &&& forall|i: int, j: int|
        #![trigger map[i], map[j]]
        0 <= i < j < map.len() ==> !same_text(map[i].name, map[j].name)
    &&& forall|i: int| 0 <= i < map.len() ==> (#[trigger] map[i]).values.len() > 0
}

/// The number of values in the map.
pub open spec fn value_count(map: Seq<EntryView>) -> nat
    decreases map.len(),
{
    if map.len() == 0 {
        0
    } else {
        value_count(map.drop_last()) + map.last().values.len()
    }
}

/// In a well-formed map the entry of a name is unique.
pub proof fn lemma_entry_unique(map: Seq<EntryView>, name: Seq<char>, i: int)
    requires
        well_formed(map),
        0 <= i < map.len(),
        same_text(map[i].name, name),
    ensures
        has_header(map, name),
        header_index(map, name) == i,
{
    let k = header_index(map, name);
    assert(same_text(map[k].name, name));
    if k < i {
        assert(!same_text(map[k].name, map[i].name));
    } else if i < k {
        assert(!same_text(map[i].name, map[k].name));
    }
}

/// Which spelling of a name is asked for makes no difference.
pub proof fn law_case_is_ignored(map: Seq<EntryView>, a: Seq<char>, b: Seq<char>)
    requires
        well_formed(map),
        same_text(a, b),
    ensures
        first_value(map, a) == first_value(map, b),
        header_values(map, a) == header_values(map, b),
{
    if has_header(map, a) {
        lemma_entry_unique(map, b, header_index(map, a));
    } else if has_header(map, b) {
        lemma_entry_unique(map, a, header_index(map, b));
    }
}

/// Adding a header appends its value to those of its name and changes no other name.
pub proof fn law_added(map: Seq<EntryView>, h: HeaderView, name: Seq<char>)
    requires
        well_formed(map),
    ensures
        well_formed(with_added(map, h)),
        header_values(with_added(map, h), name) == if same_text(name, h.name) {
            header_values(map, name).push(h.value)
        } else {
            header_values(map, name)
        },
        first_value(with_added(map, h), name) == if same_text(name, h.name) && first_value(
            map,
            name,
        ) is None {
            Some(h.value)
        } else {
            first_value(map, name)
        },
{
    let out = with_added(map, h);
    lemma_changed(map, out, h, name);
    if same_text(name, h.name) {
        law_case_is_ignored(map, name, h.name);
        if !has_header(map, h.name) {
            assert(header_values(out, name) =~= header_values(map, name).push(h.value));
        }
    }
}

/// Replacing a header leaves its value as the only one of its name and changes no other name.
pub proof fn law_replaced(map: Seq<EntryView>, h: HeaderView, name: Seq<char>)
    requires
        well_formed(map),
    ensures
        well_formed(with_replaced(map, h)),
        header_values(with_replaced(map, h), name) == if same_text(name, h.name) {
            seq![h.value]
        } else {
            header_values(map, name)
        },
        first_value(with_replaced(map, h), name) == if same_text(name, h.name) {
            Some(h.value)
        } else {
            first_value(map, name)
        },
{
    lemma_changed(map, with_replaced(map, h), h, name);
}

/// Adding or replacing a header leaves every name where it stands, as it was first written. A name that
/// was not there comes last.
pub proof fn law_names_stay(map: Seq<EntryView>, h: HeaderView, i: int)
    requires
        0 <= i < map.len(),
    ensures
        with_added(map, h)[i].name == map[i].name,
        with_replaced(map, h)[i].name == map[i].name,
        !has_header(map, h.name) ==> with_added(map, h).last().name == h.name && with_replaced(
            map,
            h,
        ).last().name == h.name,
        with_added(map, h).len() == with_replaced(map, h).len(),
        with_added(map, h).len() == if has_header(map, h.name) {
            map.len()
        } else {
            map.len() + 1
        },
{
}

/// The value that a lookup gives is the oldest of the name, and there is one exactly if there is a
/// value of the name.
pub proof fn law_first_is_oldest(map: Seq<EntryView>, name: Seq<char>)
    requires
        well_formed(map),
    ensures
        first_value(map, name) is Some <==> header_values(map, name).len() > 0,
        first_value(map, name) is Some ==> first_value(map, name)->0 == header_values(map, name)[0],
        has_header(map, name) <==> header_values(map, name).len() > 0,
{
    if has_header(map, name) {
        assert(map[header_index(map, name)].values.len() > 0);
    }
}

/// A map without headers has no values. Adding a header makes one value more, and replacing one makes
/// up for all the values that it takes the place of.
pub proof fn law_value_count(map: Seq<EntryView>, h: HeaderView)
    requires
        well_formed(map),
    ensures
        value_count(Seq::<EntryView>::empty()) == 0,
        value_count(with_added(map, h)) == value_count(map) + 1,
        value_count(with_replaced(map, h)) == value_count(map) + 1 - header_values(
            map,
            h.name,
        ).len(),
{
    if has_header(map, h.name) {
        let k = header_index(map, h.name);
        lemma_count_updated(map, k, with_added(map, h)[k]);
        lemma_count_updated(map, k, with_replaced(map, h)[k]);
    } else {
        let e = EntryView { name: h.name, values: seq![h.value] };
        assert(map.push(e).drop_last() =~= map);
    }
}

/// Changing an entry changes the number of values by what it gains or loses.
proof fn lemma_count_updated(map: Seq<EntryView>, k: int, e: EntryView)
    requires
        0 <= k < map.len(),
    ensures
        value_count(map.update(k, e)) == value_count(map) - map[k].values.len() + e.values.len(),
    decreases map.len(),
{
    let out = map.update(k, e);
    if k == map.len() - 1 {
        assert(out.drop_last() =~= map.drop_last());
    } else {
        assert(out.drop_last() =~= map.drop_last().update(k, e));
        lemma_count_updated(map.drop_last(), k, e);
    }
}

/// The view of a header has its name and its value, and the headers that give media types have those
/// names and the media types as they are written.
pub proof fn law_header_view(h: Header, m: MediaTypeView, list: Seq<QMediaTypeView>)
    ensures
        h@.name == h.name@,
        h@.value == h.value@,
        content_type_header(m).name == "Content-Type"@,
        content_type_header(m).value == rendered(m),
        accept_header(list).name == "Accept"@,
        accept_header(list).value == rendered_list(list),
{
}

/// What a change to one entry means for the lookup of any name.
proof fn lemma_changed(map: Seq<EntryView>, out: Seq<EntryView>, h: HeaderView, name: Seq<char>)
    requires
        well_formed(map),
        ({
            let k = if has_header(map, h.name) {
                header_index(map, h.name)
            } else {
                map.len() as int
            };
            &&& out.len() == if has_header(map, h.name) {
                map.len()
            } else {
                map.len() + 1
            }
            &&& forall|i: int| 0 <= i < map.len() && i != k ==> #[trigger] out[i] == map[i]
            &&& same_text(out[k].name, h.name)
            &&& out[k].values.len() > 0
        }),
    ensures
        well_formed(out),
        same_text(name, h.name) ==> has_header(out, name) && header_index(out, name) == if has_header(
            map,
            h.name,
        ) {
            header_index(map, h.name)
        } else {
            map.len() as int
        },
        !same_text(name, h.name) ==> {
            &&& has_header(out, name) == has_header(map, name)
            &&& has_header(map, name) ==> out[header_index(out, name)] == map[header_index(map, name)]
        },
{
    let k = if has_header(map, h.name) {
        header_index(map, h.name)
    } else {
        map.len() as int
    };
    assert(0 <= k < out.len());
    assert forall|i: int, j: int|
        #![trigger out[i], out[j]]
        0 <= i < j < out.len() implies !same_text(out[i].name, out[j].name) by {
        if i != k && j != k {
            assert(out[i] == map[i] && out[j] == map[j]);
        } else {
            let other = if i == k {
                j
            } else {
                i
            };
            assert(out[other] == map[other]);
            if same_text(map[other].name, h.name) {
                lemma_entry_unique(map, h.name, other);
            }
        }
    }
    assert forall|i: int| 0 <= i < out.len() implies (#[trigger] out[i]).values.len() > 0 by {
        if i != k {
            assert(out[i] == map[i]);
        }
    }
    if same_text(name, h.name) {
        lemma_entry_unique(out, name, k);
    } else {
        if has_header(map, name) {
            let i = header_index(map, name);
            assert(i != k);
            assert(out[i] == map[i]);
            lemma_entry_unique(out, name, i);
        }
        if has_header(out, name) {
            let i = header_index(out, name);
            assert(i != k);
            assert(out[i] == map[i]);
            lemma_entry_unique(map, name, i);
        }
    }
}

/// An ordered multimap of headers, keyed by name without regard to case.
#[derive(Debug)]
pub struct HeaderMap {
    entries: Vec<Entry>,
}

/// The views of the entries.
pub open spec fn entry_views(v: Seq<Entry>) -> Seq<EntryView> {
    Seq::new(v.len(), |i: int| v[i]@)
}

impl View for HeaderMap {
    type V = Seq<EntryView>;

    closed spec fn view(&self) -> Seq<EntryView> {
        entry_views(self.entries@)
    }
}

impl Clone for HeaderMap {
    fn clone(&self) -> (r: HeaderMap)
        ensures
            r@ == self@,
    {
        let mut entries: Vec<Entry> = Vec::new();
        let mut i: usize = 0;
        while i < self.entries.len()
            invariant
                i <= self.entries.len(),
                entries@.len() == i,
                forall|j: int| 0 <= j < i ==> #[trigger] entries@[j]@ == self.entries@[j]@,
            decreases self.entries.len() - i,
        {
            entries.push(self.entries[i].clone());
            i += 1;
        }
        assert(entry_views(entries@) =~= entry_views(self.entries@));
        HeaderMap { entries }
    }
}

impl HeaderMap {
    /// A map without headers.
    pub fn new() -> (r: HeaderMap)
        ensures
            r@ == Seq::<EntryView>::empty(),
            well_formed(r@),
    {
        let r = HeaderMap { entries: Vec::new() };
        assert(r@ =~= Seq::<EntryView>::empty());
        r
    }

    fn find(&self, name: &str) -> (r: Option<usize>)
        requires
            well_formed(self@),
        ensures
            match r {
                Some(i) => i < self@.len() && has_header(self@, name@) && header_index(
                    self@,
                    name@,
                ) == i && same_text(self@[i as int].name, name@),
                None => !has_header(self@, name@),
            },
    {
        let mut i: usize = 0;
        while i < self.entries.len()
            invariant
                i <= self.entries.len(),
                well_formed(self@),
                forall|j: int| 0 <= j < i ==> !same_text(#[trigger] self@[j].name, name@),
            decreases self.entries.len() - i,
        {
            assert(self@[i as int] == self.entries@[i as int]@);
            if eq_ignore_case(self.entries[i].name.as_str(), name) {
                proof {
                    lemma_entry_unique(self@, name@, i as int);
                }
                return Some(i);
            }
            i += 1;
        }
        None
    }

    /// Whether there is a value under the name.
    pub fn contains(&self, name: &str) -> (r: bool)
        requires
            well_formed(self@),
        ensures
            r == has_header(self@, name@),
    {
        self.find(name).is_some()
    }

    /// The oldest value under the name.
    pub fn get_one(&self, name: &str) -> (r: Option<&str>)
        requires
            well_formed(self@),
        ensures
            opt_str(r) == first_value(self@, name@),
    {
        match self.find(name) {
            Some(i) => {
                assert(self@[i as int] == self.entries@[i as int]@);
                assert(self@[i as int].values.len() > 0);
                Some(self.entries[i].values[0].as_str())
            },
            None => None,
        }
    }

    /// The number of values in the map, as far as a `usize` goes.
    pub fn len(&self) -> (r: usize)
        ensures
            r == if value_count(self@) <= usize::MAX {
                value_count(self@)
            } else {
                usize::MAX as nat
            },
    {
        let mut n: usize = 0;
        let mut i: usize = 0;
        assert(self@.take(0) =~= Seq::empty());
        while i < self.entries.len()
            invariant
                i <= self.entries.len(),
                n == value_count(self@.take(i as int)),
            decreases self.entries.len() - i,
        {
            proof {
                assert(self@.take(i + 1).drop_last() =~= self@.take(i as int));
                assert(self@[i as int] == self.entries@[i as int]@);
                lemma_count_grows(self@, i + 1);
            }
            let more: usize = self.entries[i].values.len();
            if more > usize::MAX - n {
                return usize::MAX;
            }
            n += more;
            i += 1;
        }
        assert(self@.take(i as int) =~= self@);
        n
    }

    /// Whether the map has no header.
    pub fn is_empty(&self) -> (r: bool)
        ensures
            r == (self@.len() == 0),
    {
        self.entries.len() == 0
    }

    /// Adds a value after those that its name has.
    pub fn add(&mut self, header: Header)
        requires
            well_formed(old(self)@),
        ensures
            final(self)@ == with_added(old(self)@, header@),
            well_formed(final(self)@),
    {
        let ghost before = self@;
        proof {
            law_added(before, header@, header@.name);
        }
        match self.find(header.name.as_str()) {
            Some(i) => {
                assert(self@[i as int] == self.entries@[i as int]@);
                let ghost old_entry = self.entries@[i as int];
                self.entries[i].values.push(header.value);
                assert(self.entries@[i as int]@.values =~= old_entry@.values.push(header@.value));
                assert(self@ =~= with_added(before, header@));
            },
            None => {
                let mut values: Vec<String> = Vec::new();
                values.push(header.value);
                assert(texts(values@) =~= seq![header@.value]);
                self.entries.push(Entry { name: header.name, values });
                assert(self@ =~= with_added(before, header@));
            },
        }
    }

    /// Makes the value the only one of its name.
    pub fn replace(&mut self, header: Header)
        requires
            well_formed(old(self)@),
        ensures
            final(self)@ == with_replaced(old(self)@, header@),
            well_formed(final(self)@),
    {
        let ghost before = self@;
        proof {
            law_replaced(before, header@, header@.name);
        }
        let found = self.find(header.name.as_str());
        let mut values: Vec<String> = Vec::new();
        values.push(header.value);
        assert(texts(values@) =~= seq![header@.value]);
        match found {
            Some(i) => {
                assert(self@[i as int] == self.entries@[i as int]@);
                self.entries[i].values = values;
                assert(self@ =~= with_replaced(before, header@));
            },
            None => {
                self.entries.push(Entry { name: header.name, values });
                assert(self@ =~= with_replaced(before, header@));
            },
        }
    }
}

proof fn lemma_count_grows(map: Seq<EntryView>, i: int)
    requires
        0 <= i <= map.len(),
    ensures
        value_count(map.take(i)) <= value_count(map),
    decreases map.len() - i,
{
    if i < map.len() {
        lemma_count_grows(map, i + 1);
        assert(map.take(i + 1).drop_last() =~= map.take(i));
    } else {
        assert(map.take(i) =~= map);
    }
}

} // verus!
