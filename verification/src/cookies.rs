//! The cookies of a request.
use vstd::prelude::*;
use vstd::utf8::{encode_utf8, is_ascii_chars};
use crate::encoding::{is_escape, is_escaped, law_escaped_text_reads, law_plain_text_stays};
use crate::encoding::strictly_decoded;
use crate::text::{after, before, eq_text, is_white_space, law_parted, law_trimmed, opt_str};
use crate::text::trimmed;

verus! {

/// A cookie as a client sends it.
#[derive(Debug)]
pub struct Cookie {
    pub name: String,
    pub value: String,
}

/// The name and value that `name=value` stands for: both trimmed and percent-decoded. There has
/// to be a `=`, a name that is not empty, and UTF-8 on both sides once decoded.
pub open spec fn cookie_of(text: Seq<char>) -> Option<(Seq<char>, Seq<char>)> {
    let name = trimmed(before(text, '='));
    let value = trimmed(after(text, '='));
    if !text.contains('=') || name.len() == 0 {
        None
    } else {
        match (strictly_decoded(name), strictly_decoded(value)) {
            (Some(n), Some(v)) => Some((n, v)),
            _ => None,
        }
    }
}

/// `cookie::Cookie::parse_encoded`, on a text without attributes: the name and value come from
/// the two sides of the first `=`, trimmed and percent-decoded. It fails where there is no `=`,
/// where the name is empty, and where what was decoded is not UTF-8.
#[verifier::external_body]
fn parse_encoded(text: &str) -> (r: Option<(String, String)>)
    requires
        !text@.contains(';'),
    ensures
        match r {
            Some((n, v)) => cookie_of(text@) == Some((n@, v@)),
            None => cookie_of(text@) is None,
        },
{
    match cookie::Cookie::parse_encoded(text) {
        Ok(c) => Some((c.name().to_string(), c.value().to_string())),
        Err(_) => None,
    }
}

/// Whether a text has no white space at its ends, and is ASCII without percent signs.
pub open spec fn is_plain(s: Seq<char>) -> bool {
    &&& is_ascii_chars(s)
    &&& !s.contains('%')
    &&& s.len() > 0 ==> !is_white_space(s[0]) && !is_white_space(s.last())
}

/// A name and a value with a `=` between them are a cookie, as they stand where nothing in them is
/// encoded. White space round the `=` and at the ends makes no difference.
pub proof fn law_cookie(name: Seq<char>, value: Seq<char>, space: Seq<char>)
    requires
        is_plain(name),
        is_plain(value),
        name.len() > 0,
        !name.contains('='),
        forall|i: int| 0 <= i < space.len() ==> #[trigger] space[i] == ' ',
    ensures
        cookie_of(name.push('=') + value) == Some((name, value)),
        cookie_of((space + name + space).push('=') + (space + value + space)) == Some((name, value)),
{
    let none = Seq::<char>::empty();
    law_plain_text_stays(name);
    law_plain_text_stays(value);
    law_parted(name, value, '=');
    law_trimmed(none, name, none);
    law_trimmed(none, value, none);
    assert(none + name + none =~= name);
    assert(none + value + none =~= value);
    let wide = space + name + space;
    assert(!wide.contains('=')) by {
        if wide.contains('=') {
            let i = choose|i: int| 0 <= i < wide.len() && wide[i] == '=';
            if i < space.len() {
                assert(space[i] == ' ');
            } else if i < space.len() + name.len() {
                assert(name[i - space.len()] == '=');
            } else {
                assert(space[i - space.len() - name.len()] == ' ');
            }
        }
    }
    law_parted(wide, space + value + space, '=');
    law_trimmed(space, name, space);
    law_trimmed(space, value, space);
}

/// The name and the value of a cookie may be percent-encoded, byte for byte.
pub proof fn law_encoded_cookie(name: Seq<char>, value: Seq<char>, s: Seq<char>, t: Seq<char>)
    requires
        is_escaped(s, encode_utf8(name)),
        is_escaped(t, encode_utf8(value)),
        s.len() > 0,
    ensures
        cookie_of(s.push('=') + t) == Some((name, value)),
{
    let none = Seq::<char>::empty();
    law_escaped_text_reads(name, s);
    law_escaped_text_reads(value, t);
    lemma_escaped_plain(s, encode_utf8(name));
    lemma_escaped_plain(t, encode_utf8(value));
    law_parted(s, t, '=');
    law_trimmed(none, s, none);
    law_trimmed(none, t, none);
    assert(none + s + none =~= s);
    assert(none + t + none =~= t);
}

/// What escaped bytes are written with.
proof fn lemma_escaped_plain(s: Seq<char>, bytes: Seq<u8>)
    requires
        is_escaped(s, bytes),
    ensures
        !s.contains('='),
        s.len() > 0 ==> !is_white_space(s[0]) && !is_white_space(s.last()),
{
    assert forall|i: int| 0 <= i < s.len() implies s[i] != '=' && !is_white_space(s[i]) by {
        let k = i / 3;
        let b = bytes[k];
        let e = s.subrange(3 * k, 3 * k + 3);
        assert(0 <= k < bytes.len());
        assert(is_escape(e, b));
        assert(e[0] == s[3 * k] && e[1] == s[3 * k + 1] && e[2] == s[3 * k + 2]);
        assert(i == 3 * k || i == 3 * k + 1 || i == 3 * k + 2);
        assert(s[i] as u32 <= 0x7f);
    }
}

/// A text without a `=`, or with nothing but white space before it, is no cookie.
pub proof fn law_no_cookie(s: Seq<char>, space: Seq<char>, value: Seq<char>)
    requires
        forall|i: int| 0 <= i < space.len() ==> #[trigger] space[i] == ' ',
    ensures
        !s.contains('=') ==> cookie_of(s) is None,
        cookie_of(space.push('=') + value) is None,
{
    let none = Seq::<char>::empty();
    if space.contains('=') {
        let i = choose|i: int| 0 <= i < space.len() && space[i] == '=';
        assert(space[i] == ' ');
    }
    law_parted(space, value, '=');
    law_trimmed(space, none, none);
    assert(space + none + none =~= space);
}

impl Cookie {
    /// A cookie with this name and value.
    pub fn new(name: &str, value: &str) -> (r: Cookie)
        ensures
            r.name@ == name@,
            r.value@ == value@,
    {
        Cookie { name: name.to_owned(), value: value.to_owned() }
    }

    /// Reads `name=value`, both percent-encoded.
    pub fn parse_encoded(text: &str) -> (r: Option<Cookie>)
        requires
            !text@.contains(';'),
        ensures
            match r {
                Some(c) => cookie_of(text@) == Some((c.name@, c.value@)),
                None => cookie_of(text@) is None,
            },
    {
        match parse_encoded(text) {
            Some((name, value)) => Some(Cookie { name, value }),
            None => None,
        }
    }
}

/// Whether an item of the list has the name.
pub open spec fn listed(items: Seq<Cookie>, name: Seq<char>) -> bool {
    exists|i: int| 0 <= i < items.len() && #[trigger] items[i].name@ == name
}

/// Where the item with the name is.
pub open spec fn listed_at(items: Seq<Cookie>, name: Seq<char>) -> int {
    choose|i: int| 0 <= i < items.len() && #[trigger] items[i].name@ == name
}

/// No name occurs twice.
pub open spec fn distinct(items: Seq<Cookie>) -> bool {
    forall|i: int, j: int|
        #![trigger items[i], items[j]]
        0 <= i < j < items.len() ==> items[i].name@ != items[j].name@
}

/// The cookies of a list by name.
pub open spec fn by_name(items: Seq<Cookie>) -> Map<Seq<char>, Seq<char>> {
    Map::new(|n: Seq<char>| listed(items, n), |n: Seq<char>| items[listed_at(items, n)].value@)
}

/// Cookies by name.
#[derive(Debug)]
pub struct CookieSet {
    items: Vec<Cookie>,
}

impl View for CookieSet {
    type V = Map<Seq<char>, Seq<char>>;

    closed spec fn view(&self) -> Map<Seq<char>, Seq<char>> {
        by_name(self.items@)
    }
}

proof fn lemma_listed_at(items: Seq<Cookie>, i: int)
    requires
        distinct(items),
        0 <= i < items.len(),
    ensures
        listed(items, items[i].name@),
        listed_at(items, items[i].name@) == i,
{
    let k = listed_at(items, items[i].name@);
    assert(items[k].name@ == items[i].name@);
    if k < i {
        assert(items[k].name@ != items[i].name@);
    } else if i < k {
        assert(items[i].name@ != items[k].name@);
    }
}

impl Clone for CookieSet {
    fn clone(&self) -> (r: CookieSet)
        ensures
            r@ == self@,
            self.well_formed() ==> r.well_formed(),
    {
        let mut items: Vec<Cookie> = Vec::new();
        let mut i: usize = 0;
        while i < self.items.len()
            invariant
                i <= self.items.len(),
                items@ == self.items@.take(i as int),
            decreases self.items.len() - i,
        {
            items.push(
                Cookie { name: self.items[i].name.clone(), value: self.items[i].value.clone() },
            );
            i += 1;
        }
        assert(items@ =~= self.items@);
        CookieSet { items }
    }
}

impl CookieSet {
    /// No name occurs twice.
    pub closed spec fn well_formed(&self) -> bool {
        distinct(self.items@)
    }

    /// No cookies.
    pub fn new() -> (r: CookieSet)
        ensures
            r@ == Map::<Seq<char>, Seq<char>>::empty(),
            r.well_formed(),
    {
        let r = CookieSet { items: Vec::new() };
        assert(r@ =~= Map::empty());
        r
    }

    fn find(&self, name: &str) -> (r: Option<usize>)
        requires
            self.well_formed(),
        ensures
            match r {
                Some(i) => i < self.items@.len() && self.items@[i as int].name@ == name@
                    && self@.contains_key(name@) && self@[name@] == self.items@[i as int].value@,
                None => !self@.contains_key(name@),
            },
    {
        let mut i: usize = 0;
        while i < self.items.len()
            invariant
                i <= self.items.len(),
                self.well_formed(),
                forall|j: int| 0 <= j < i ==> #[trigger] self.items@[j].name@ != name@,
            decreases self.items.len() - i,
        {
            if eq_text(self.items[i].name.as_str(), name) {
                proof {
                    lemma_listed_at(self.items@, i as int);
                }
                return Some(i);
            }
            i += 1;
        }
        None
    }

    /// The value under the name.
    pub fn get(&self, name: &str) -> (r: Option<&str>)
        requires
            self.well_formed(),
        ensures
            opt_str(r) == if self@.contains_key(name@) {
                Some(self@[name@])
            } else {
                None
            },
    {
        match self.find(name) {
            Some(i) => Some(self.items[i].value.as_str()),
            None => None,
        }
    }

    /// Makes the cookie the one of its name.
    pub fn insert(&mut self, cookie: Cookie)
        requires
            old(self).well_formed(),
        ensures
            final(self).well_formed(),
            final(self)@ == old(self)@.insert(cookie.name@, cookie.value@),
    {
        let ghost before = self.items@;
        let ghost name = cookie.name@;
        let ghost value = cookie.value@;
        match self.find(cookie.name.as_str()) {
            Some(i) => {
                self.items[i].value = cookie.value;
                assert(self.items@.len() == before.len());
                assert forall|j: int| 0 <= j < before.len() implies #[trigger] self.items@[j].name@
                    == before[j].name@ by {}
                assert(distinct(self.items@)) by {
                    assert forall|a: int, b: int|
                        #![trigger self.items@[a], self.items@[b]]
                        0 <= a < b < self.items@.len() implies self.items@[a].name@
                        != self.items@[b].name@ by {
                        assert(before[a].name@ != before[b].name@);
                    }
                }
                proof {
                    lemma_inserted(before, self.items@, i as int, name, value);
                }
            },
            None => {
                self.items.push(cookie);
                assert(distinct(self.items@)) by {
                    assert forall|a: int, b: int|
                        #![trigger self.items@[a], self.items@[b]]
                        0 <= a < b < self.items@.len() implies self.items@[a].name@
                        != self.items@[b].name@ by {
                        assert(self.items@[a] == before[a]);
                        if b < before.len() {
                            assert(before[a].name@ != before[b].name@);
                        } else if before[a].name@ == name {
                            assert(listed(before, name));
                        }
                    }
                }
                proof {
                    lemma_inserted(before, self.items@, before.len() as int, name, value);
                }
            },
        }
    }
}

/// Changing or adding the item at `k` inserts its name.
proof fn lemma_inserted(
    before: Seq<Cookie>,
    now: Seq<Cookie>,
    k: int,
    name: Seq<char>,
    value: Seq<char>,
)
    requires
        distinct(before),
        distinct(now),
        0 <= k < now.len(),
        now.len() == before.len() || (now.len() == before.len() + 1 && k == before.len()),
        forall|j: int| 0 <= j < before.len() && j != k ==> #[trigger] now[j] == before[j],
        k < before.len() ==> before[k].name@ == name,
        k == before.len() ==> !listed(before, name),
        now[k].name@ == name,
        now[k].value@ == value,
    ensures
        by_name(now) == by_name(before).insert(name, value),
{
    let want = by_name(before).insert(name, value);
    assert forall|n: Seq<char>| by_name(now).contains_key(n) <==> want.contains_key(n) by {
        if listed(now, n) {
            let i = listed_at(now, n);
            if i != k {
                assert(before[i].name@ == n);
            }
        }
        if listed(before, n) {
            let i = listed_at(before, n);
            if i != k {
                assert(now[i].name@ == n);
            } else {
                assert(now[k].name@ == n);
            }
        }
        assert(now[k].name@ == name);
    }
    assert forall|n: Seq<char>| by_name(now).contains_key(n) implies by_name(now)[n] == want[n] by {
        let i = listed_at(now, n);
        lemma_listed_at(now, i);
        if i == k {
            assert(n == name);
        } else {
            assert(before[i] == now[i]);
            lemma_listed_at(before, i);
            if n == name {
                lemma_listed_at(now, k);
            }
        }
    }
    assert(by_name(now) =~= want);
}

/// What a jar holds.
#[verifier::ext_equal]
pub struct JarView {
    /// The cookies that came with the request.
    pub originals: Map<Seq<char>, Seq<char>>,
    /// The cookies that were added since.
    pub pending: Map<Seq<char>, Seq<char>>,
    /// Whether the request is likely to have come over a secure connection.
    pub secure: bool,
}

/// The cookies of a request and those that were added to it.
#[derive(Debug)]
pub struct CookieJar {
    originals: CookieSet,
    pending: CookieSet,
    secure: bool,
}

impl View for CookieJar {
    type V = JarView;

    closed spec fn view(&self) -> JarView {
        JarView { originals: self.originals@, pending: self.pending@, secure: self.secure }
    }
}

impl Clone for CookieJar {
    fn clone(&self) -> (r: CookieJar)
        ensures
            r@ == self@,
            self.well_formed() ==> r.well_formed(),
    {
        CookieJar {
            originals: self.originals.clone(),
            pending: self.pending.clone(),
            secure: self.secure,
        }
    }
}

/// A jar without cookies.
pub open spec fn empty_jar(secure: bool) -> JarView {
    JarView { originals: Map::empty(), pending: Map::empty(), secure }
}

/// A cookie that came with the request is found under its name, and nothing else is. A cookie that was
/// added since goes before it where that counts.
pub proof fn law_jar(jar: CookieJar, name: &str, got: Option<&str>, pending: Option<&str>)
    requires
        jar.well_formed(),
        call_ensures(CookieJar::get, (&jar, name), got),
        call_ensures(CookieJar::get_pending, (&jar, name), pending),
    ensures
        got is Some <==> jar@.originals.contains_key(name@),
        got is Some ==> (got->0)@ == jar@.originals[name@],
        jar@.pending.contains_key(name@) ==> pending is Some && (pending->0)@ == jar@.pending[name@],
        !jar@.pending.contains_key(name@) ==> opt_str(pending) == opt_str(got),
{
}

impl CookieJar {
    /// No name occurs twice among the original cookies, nor among the pending ones.
    pub closed spec fn well_formed(&self) -> bool {
        self.originals.well_formed() && self.pending.well_formed()
    }

    /// A jar without cookies.
    pub(crate) fn new(secure: bool) -> (r: CookieJar)
        ensures
            r@ == empty_jar(secure),
            r.well_formed(),
    {
        CookieJar { originals: CookieSet::new(), pending: CookieSet::new(), secure }
    }

    /// Puts in a cookie that came with the request, in place of an earlier one of its name.
    pub fn add_original(&mut self, cookie: Cookie)
        requires
            old(self).well_formed(),
        ensures
            final(self).well_formed(),
            final(self)@ == (JarView {
                originals: old(self)@.originals.insert(cookie.name@, cookie.value@),
                ..old(self)@
            }),
    {
        self.originals.insert(cookie);
    }

    /// Adds a cookie.
    pub fn add(&mut self, cookie: Cookie)
        requires
            old(self).well_formed(),
        ensures
            final(self).well_formed(),
            final(self)@ == (JarView {
                pending: old(self)@.pending.insert(cookie.name@, cookie.value@),
                ..old(self)@
            }),
    {
        self.pending.insert(cookie);
    }

    /// The value of the cookie that came with the request under the name.
    pub fn get(&self, name: &str) -> (r: Option<&str>)
        requires
            self.well_formed(),
        ensures
            opt_str(r) == if self@.originals.contains_key(name@) {
                Some(self@.originals[name@])
            } else {
                None
            },
    {
        self.originals.get(name)
    }

    /// The value of the cookie that was added under the name, or else came with the request.
    pub fn get_pending(&self, name: &str) -> (r: Option<&str>)
        requires
            self.well_formed(),
        ensures
            opt_str(r) == if self@.pending.contains_key(name@) {
                Some(self@.pending[name@])
            } else if self@.originals.contains_key(name@) {
                Some(self@.originals[name@])
            } else {
                None
            },
    {
        match self.pending.get(name) {
            Some(value) => Some(value),
            None => self.originals.get(name),
        }
    }

    /// Whether the request is likely to have come over a secure connection.
    pub fn is_secure(&self) -> (r: bool)
        ensures
            r == self@.secure,
    {
        self.secure
    }

    /// Sets whether the request is likely to have come over a secure connection.
    pub(crate) fn set_secure(&mut self, secure: bool)
        requires
            old(self).well_formed(),
        ensures
            final(self).well_formed(),
            final(self)@ == (JarView { secure, ..old(self)@ }),
    {
        self.secure = secure;
    }
}

} // verus!
