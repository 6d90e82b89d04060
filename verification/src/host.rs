//! The host that a request is for.
use vstd::prelude::*;
use vstd::utf8::{decode_utf8, encode_utf8, encode_utf8_decode_utf8, encode_utf8_valid_utf8};
use vstd::utf8::valid_utf8;
use crate::text::{chars_of, eq_ignore_case, same_text};

verus! {

/// A domain or address, and perhaps a port.
pub struct Host {
    domain: String,
    port: Option<u16>,
}

/// A host as text.
#[verifier::ext_equal]
pub struct HostView {
    pub domain: Seq<char>,
    pub port: Option<u16>,
}

impl View for Host {
    type V = HostView;

    closed spec fn view(&self) -> HostView {
        HostView { domain: self.domain@, port: self.port }
    }
}

impl Clone for Host {
    fn clone(&self) -> (r: Host)
        ensures
            r@ == self@,
    {
        Host { domain: self.domain.clone(), port: self.port }
    }
}

/// The characters of a registered name.
pub open spec fn is_name_char(c: char) -> bool {
    ||| 'a' <= c <= 'z'
    ||| 'A' <= c <= 'Z'
    ||| '0' <= c <= '9'
    ||| c == '-'
    ||| c == '.'
    ||| c == '_'
    ||| c == '~'
    ||| c == '%'
    ||| c == '!'
    ||| c == '$'
    ||| '&' <= c <= ','
    ||| c == ';'
    ||| c == '='
}

/// Whether all of `s` are characters of a registered name.
pub open spec fn is_name(s: Seq<char>) -> bool {
    forall|i: int| 0 <= i < s.len() ==> is_name_char(#[trigger] s[i])
}

/// Whether all of `s` are characters of a registered name, or colons.
pub open spec fn is_name_or_colon(s: Seq<char>) -> bool {
    forall|i: int| 0 <= i < s.len() ==> is_name_char(#[trigger] s[i]) || s[i] == ':'
}

/// Whether all of `s` are decimal digits.
pub open spec fn is_decimal(s: Seq<char>) -> bool {
    forall|i: int| 0 <= i < s.len() ==> '0' <= #[trigger] s[i] <= '9'
}

/// The number that decimal digits stand for.
pub open spec fn decimal_value(s: Seq<char>) -> int
    decreases s.len(),
{
    if s.len() == 0 {
        0
    } else {
        10 * decimal_value(s.drop_last()) + (s.last() as int - '0' as int)
    }
}

/// A port: one to five digits, for a number of 16 bits.
pub open spec fn port_of(s: Seq<char>) -> Option<u16> {
    if 1 <= s.len() <= 5 && is_decimal(s) && decimal_value(s) <= 0xffff {
        Some(decimal_value(s) as u16)
    } else {
        None
    }
}

/// Where the domain ends in `host:port`: after the closing bracket of an address in brackets, at
/// the first colon otherwise.
pub open spec fn domain_end(s: Seq<char>) -> int {
    if s.len() > 0 && s[0] == '[' {
        match s.index_of_first(']') {
            Some(i) => i + 1,
            None => s.len() as int,
        }
    } else {
        match s.index_of_first(':') {
            Some(i) => i,
            None => s.len() as int,
        }
    }
}

/// A domain: a registered name, or an address in brackets.
pub open spec fn is_domain(s: Seq<char>) -> bool {
    if s.len() > 0 && s[0] == '[' {
        s.len() > 2 && s.last() == ']' && is_name_or_colon(s.subrange(1, s.len() - 1))
    } else {
        s.len() > 0 && is_name(s)
    }
}

/// `host` or `host:port`.
pub open spec fn host_and_port(s: Seq<char>) -> Option<HostView> {
    let e = domain_end(s);
    let domain = s.take(e);
    if !is_domain(domain) {
        None
    } else if e == s.len() {
        Some(HostView { domain, port: None })
    } else if s[e] != ':' {
        None
    } else {
        match port_of(s.skip(e + 1)) {
            Some(port) => Some(HostView { domain, port: Some(port) }),
            None => None,
        }
    }
}

/// An authority, `host` or `host:port` after perhaps user information and an `@`. The user
/// information is dropped.
pub open spec fn host_of(s: Seq<char>) -> Option<HostView> {
    match s.index_of_first('@') {
        Some(i) => if is_name_or_colon(s.take(i)) {
            host_and_port(s.skip(i + 1))
        } else {
            None
        },
        None => host_and_port(s),
    }
}

/// The host that bytes are the authority of.
pub open spec fn host_of_bytes(bytes: Seq<u8>) -> Option<HostView> {
    if valid_utf8(bytes) {
        host_of(decode_utf8(bytes))
    } else {
        None
    }
}

/// The optional view of a host.
pub open spec fn opt_host(h: Option<Host>) -> Option<HostView> {
    match h {
        Some(x) => Some(x@),
        None => None,
    }
}

/// Whether two hosts are the same: domains compare without regard to case.
pub open spec fn same_host(a: HostView, b: HostView) -> bool {
    same_text(a.domain, b.domain) && a.port == b.port
}

/// The user information of an authority has no part in the host.
pub proof fn law_user_info_is_dropped(user: Seq<char>, rest: Seq<char>)
    requires
        is_name_or_colon(user),
        !rest.contains('@'),
    ensures
        host_of(user.push('@') + rest) == host_of(rest),
{
    let s = user.push('@') + rest;
    s.index_of_first_ensures('@');
    rest.index_of_first_ensures('@');
    assert(s[user.len() as int] == '@');
    let i = s.index_of_first('@')->0;
    if i < user.len() {
        assert(user[i] == '@');
        assert(is_name_char(user[i]) || user[i] == ':');
    }
    assert(i == user.len());
    assert(s.take(i) =~= user);
    assert(s.skip(i + 1) =~= rest);
}

/// With an `@` after anything but user information there is no host.
pub proof fn law_bad_user_info(user: Seq<char>, rest: Seq<char>)
    requires
        !user.contains('@'),
        !is_name_or_colon(user),
    ensures
        host_of(user.push('@') + rest) is None,
{
    let s = user.push('@') + rest;
    s.index_of_first_ensures('@');
    assert(s[user.len() as int] == '@');
    let i = s.index_of_first('@')->0;
    if i < user.len() {
        assert(user[i] == '@');
    }
    assert(s.take(i) =~= user);
}

/// The decimal digit of a number below ten.
pub open spec fn digit(n: int) -> char {
    seq!['0', '1', '2', '3', '4', '5', '6', '7', '8', '9'][n]
}

/// How a number is written in decimal, without needless zeros.
pub open spec fn decimal_text(n: int) -> Seq<char>
    decreases n,
{
    if n < 10 {
        seq![digit(n)]
    } else {
        decimal_text(n / 10).push(digit(n % 10))
    }
}

/// What a number is written with, and that it reads as the number.
pub proof fn lemma_decimal_text(n: int)
    requires
        0 <= n,
    ensures
        is_decimal(decimal_text(n)),
        decimal_value(decimal_text(n)) == n,
        decimal_text(n).len() >= 1,
        n > 0 ==> decimal_text(n)[0] != '0',
        n < 10 ==> decimal_text(n).len() == 1,
        10 <= n < 100 ==> decimal_text(n).len() == 2,
        100 <= n < 1000 ==> decimal_text(n).len() == 3,
        1000 <= n < 10000 ==> decimal_text(n).len() == 4,
        10000 <= n < 100000 ==> decimal_text(n).len() == 5,
        100000 <= n ==> decimal_text(n).len() >= 6,
    decreases n,
{
    let t = decimal_text(n);
    if n < 10 {
        assert(t.drop_last() =~= Seq::<char>::empty());
        assert(decimal_value(t.drop_last()) == 0);
        assert(t.last() == digit(n));
        assert('0' <= digit(n) <= '9' && digit(n) as int - '0' as int == n);
    } else {
        lemma_decimal_text(n / 10);
        assert(t.drop_last() =~= decimal_text(n / 10));
        assert(t.last() == digit(n % 10));
        assert('0' <= digit(n % 10) <= '9' && digit(n % 10) as int - '0' as int == n % 10);
        assert(t[0] == decimal_text(n / 10)[0]);
        assert forall|i: int| 0 <= i < t.len() implies '0' <= #[trigger] t[i] <= '9' by {
            if i < t.len() - 1 {
                assert(t[i] == decimal_text(n / 10)[i]);
            }
        }
    }
}

/// Decimal digits without needless zeros are how the number is written that they stand for.
pub proof fn lemma_decimal_is_unique(s: Seq<char>)
    requires
        s.len() >= 1,
        is_decimal(s),
        s.len() > 1 ==> s[0] != '0',
    ensures
        decimal_value(s) >= 0,
        s[0] != '0' ==> decimal_value(s) > 0,
        s == decimal_text(decimal_value(s)),
    decreases s.len(),
{
    let init = s.drop_last();
    let d = s.last() as int - '0' as int;
    assert('0' <= s[s.len() - 1] <= '9');
    assert(digit(d) == s.last());
    if s.len() == 1 {
        assert(decimal_value(init) == 0);
        assert(s =~= seq![digit(d)]);
    } else {
        assert forall|i: int| 0 <= i < init.len() implies '0' <= #[trigger] init[i] <= '9' by {
            assert(init[i] == s[i]);
        }
        assert(init[0] == s[0]);
        lemma_decimal_is_unique(init);
        let v = decimal_value(init);
        assert(decimal_value(s) == 10 * v + d);
        assert((10 * v + d) / 10 == v && (10 * v + d) % 10 == d);
        assert(s =~= init.push(s.last()));
    }
}

/// The characters of a registered name are the letters and digits of ASCII and a few signs.
pub proof fn law_name_char(c: char)
    ensures
        is_name_char(c) <==> ('a' <= c <= 'z') || ('A' <= c <= 'Z') || ('0' <= c <= '9') || c == '-' || c
            == '.' || c == '_' || c == '~' || c == '%' || c == '!' || c == '$' || c == '&' || c == '\''
            || c == '(' || c == ')' || c == '*' || c == '+' || c == ',' || c == ';' || c == '=',
{
}

/// A registered name, or an address in brackets, is a host by itself. With a colon and a number of 16
/// bits after it, the number is its port. A larger number makes it no host.
pub proof fn law_host(domain: Seq<char>, port: int)
    requires
        is_name(domain) && domain.len() > 0 || domain.len() > 2 && domain[0] == '[' && domain.last()
            == ']' && is_name_or_colon(domain.subrange(1, domain.len() - 1)),
        0 <= port,
    ensures
        host_of(domain) == Some(HostView { domain, port: None }),
        port <= 0xffff ==> host_of(domain.push(':') + decimal_text(port)) == Some(
            HostView { domain, port: Some(port as u16) },
        ),
        port > 0xffff ==> host_of(domain.push(':') + decimal_text(port)) is None,
        host_of(domain.push(':')) is None,
{
    let text = decimal_text(port);
    let s = domain.push(':') + text;
    let t = domain.push(':');
    lemma_decimal_text(port);
    assert(t =~= domain.push(':') + Seq::<char>::empty());
    lemma_no_at(domain);
    assert(!domain.contains('@'));
    assert(!s.contains('@')) by {
        if s.contains('@') {
            let i = choose|i: int| 0 <= i < s.len() && s[i] == '@';
            if i < domain.len() {
                assert(domain[i] == '@');
            } else if i > domain.len() {
                assert('0' <= text[i - domain.len() - 1] <= '9');
            }
        }
    }
    assert(!t.contains('@')) by {
        if t.contains('@') {
            let i = choose|i: int| 0 <= i < t.len() && t[i] == '@';
            assert(domain[i] == '@');
        }
    }
    domain.index_of_first_ensures('@');
    s.index_of_first_ensures('@');
    t.index_of_first_ensures('@');
    lemma_domain_end(domain, Seq::empty());
    lemma_domain_end(domain, s.skip(domain.len() as int));
    lemma_domain_end(domain, t.skip(domain.len() as int));
    assert(domain + Seq::<char>::empty() =~= domain);
    assert(domain + s.skip(domain.len() as int) =~= s);
    assert(domain + t.skip(domain.len() as int) =~= t);
    assert(domain.take(domain.len() as int) =~= domain);
    assert(s.take(domain.len() as int) =~= domain);
    assert(t.take(domain.len() as int) =~= domain);
    assert(s.skip(domain.len() as int + 1) =~= text);
    assert(t.skip(domain.len() as int + 1) =~= Seq::<char>::empty());
}

/// There is no `@` in a domain.
proof fn lemma_no_at(domain: Seq<char>)
    requires
        is_name(domain) && domain.len() > 0 || domain.len() > 2 && domain[0] == '[' && domain.last()
            == ']' && is_name_or_colon(domain.subrange(1, domain.len() - 1)),
    ensures
        !domain.contains('@'),
{
    if domain.contains('@') {
        let i = choose|i: int| 0 <= i < domain.len() && domain[i] == '@';
        if domain[0] == '[' && !is_name(domain) {
            let inside = domain.subrange(1, domain.len() - 1);
            if 0 < i < domain.len() - 1 {
                assert(inside[i - 1] == '@');
                assert(is_name_char(inside[i - 1]) || inside[i - 1] == ':');
            }
        } else {
            assert(is_name_char(domain[i]));
        }
    }
}

/// A domain ends where a colon follows it, or the end.
proof fn lemma_domain_end(domain: Seq<char>, rest: Seq<char>)
    requires
        is_name(domain) && domain.len() > 0 || domain.len() > 2 && domain[0] == '[' && domain.last()
            == ']' && is_name_or_colon(domain.subrange(1, domain.len() - 1)),
        rest.len() > 0 ==> rest[0] == ':',
    ensures
        domain_end(domain + rest) == domain.len(),
        is_domain(domain),
{
    let s = domain + rest;
    assert(s[0] == domain[0]);
    if domain[0] == '[' {
        if is_name(domain) {
            assert(is_name_char(domain[0]));
        }
        let inside = domain.subrange(1, domain.len() - 1);
        s.index_of_first_ensures(']');
        assert(s[domain.len() - 1] == ']');
        let i = s.index_of_first(']')->0;
        if i < domain.len() - 1 {
            assert(s[i] == inside[i - 1]);
            assert(is_name_char(inside[i - 1]) || inside[i - 1] == ':');
        }
    } else {
        s.index_of_first_ensures(':');
        if s.contains(':') {
            let i = s.index_of_first(':')->0;
            if i < domain.len() {
                assert(is_name_char(domain[i]));
            }
            if rest.len() > 0 {
                assert(s[domain.len() as int] == ':');
            }
        } else if rest.len() > 0 {
            assert(s[domain.len() as int] == ':');
        }
    }
}

/// Every host that was read has a registered name or an address in brackets for a domain.
pub proof fn law_read_host(s: Seq<char>)
    requires
        host_of(s) is Some,
    ensures
        ({
            let domain = (host_of(s)->0).domain;
            is_name(domain) && domain.len() > 0 || domain.len() > 2 && domain[0] == '['
                && domain.last() == ']' && is_name_or_colon(domain.subrange(1, domain.len() - 1))
        }),
{
}

/// What follows the colon after a domain has to be a port: one to five digits.
pub proof fn law_bad_port(domain: Seq<char>, port: Seq<char>)
    requires
        is_name(domain) && domain.len() > 0 || domain.len() > 2 && domain[0] == '[' && domain.last()
            == ']' && is_name_or_colon(domain.subrange(1, domain.len() - 1)),
        !port.contains('@'),
        port.len() == 0 || port.len() > 5 || !is_decimal(port),
    ensures
        host_of(domain.push(':') + port) is None,
{
    let s = domain.push(':') + port;
    lemma_no_at(domain);
    assert(!s.contains('@')) by {
        if s.contains('@') {
            let i = choose|i: int| 0 <= i < s.len() && s[i] == '@';
            if i < domain.len() {
                assert(domain[i] == '@');
            } else if i > domain.len() {
                assert(port[i - domain.len() - 1] == '@');
            }
        }
    }
    s.index_of_first_ensures('@');
    lemma_domain_end(domain, s.skip(domain.len() as int));
    assert(domain + s.skip(domain.len() as int) =~= s);
    assert(s.skip(domain.len() as int + 1) =~= port);
}

/// The bytes of a text are the authority that the text is, and bytes that are no text are none.
pub proof fn law_host_of_bytes(text: Seq<char>, bytes: Seq<u8>)
    ensures
        host_of_bytes(encode_utf8(text)) == host_of(text),
        !valid_utf8(bytes) ==> host_of_bytes(bytes) is None,
{
    encode_utf8_decode_utf8(text);
    encode_utf8_valid_utf8(text);
}

/// Hosts are the same if they have the same domain in any case, and the same port or none.
pub proof fn law_same_host(a: Seq<char>, b: Seq<char>, p: Option<u16>, q: Option<u16>)
    ensures
        same_host(HostView { domain: a, port: p }, HostView { domain: b, port: q }) <==> same_text(a, b)
            && p == q,
{
}

fn name_char(c: char) -> (r: bool)
    ensures
        r == is_name_char(c),
{
    ('a' <= c && c <= 'z') || ('A' <= c && c <= 'Z') || ('0' <= c && c <= '9') || c == '-' || c
        == '.' || c == '_' || c == '~' || c == '%' || c == '!' || c == '$' || ('&' <= c && c <= ',')
        || c == ';' || c == '='
}

/// Whether the characters from `from` to `to` are name characters, or colons where those count.
fn name_between(v: &Vec<char>, from: usize, to: usize, colons: bool) -> (r: bool)
    requires
        from <= to <= v.len(),
    ensures
        colons ==> r == is_name_or_colon(v@.subrange(from as int, to as int)),
        !colons ==> r == is_name(v@.subrange(from as int, to as int)),
{
    let ghost s = v@.subrange(from as int, to as int);
    let mut i: usize = from;
    while i < to
        invariant
            from <= i <= to <= v.len(),
            s == v@.subrange(from as int, to as int),
            forall|j: int|
                0 <= j < i - from ==> is_name_char(#[trigger] s[j]) || colons && s[j] == ':',
        decreases to - i,
    {
        assert(s[i - from] == v@[i as int]);
        if !name_char(v[i]) && !(colons && v[i] == ':') {
            return false;
        }
        i += 1;
    }
    true
}

/// The position of the first `c` from `from` on, or the length.
fn find_from(v: &Vec<char>, from: usize, c: char) -> (r: usize)
    requires
        from <= v.len(),
    ensures
        from <= r <= v.len(),
        forall|j: int| from <= j < r ==> v@[j] != c,
        r < v.len() ==> v@[r as int] == c,
{
    let mut i: usize = from;
    while i < v.len() && v[i] != c
        invariant
            from <= i <= v.len(),
            forall|j: int| from <= j < i ==> v@[j] != c,
        decreases v.len() - i,
    {
        i += 1;
    }
    i
}

fn parse_port(v: &Vec<char>, from: usize) -> (r: Option<u16>)
    requires
        from <= v.len(),
    ensures
        r == port_of(v@.skip(from as int)),
{
    let ghost s = v@.skip(from as int);
    if v.len() - from < 1 || v.len() - from > 5 {
        return None;
    }
    let mut n: u32 = 0;
    let mut i: usize = from;
    assert(s.take(0) =~= Seq::empty());
    while i < v.len()
        invariant
            from <= i <= v.len(),
            1 <= v.len() - from <= 5,
            s == v@.skip(from as int),
            n == decimal_value(s.take(i - from)),
            i - from == 0 ==> n == 0,
            i - from == 1 ==> n <= 9,
            i - from == 2 ==> n <= 99,
            i - from == 3 ==> n <= 999,
            i - from == 4 ==> n <= 9999,
            i - from == 5 ==> n <= 99999,
            forall|j: int| 0 <= j < i - from ==> '0' <= #[trigger] s[j] <= '9',
        decreases v.len() - i,
    {
        assert(s[i - from] == v@[i as int]);
        if v[i] < '0' || v[i] > '9' {
            assert(!is_decimal(s));
            return None;
        }
        assert(s.take(i - from + 1).drop_last() =~= s.take(i - from));
        n = 10 * n + (v[i] as u32 - 48);
        i += 1;
    }
    assert(s.take(i - from) =~= s);
    if n <= 0xffff {
        Some(n as u16)
    } else {
        None
    }
}

/// Where the domain that starts at `start` ends.
fn find_domain_end(v: &Vec<char>, start: usize) -> (r: usize)
    requires
        start <= v.len(),
    ensures
        start <= r <= v.len(),
        r - start == domain_end(v@.skip(start as int)),
{
    let ghost s = v@.skip(start as int);
    let bracket = start < v.len() && v[start] == '[';
    let c = if bracket {
        ']'
    } else {
        ':'
    };
    let k = find_from(v, start, c);
    proof {
        s.index_of_first_ensures(c);
        if k < v.len() {
            assert(s[k - start] == c);
            assert(s.index_of_first(c) == Some(k - start));
        } else if s.contains(c) {
            let j = choose|j: int| 0 <= j < s.len() && s[j] == c;
            assert(v@[start + j] == c);
        }
    }
    if bracket && k < v.len() {
        k + 1
    } else {
        k
    }
}

fn domain_between(v: &Vec<char>, start: usize, end: usize) -> (r: bool)
    requires
        start <= end <= v.len(),
    ensures
        r == is_domain(v@.subrange(start as int, end as int)),
{
    let ghost domain = v@.subrange(start as int, end as int);
    if start < end && v[start] == '[' {
        assert(domain.last() == v@[end - 1]);
        if end - start <= 2 || v[end - 1] != ']' {
            return false;
        }
        assert(domain.subrange(1, domain.len() - 1) =~= v@.subrange(start + 1, end - 1));
        name_between(v, start + 1, end - 1, true)
    } else {
        start < end && name_between(v, start, end, false)
    }
}

fn parse_host_and_port(text: &str, v: &Vec<char>, start: usize) -> (r: Option<Host>)
    requires
        v@ == text@,
        start <= v.len(),
    ensures
        opt_host(r) == host_and_port(text@.skip(start as int)),
{
    let ghost s = text@.skip(start as int);
    let end = find_domain_end(v, start);
    assert(s.take(end - start) =~= text@.subrange(start as int, end as int));
    if !domain_between(v, start, end) {
        return None;
    }
    let domain = text.substring_char(start, end);
    if end == v.len() {
        return Some(Host::new(domain, None));
    }
    assert(s[end - start] == v@[end as int]);
    if v[end] != ':' {
        return None;
    }
    assert(s.skip(end - start + 1) =~= v@.skip(end + 1));
    match parse_port(v, end + 1) {
        Some(port) => Some(Host::new(domain, Some(port))),
        None => None,
    }
}

impl Host {
    /// A host with this domain and port.
    pub fn new(domain: &str, port: Option<u16>) -> (r: Host)
        ensures
            r@ == (HostView { domain: domain@, port }),
    {
        Host { domain: domain.to_owned(), port }
    }

    /// The domain or address.
    pub fn domain(&self) -> (r: &str)
        ensures
            r@ == self@.domain,
    {
        self.domain.as_str()
    }

    /// The port.
    pub fn port(&self) -> (r: Option<u16>)
        ensures
            r == self@.port,
    {
        self.port
    }

    /// Whether both are the same host.
    pub fn is_same(&self, other: &Host) -> (r: bool)
        ensures
            r == same_host(self@, other@),
    {
        let ports = match (self.port, other.port) {
            (Some(a), Some(b)) => a == b,
            (None, None) => true,
            _ => false,
        };
        ports && eq_ignore_case(self.domain.as_str(), other.domain.as_str())
    }

    /// Reads a whole text as an authority.
    pub fn parse(text: &str) -> (r: Option<Host>)
        ensures
            opt_host(r) == host_of(text@),
    {
        let v = chars_of(text);
        let at = find_from(&v, 0, '@');
        proof {
            text@.index_of_first_ensures('@');
        }
        if at < v.len() {
            assert(text@.index_of_first('@') == Some(at as int));
            assert(text@.take(at as int) =~= text@.subrange(0, at as int));
            if !name_between(&v, 0, at, true) {
                return None;
            }
            parse_host_and_port(text, &v, at + 1)
        } else {
            assert(!text@.contains('@'));
            assert(text@.skip(0) =~= text@);
            parse_host_and_port(text, &v, 0)
        }
    }

    /// Reads bytes as an authority.
    pub fn parse_bytes(bytes: &[u8]) -> (r: Option<Host>)
        ensures
            opt_host(r) == host_of_bytes(bytes@),
    {
        match core::str::from_utf8(bytes) {
            Ok(text) => Host::parse(text),
            Err(_) => None,
        }
    }
}

} // verus!
