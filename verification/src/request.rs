//! The request.
use vstd::prelude::*;
use vstd::utf8::{decode_utf8, valid_utf8};
use crate::accept::{preferred_type, Accept};
use crate::cells::{accept_held, accept_in, accept_or_init};
use crate::cells::{clone_accept_cell, clone_content_type_cell, content_type_held, content_type_in};
use crate::cells::{content_type_or_init, found_in, load_route, new_accept_cell, new_cache};
use crate::cells::{new_content_type_cell, new_route_place, opt_accept, opt_content_type, opt_route};
use crate::cells::{kept_accept, kept_content_type, put_into, read_accept, read_content_type};
use crate::cells::{route_held, share_cache, store_route, LocalCache};
use crate::connection::{endpoint_ip, ConnectionMeta, Endpoint};
use crate::cookies::{cookie_of, empty_jar, Cookie, CookieJar, JarView};
use crate::error::{error_views, ErrorView, RequestError};
use crate::form::{field_of, field_views, form_result, key_of, shifted_field, FieldView, FromForm};
use crate::form::{FromParam, FromSegments, Options, ValueField};
use crate::header::{first_value, header_values, law_added, law_replaced, well_formed, with_added};
use crate::header::{with_replaced, EntryView, Header, HeaderMap, HeaderView};
use crate::host::{host_of_bytes, opt_host, Host, HostView};
use crate::ip::{ip_of, opt_ip, IpAddr, IpView};
use crate::media_type::{any_type, opt_type, ContentType, MediaType, MediaTypeView};
use crate::method::{body_allowed, host_in_header, method_of, names_host_in_header};
use crate::method::{HttpVersion, Method};
use crate::proxy::{proto_of, ProxyProto, ProxyProtoView};
use crate::rocket::{Limits, Rocket, Route};
use crate::text::{eq_ignore_case, eq_text, folded, law_split_joins, opt_str, same_text, split};
use crate::text::{split_text, texts, trim, trim_end, trim_start, trimmed};
use crate::uri::{path_segments, query_pairs, Origin, OriginView, Segments};
use crate::wire::{head_view, raw_views, read_head, PartsView, RawHeader, RawHeaderView};
use crate::wire::RequestParts;

verus! {

/// What is derived from a request, and what it is handled with.
pub struct RequestState<'r> {
    rocket: &'r Rocket,
    route: ref_swap::OptionRefSwap<'r, Route>,
    cookies: CookieJar,
    accept: state::InitCell<Option<Accept>>,
    content_type: state::InitCell<Option<ContentType>>,
    cache: LocalCache,
    host: Option<Host>,
}

/// An incoming request, without its body.
pub struct Request<'r> {
    method: Method,
    uri: Origin,
    headers: HeaderMap,
    version: Option<HttpVersion>,
    errors: Vec<RequestError>,
    connection: ConnectionMeta,
    state: RequestState<'r>,
}

/// What a request says, with its texts taken out of their containers.
#[verifier::ext_equal]
pub struct RequestView {
    pub method: Method,
    pub uri: OriginView,
    pub headers: Seq<EntryView>,
    pub version: Option<HttpVersion>,
    pub errors: Seq<ErrorView>,
    pub connection: ConnectionMeta,
    pub rocket: Rocket,
    pub route: Option<Route>,
    pub cookies: JarView,
    pub cache: LocalCache,
    pub host: Option<HostView>,
}

impl<'r> View for Request<'r> {
    type V = RequestView;

    closed spec fn view(&self) -> RequestView {
        RequestView {
            method: self.method,
            uri: self.uri@,
            headers: self.headers@,
            version: self.version,
            errors: error_views(self.errors@),
            connection: self.connection,
            rocket: *self.state.rocket,
            route: route_held(self.state.route),
            cookies: self.state.cookies@,
            cache: self.state.cache,
            host: opt_host(self.state.host),
        }
    }
}

/// Whether a header of this name tells the protocol that a client of a proxy used.
pub open spec fn tells_proto(rocket: Rocket, name: Seq<char>) -> bool {
    rocket.config.proxy_proto_header matches Some(p) && same_text(name, p@)
}

/// Whether a header is a sign that the connection is secure.
pub open spec fn is_secure_sign(rocket: Rocket, h: HeaderView) -> bool {
    tells_proto(rocket, h.name) && proto_of(h.value) is Https
}

/// The request with the given answer to the question whether its connection is likely secure.
pub open spec fn with_secure(v: RequestView, secure: bool) -> RequestView {
    RequestView { cookies: JarView { secure, ..v.cookies }, ..v }
}

/// The request that is ready for a header to be added, or to replace those of its name. One that is
/// added counts as a sign; what one that replaces others says counts once it has done so.
pub open spec fn busted(v: RequestView, h: HeaderView, replace: bool) -> RequestView {
    if replace {
        v
    } else {
        with_secure(v, v.cookies.secure || is_secure_sign(v.rocket, h))
    }
}

/// The request with a header more. A sign that its connection is secure counts.
pub open spec fn with_header(v: RequestView, h: HeaderView) -> RequestView {
    RequestView {
        headers: with_added(v.headers, h),
        ..with_secure(v, v.cookies.secure || is_secure_sign(v.rocket, h))
    }
}

/// The request with a header in place of those of its name. If they tell the protocol, the new one
/// takes back what the others said.
pub open spec fn with_header_replaced(v: RequestView, h: HeaderView) -> RequestView {
    RequestView {
        headers: with_replaced(v.headers, h),
        ..with_secure(
            v,
            if tells_proto(v.rocket, h.name) {
                v.rocket.tls_enabled || proto_of(h.value) is Https
            } else {
                v.cookies.secure
            },
        )
    }
}

/// Every sign that the connection is secure has been noted: that the application serves over TLS,
/// and that a proxy says so.
pub open spec fn signs_noted(v: RequestView) -> bool {
    &&& v.rocket.tls_enabled ==> v.cookies.secure
    &&& forall|name: Seq<char>, i: int|
        #![trigger header_values(v.headers, name)[i]]
        tells_proto(v.rocket, name) && 0 <= i < header_values(v.headers, name).len() && proto_of(
            header_values(v.headers, name)[i],
        ) is Https ==> v.cookies.secure
}

impl<'r> Request<'r> {
    /// What holds of every request: its parts are well-formed, a cell that is set holds what the
    /// headers give, and every sign that the connection is secure has been noted.
    pub closed spec fn valid(&self) -> bool {
        &&& self.uri.well_formed()
        &&& well_formed(self.headers@)
        &&& self.state.cookies.well_formed()
        &&& content_type_held(self.state.content_type) matches Some(c) ==> opt_content_type(c)
            == content_type_in(self.headers@)
        &&& accept_held(self.state.accept) matches Some(a) ==> opt_accept(a) == accept_in(
            self.headers@,
        )
        &&& signs_noted(self@)
    }

    /// A valid request has well-formed headers, and every sign is noted in it.
    pub proof fn lemma_valid(self)
        requires
            self.valid(),
        ensures
            well_formed(self@.headers),
            signs_noted(self@),
    {
    }

    /// A request with the given method and URI, and nothing else yet.
    pub fn new(
        rocket: &'r Rocket,
        method: Method,
        uri: Origin,
        version: Option<HttpVersion>,
    ) -> (r: Request<'r>)
        requires
            uri.well_formed(),
        ensures
            r.valid(),
            r@.method == method,
            r@.uri == uri@,
            r@.headers == Seq::<EntryView>::empty(),
            r@.version == version,
            r@.errors == Seq::<ErrorView>::empty(),
            r@.connection.peer_endpoint is None,
            r@.connection.peer_certs is None,
            r@.rocket == *rocket,
            r@.route is None,
            r@.cookies == empty_jar(rocket.tls_enabled),
            r@.host is None,
    {
        let r = Request {
            uri,
            method,
            headers: HeaderMap::new(),
            version,
            errors: Vec::new(),
            connection: ConnectionMeta::default(),
            state: RequestState {
                rocket,
                route: new_route_place(None),
                cookies: CookieJar::new(rocket.tls_enabled),
                accept: new_accept_cell(),
                content_type: new_content_type_cell(),
                cache: new_cache(),
                host: None,
            },
        };
        assert(error_views(r.errors@) =~= Seq::<ErrorView>::empty());
        r
    }

    /// Whether the content type is kept in its cell.
    pub closed spec fn keeps_content_type(&self) -> bool {
        content_type_held(self.state.content_type) is Some
    }

    /// Whether the accepted media types are kept in their cell.
    pub closed spec fn keeps_accept(&self) -> bool {
        accept_held(self.state.accept) is Some
    }

    /// Forgets what is kept of the header that is about to be added or to replace others, where
    /// that is no longer right, and notes whether one that is added is a sign that the connection is
    /// secure.
    pub(crate) fn bust_header_cache(&mut self, header: &Header, replace: bool)
        requires
            old(self).valid(),
        ensures
            final(self).valid(),
            final(self)@ == busted(old(self)@, header@, replace),
            same_text(header@.name, "Content-Type"@) && final(self).keeps_content_type() ==> !replace
                && content_type_in(old(self)@.headers) is Some,
            same_text(header@.name, "Accept"@) && final(self).keeps_accept() ==> !replace
                && accept_in(old(self)@.headers) is Some,
    {
        proof {
            lemma_names_differ();
        }
        if eq_ignore_case(header.name(), "Content-Type") {
            if self.content_type().is_none() || replace {
                self.state.content_type = new_content_type_cell();
            }
        } else if eq_ignore_case(header.name(), "Accept") {
            if self.accept().is_none() || replace {
                self.state.accept = new_accept_cell();
            }
        }
        if !replace && self.is_told_by(header) && !self.state.cookies.is_secure() {
            self.state.cookies.set_secure(ProxyProto::parse(header.value()).is_https());
        }
    }

    /// Whether the header is the one that is configured for the protocol.
    fn is_told_by(&self, header: &Header) -> (r: bool)
        ensures
            r == tells_proto(self@.rocket, header@.name),
    {
        match &self.state.rocket.config.proxy_proto_header {
            Some(name) => eq_ignore_case(header.name(), name.as_str()),
            None => false,
        }
    }

    /// The content type, from the first `Content-Type` header.
    pub fn content_type(&mut self) -> (r: Option<&ContentType>)
        requires
            old(self).valid(),
        ensures
            final(self).valid(),
            final(self)@ == old(self)@,
            (match r {
                Some(c) => Some(c@),
                None => None,
            }) == content_type_in(old(self)@.headers),
    {
        content_type_or_init(&mut self.state.content_type, &self.headers).as_ref()
    }

    /// The accepted media types, from the first `Accept` header.
    pub fn accept(&mut self) -> (r: Option<&Accept>)
        requires
            old(self).valid(),
        ensures
            final(self).valid(),
            final(self)@ == old(self)@,
            (match r {
                Some(a) => Some(a@),
                None => None,
            }) == accept_in(old(self)@.headers),
    {
        accept_or_init(&mut self.state.accept, &self.headers).as_ref()
    }

    /// Adds what `header` turns into as a header.
    pub fn add_header<H: Into<Header>>(&mut self, header: H)
        requires
            old(self).valid(),
        ensures
            final(self).valid(),
            exists|h: Header| #[trigger]
                call_ensures(<H as Into<Header>>::into, (header,), h) && final(self)@
                    == with_header(old(self)@, h@),
    {
        let header = header.into();
        let ghost before = self@;
        let ghost h = header@;
        self.bust_header_cache(&header, false);
        proof {
            law_added(before.headers, h, "Content-Type"@);
            law_added(before.headers, h, "Accept"@);
        }
        self.headers.add(header);
        proof {
            lemma_signs_kept(before, h, false);
        }
    }

    /// Puts what `header` turns into in place of the headers of its name.
    pub fn replace_header<H: Into<Header>>(&mut self, header: H)
        requires
            old(self).valid(),
        ensures
            final(self).valid(),
            exists|h: Header| #[trigger]
                call_ensures(<H as Into<Header>>::into, (header,), h) && final(self)@
                    == with_header_replaced(old(self)@, h@),
    {
        let header = header.into();
        let ghost before = self@;
        let ghost h = header@;
        self.bust_header_cache(&header, true);
        proof {
            law_replaced(before.headers, h, "Content-Type"@);
            law_replaced(before.headers, h, "Accept"@);
        }
        if self.is_told_by(&header) {
            let https = ProxyProto::parse(header.value()).is_https();
            self.headers.replace(header);
            self.state.cookies.set_secure(self.state.rocket.tls_enabled || https);
        } else {
            self.headers.replace(header);
        }
        proof {
            lemma_signs_kept(before, h, true);
        }
    }
}

/// The two headers that have cells have different names.
proof fn lemma_names_differ()
    ensures
        !same_text("Content-Type"@, "Accept"@),
{
    reveal_strlit("Content-Type");
    reveal_strlit("Accept");
    assert(folded("Content-Type"@).len() == 12);
    assert(folded("Accept"@).len() == 6);
}

/// Adding or replacing a header keeps every sign noted.
proof fn lemma_signs_kept(v: RequestView, h: HeaderView, replace: bool)
    requires
        well_formed(v.headers),
        signs_noted(v),
    ensures
        replace ==> signs_noted(with_header_replaced(v, h)),
        !replace ==> signs_noted(with_header(v, h)),
{
    let out = if replace {
        with_header_replaced(v, h)
    } else {
        with_header(v, h)
    };
    assert forall|name: Seq<char>, i: int|
        #![trigger header_values(out.headers, name)[i]]
        tells_proto(v.rocket, name) && 0 <= i < header_values(out.headers, name).len() && proto_of(
            header_values(out.headers, name)[i],
        ) is Https implies out.cookies.secure by {
        if replace {
            law_replaced(v.headers, h, name);
        } else {
            law_added(v.headers, h, name);
        }
        let values = header_values(v.headers, name);
        if same_text(name, h.name) {
            if !replace && i < values.len() {
                assert(header_values(out.headers, name)[i] == values[i]);
            } else {
                assert(header_values(out.headers, name)[i] == h.value);
                assert(tells_proto(v.rocket, h.name));
            }
        } else {
            assert(header_values(out.headers, name)[i] == values[i]);
        }
    }
}

/// The value of the first raw header of the name.
pub open spec fn first_raw(headers: Seq<RawHeaderView>, name: Seq<char>) -> Option<Seq<u8>>
    decreases headers.len(),
{
    if headers.len() == 0 {
        None
    } else if same_text(headers[0].name, name) {
        Some(headers[0].value)
    } else {
        first_raw(headers.skip(1), name)
    }
}

/// The host that a request is for: before version 2 the one that the `Host` header names, from then
/// on the one in the authority of the URI.
pub open spec fn host_in(p: PartsView) -> Option<HostView> {
    if names_host_in_header(p.version) {
        match first_raw(p.headers, "host"@) {
            Some(bytes) => host_of_bytes(bytes),
            None => None,
        }
    } else {
        match p.authority_host {
            Some(domain) => Some(HostView { domain, port: p.authority_port }),
            None => None,
        }
    }
}

/// The texts that may be cookies in the value of a `Cookie` header: what stands between its
/// semicolons, trimmed. There are none if the value is not UTF-8.
pub open spec fn cookie_texts(value: Seq<u8>) -> Seq<Seq<char>> {
    if valid_utf8(value) {
        let pieces = split(decode_utf8(value), ';');
        Seq::new(pieces.len(), |i: int| trimmed(pieces[i]))
    } else {
        Seq::empty()
    }
}

/// Cookies by name, after those that the texts are have been put in, in their order.
pub open spec fn with_cookie_texts(
    jar: Map<Seq<char>, Seq<char>>,
    cookies: Seq<Seq<char>>,
) -> Map<Seq<char>, Seq<char>>
    decreases cookies.len(),
{
    if cookies.len() == 0 {
        jar
    } else {
        let init = with_cookie_texts(jar, cookies.drop_last());
        match cookie_of(cookies.last()) {
            Some((name, value)) => init.insert(name, value),
            None => init,
        }
    }
}

/// The cookies in raw headers by name: a later one takes the place of an earlier one.
pub open spec fn cookies_in(headers: Seq<RawHeaderView>) -> Map<Seq<char>, Seq<char>>
    decreases headers.len(),
{
    if headers.len() == 0 {
        Map::empty()
    } else {
        let init = cookies_in(headers.drop_last());
        if same_text(headers.last().name, "Cookie"@) {
            with_cookie_texts(init, cookie_texts(headers.last().value))
        } else {
            init
        }
    }
}

/// The request after the raw headers have been added in their order, without those whose value is
/// not UTF-8.
pub open spec fn with_raw_headers(v: RequestView, headers: Seq<RawHeaderView>) -> RequestView
    decreases headers.len(),
{
    if headers.len() == 0 {
        v
    } else {
        let init = with_raw_headers(v, headers.drop_last());
        let h = headers.last();
        if valid_utf8(h.value) {
            with_header(init, HeaderView { name: h.name, value: decode_utf8(h.value) })
        } else {
            init
        }
    }
}

/// What is wrong with the head of a request.
pub open spec fn errors_in(p: PartsView) -> Seq<ErrorView> {
    (if method_of(p.method) is None {
        seq![ErrorView::BadMethod(p.method)]
    } else {
        Seq::empty()
    }) + (if p.path_and_query is None {
        seq![ErrorView::InvalidUri(p.uri)]
    } else {
        Seq::empty()
    })
}

/// The request that a head describes, without its headers. What is wrong in the head is made up for:
/// an unknown method by `GET`, a missing path by `/`.
pub open spec fn described_bare(
    rocket: Rocket,
    p: PartsView,
    connection: ConnectionMeta,
    cache: LocalCache,
) -> RequestView {
    RequestView {
        method: match method_of(p.method) {
            Some(m) => m,
            None => Method::Get,
        },
        uri: match p.path_and_query {
            Some((path, query)) => OriginView { path, query },
            None => OriginView { path: seq!['/'], query: None },
        },
        headers: Seq::empty(),
        version: p.version,
        errors: errors_in(p),
        connection,
        rocket,
        route: None,
        cookies: JarView { originals: cookies_in(p.headers), ..empty_jar(rocket.tls_enabled) },
        cache,
        host: host_in(p),
    }
}

/// Whether `v` is the request that the head describes. Which cache it has is left open.
pub open spec fn is_described(
    v: RequestView,
    rocket: Rocket,
    p: PartsView,
    connection: ConnectionMeta,
) -> bool {
    v == with_raw_headers(described_bare(rocket, p, connection, v.cache), p.headers)
}

/// Adding headers changes nothing but the headers and what is noted of the connection.
pub proof fn lemma_raw_headers_frame(v: RequestView, headers: Seq<RawHeaderView>)
    ensures
        ({
            let w = with_raw_headers(v, headers);
            w == (RequestView {
                headers: w.headers,
                cookies: JarView { secure: w.cookies.secure, ..v.cookies },
                ..v
            })
        }),
    decreases headers.len(),
{
    if headers.len() > 0 {
        lemma_raw_headers_frame(v, headers.drop_last());
    }
}

/// A character that is not in a text is not in the trimmed text.
proof fn lemma_trimmed_lacks(s: Seq<char>, c: char)
    requires
        !s.contains(c),
    ensures
        !trim_start(s).contains(c),
        !trim_end(s).contains(c),
    decreases s.len(),
{
    if s.len() > 0 {
        assert(!s.skip(1).contains(c)) by {
            if s.skip(1).contains(c) {
                let i = choose|i: int| 0 <= i < s.skip(1).len() && s.skip(1)[i] == c;
                assert(s[i + 1] == c);
            }
        }
        assert(!s.drop_last().contains(c)) by {
            if s.drop_last().contains(c) {
                let i = choose|i: int| 0 <= i < s.drop_last().len() && s.drop_last()[i] == c;
                assert(s[i] == c);
            }
        }
        lemma_trimmed_lacks(s.skip(1), c);
        lemma_trimmed_lacks(s.drop_last(), c);
    }
}

/// Puts the cookies of one `Cookie` header into a jar.
fn add_cookies(jar: &mut CookieJar, value: &[u8])
    requires
        old(jar).well_formed(),
    ensures
        final(jar).well_formed(),
        final(jar)@ == (JarView {
            originals: with_cookie_texts(old(jar)@.originals, cookie_texts(value@)),
            ..old(jar)@
        }),
{
    let text = match core::str::from_utf8(value) {
        Ok(text) => text,
        Err(_) => {
            return ;
        },
    };
    let ghost before = jar@;
    let ghost want = cookie_texts(value@);
    let pieces = split_text(text, ';');
    let mut i: usize = 0;
    assert(want.take(0) =~= Seq::empty());
    assert(texts(pieces@).len() == pieces@.len());
    while i < pieces.len()
        invariant
            i <= pieces.len(),
            jar.well_formed(),
            texts(pieces@) == split(text@, ';'),
            want.len() == pieces@.len(),
            forall|j: int| 0 <= j < want.len() ==> #[trigger] want[j] == trimmed(pieces@[j]@),
            jar@ == (JarView {
                originals: with_cookie_texts(before.originals, want.take(i as int)),
                ..before
            }),
        decreases pieces.len() - i,
    {
        let piece = trim(pieces[i].as_str());
        proof {
            law_split_joins(text@, ';');
            assert(texts(pieces@)[i as int] == pieces@[i as int]@);
            lemma_trimmed_lacks(pieces@[i as int]@, ';');
            lemma_trimmed_lacks(trim_start(pieces@[i as int]@), ';');
            assert(want.take(i + 1).drop_last() =~= want.take(i as int));
            assert(want.take(i + 1).last() == piece@);
        }
        if let Some(cookie) = Cookie::parse_encoded(piece) {
            jar.add_original(cookie);
        }
        i += 1;
    }
    assert(want.take(i as int) =~= want);
}

/// The value of the first raw header of the name.
fn find_raw<'a>(headers: &'a Vec<RawHeader>, name: &str) -> (r: Option<&'a Vec<u8>>)
    ensures
        (match r {
            Some(v) => Some(v@),
            None => None,
        }) == first_raw(raw_views(headers@), name@),
{
    let ghost all = raw_views(headers@);
    let mut i: usize = 0;
    assert(all.skip(0) =~= all);
    while i < headers.len()
        invariant
            i <= headers.len(),
            all == raw_views(headers@),
            first_raw(all, name@) == first_raw(all.skip(i as int), name@),
        decreases headers.len() - i,
    {
        assert(all.skip(i as int)[0] == headers@[i as int]@);
        assert(all.skip(i as int).skip(1) =~= all.skip(i + 1));
        if eq_ignore_case(headers[i].name.as_str(), name) {
            return Some(&headers[i].value);
        }
        i += 1;
    }
    None
}

impl<'r> Request<'r> {
    /// The request that a head describes, received by `connection`. It comes back as an error if
    /// something in the head is wrong, with what that is noted in it.
    pub fn from_parts(rocket: &'r Rocket, parts: &RequestParts, connection: ConnectionMeta) -> (r:
        Result<Request<'r>, Request<'r>>)
        ensures
            match r {
                Ok(request) => errors_in(parts@).len() == 0 && request.valid() && is_described(
                    request@,
                    *rocket,
                    parts@,
                    connection,
                ),
                Err(request) => errors_in(parts@).len() > 0 && request.valid() && is_described(
                    request@,
                    *rocket,
                    parts@,
                    connection,
                ),
            },
    {
        let mut errors: Vec<RequestError> = Vec::new();
        let method = match Method::parse(parts.method.as_str()) {
            Some(method) => method,
            None => {
                errors.push(RequestError::BadMethod(parts.method.clone()));
                Method::Get
            },
        };
        let uri = match &parts.path_and_query {
            Some(p) => match &p.query {
                Some(q) => Origin::new(p.path.as_str(), Some(q.as_str())),
                None => Origin::new(p.path.as_str(), None),
            },
            None => {
                errors.push(RequestError::InvalidUri(parts.uri.clone()));
                Origin::root()
            },
        };
        assert(error_views(errors@) =~= errors_in(parts@));

        let mut request = Request::new(rocket, method, uri, parts.version);
        request.errors = errors;
        request.connection = connection;
        request.state.host =
        if host_in_header(parts.version) {
            match find_raw(&parts.headers, "host") {
                Some(value) => Host::parse_bytes(value.as_slice()),
                None => None,
            }
        } else {
            match &parts.authority_host {
                Some(domain) => Some(Host::new(domain.as_str(), parts.authority_port)),
                None => None,
            }
        };
        assert(request@.host == host_in(parts@));

        let ghost all = raw_views(parts.headers@);
        let ghost start = request@;
        let mut i: usize = 0;
        assert(all.take(0) =~= Seq::empty());
        while i < parts.headers.len()
            invariant
                i <= parts.headers.len(),
                all == raw_views(parts.headers@),
                request.valid(),
                start.headers == Seq::<EntryView>::empty(),
                start.cookies == empty_jar(rocket.tls_enabled),
                request@ == (RequestView {
                    cookies: JarView {
                        originals: cookies_in(all.take(i as int)),
                        ..start.cookies
                    },
                    ..start
                }),
            decreases parts.headers.len() - i,
        {
            proof {
                assert(all[i as int] == parts.headers@[i as int]@);
                assert(all.take(i + 1).drop_last() =~= all.take(i as int));
            }
            if eq_ignore_case(parts.headers[i].name.as_str(), "Cookie") {
                add_cookies(&mut request.state.cookies, parts.headers[i].value.as_slice());
            }
            i += 1;
        }
        assert(all.take(i as int) =~= all);

        let ghost base = request@;
        let mut k: usize = 0;
        while k < parts.headers.len()
            invariant
                k <= parts.headers.len(),
                all == raw_views(parts.headers@),
                request.valid(),
                request@ == with_raw_headers(base, all.take(k as int)),
            decreases parts.headers.len() - k,
        {
            proof {
                assert(all[k as int] == parts.headers@[k as int]@);
                assert(all.take(k + 1).drop_last() =~= all.take(k as int));
            }
            if let Ok(value) = core::str::from_utf8(parts.headers[k].value.as_slice()) {
                request.add_header(Header::new(parts.headers[k].name.as_str(), value));
            }
            k += 1;
        }
        proof {
            assert(all.take(k as int) =~= all);
            lemma_raw_headers_frame(base, all);
            assert(is_described(request@, *rocket, parts@, connection));
            assert(error_views(request.errors@) == errors_in(parts@));
        }
        if request.errors.len() == 0 {
            Ok(request)
        } else {
            Err(request)
        }
    }

    /// The request that a head describes as the HTTP implementation hands it over.
    pub fn from_hyp(
        rocket: &'r Rocket,
        hyper: &hyper::http::request::Parts,
        connection: ConnectionMeta,
    ) -> (r: Result<Request<'r>, Request<'r>>)
        ensures
            match r {
                Ok(request) => errors_in(head_view(*hyper)).len() == 0 && request.valid()
                    && is_described(request@, *rocket, head_view(*hyper), connection),
                Err(request) => errors_in(head_view(*hyper)).len() > 0 && request.valid()
                    && is_described(request@, *rocket, head_view(*hyper), connection),
            },
    {
        let parts = read_head(hyper);
        Request::from_parts(rocket, &parts, connection)
    }
}

/// A range from a number on.
#[verifier::external_type_specification]
#[verifier::reject_recursive_types(Idx)]
pub struct ExRangeFrom<Idx>(core::ops::RangeFrom<Idx>);

/// The address in the header that is configured for it, if there is one and it is an address.
pub open spec fn real_ip_of(v: RequestView) -> Option<IpView> {
    match v.rocket.config.ip_header {
        Some(name) => match first_value(v.headers, name@) {
            Some(text) => ip_of(text),
            None => None,
        },
        None => None,
    }
}

/// The address of the client: the one in the configured header, or else that of the connection.
pub open spec fn client_ip_of(v: RequestView) -> Option<IpView> {
    match real_ip_of(v) {
        Some(ip) => Some(ip),
        None => match v.connection.peer_endpoint {
            Some(e) => opt_ip(endpoint_ip(e)),
            None => None,
        },
    }
}

/// What the header that is configured for it says about the protocol, if there is one.
pub open spec fn proxy_proto_of(v: RequestView) -> Option<ProxyProtoView> {
    match v.rocket.config.proxy_proto_header {
        Some(name) => match first_value(v.headers, name@) {
            Some(text) => Some(proto_of(text)),
            None => None,
        },
        None => None,
    }
}

/// The media type that counts as the format of a request. With a method that always has a body it is
/// the content type, if there is one; with any other the preferred one of the accepted ones, or
/// `*/*`.
pub open spec fn format_of(v: RequestView) -> Option<MediaTypeView> {
    if body_allowed(v.method) == Some(true) {
        content_type_in(v.headers)
    } else {
        match accept_in(v.headers) {
            Some(list) => Some(preferred_type(list)),
            None => Some(any_type()),
        }
    }
}

/// The number of segments before those that a route sees.
pub open spec fn mount_len(v: RequestView) -> int {
    match v.route {
        Some(route) => route.base_len as int,
        None => 0,
    }
}

/// The segments from the `n`th on after the mount point.
pub open spec fn routed_from(v: RequestView, n: int) -> Seq<Seq<char>> {
    let all = path_segments(v.uri.path);
    if mount_len(v) + n <= all.len() {
        all.skip(mount_len(v) + n)
    } else {
        Seq::empty()
    }
}

/// The fields of the query.
pub open spec fn fields_of(v: RequestView) -> Seq<FieldView> {
    let pairs = query_pairs(v.uri.query);
    Seq::new(pairs.len(), |i: int| field_of(pairs[i]))
}

/// The fields whose first key is the name, in their order, with the next key looked at.
pub open spec fn fields_under(fields: Seq<FieldView>, name: Seq<char>) -> Seq<FieldView>
    decreases fields.len(),
{
    if fields.len() == 0 {
        Seq::empty()
    } else {
        let init = fields_under(fields.drop_last(), name);
        if key_of(fields.last().name) == name {
            init.push(shifted_field(fields.last()))
        } else {
            init
        }
    }
}

impl<'r> Clone for RequestState<'r> {
    fn clone(&self) -> (r: RequestState<'r>)
        ensures
            r.same_as(self),
    {
        let host = match &self.host {
            Some(h) => Some(h.clone()),
            None => None,
        };
        RequestState {
            rocket: self.rocket,
            route: new_route_place(load_route(&self.route)),
            cookies: self.cookies.clone(),
            accept: clone_accept_cell(&self.accept),
            content_type: clone_content_type_cell(&self.content_type),
            cache: share_cache(&self.cache),
            host,
        }
    }
}

impl<'r> RequestState<'r> {
    /// Whether both states say the same: they are for the same application, share their cache, and
    /// hold the same in their cells.
    pub closed spec fn same_as(&self, other: &RequestState<'r>) -> bool {
        &&& self.rocket == other.rocket
        &&& route_held(self.route) == route_held(other.route)
        &&& self.cookies@ == other.cookies@
        &&& other.cookies.well_formed() ==> self.cookies.well_formed()
        &&& match accept_held(other.accept) {
            Some(a) => accept_held(self.accept) is Some && opt_accept(accept_held(self.accept)->0)
                == opt_accept(a),
            None => accept_held(self.accept) is None,
        }
        &&& match content_type_held(other.content_type) {
            Some(c) => content_type_held(self.content_type) is Some && opt_content_type(
                content_type_held(self.content_type)->0,
            ) == opt_content_type(c),
            None => content_type_held(self.content_type) is None,
        }
        &&& self.cache == other.cache
        &&& opt_host(self.host) == opt_host(other.host)
    }
}

impl<'r> Clone for Request<'r> {
    fn clone(&self) -> (r: Request<'r>)
        ensures
            r@ == self@,
            self.valid() ==> r.valid(),
    {
        let mut errors: Vec<RequestError> = Vec::new();
        let mut i: usize = 0;
        while i < self.errors.len()
            invariant
                i <= self.errors.len(),
                errors@ == self.errors@.take(i as int),
            decreases self.errors.len() - i,
        {
            errors.push(self.errors[i].clone());
            i += 1;
        }
        assert(errors@ =~= self.errors@);
        let r = Request {
            method: self.method,
            uri: self.uri.clone(),
            headers: self.headers.clone(),
            version: self.version,
            errors,
            connection: self.connection.clone(),
            state: self.state.clone(),
        };
        assert(r@ =~= self@);
        r
    }
}

/// What to do about a value that may be cached.
pub enum CacheStep<'a, T> {
    /// It is there.
    Found(&'a T),
    /// This one has to be cached.
    Store(T),
}

/// Decides about a value that may be cached: one that is there is taken, and only if none is there
/// one is made.
pub fn cache_step<'a, T, F: FnOnce() -> T>(cached: Option<&'a T>, f: F) -> (r: CacheStep<'a, T>)
    requires
        cached is None ==> f.requires(()),
    ensures
        match cached {
            Some(v) => r == CacheStep::Found(v),
            None => r is Store && f.ensures((), r->Store_0),
        },
{
    match cached {
        Some(v) => CacheStep::Found(v),
        None => CacheStep::Store(f()),
    }
}

/// Whether `r` can come of looking for a value in the cache and, only if there is none, making one
/// with `f` and putting that into the cache: `r` is the value that was found, or else the one that
/// is there after the made one was put in, which is the made one if it was stored.
pub open spec fn cached_or_made<T: Send + Sync + 'static, F: FnOnce() -> T>(
    cache: LocalCache,
    f: F,
    r: &T,
) -> bool {
    exists|found: Option<&T>|
        {
            &&& #[trigger] found_in(cache, found)
            &&& match found {
                Some(value) => *r == *value,
                None => exists|made: T, reply: (bool, &T)|
                    {
                        &&& f.ensures((), made)
                        &&& #[trigger] put_into(cache, made, reply)
                        &&& reply.0 ==> *reply.1 == made
                        &&& *r == *reply.1
                    },
            }
        }
}

impl<'r> Request<'r> {
    /// The protocol version, where it is known.
    pub fn version(&self) -> (r: Option<HttpVersion>)
        ensures
            r == self@.version,
    {
        self.version
    }

    /// The method.
    pub fn method(&self) -> (r: Method)
        ensures
            r == self@.method,
    {
        self.method
    }

    /// Sets the method.
    pub fn set_method(&mut self, method: Method)
        requires
            old(self).valid(),
        ensures
            final(self).valid(),
            final(self)@ == (RequestView { method, ..old(self)@ }),
    {
        self.method = method;
    }

    /// The URI.
    pub fn uri(&self) -> (r: &Origin)
        requires
            self.valid(),
        ensures
            r@ == self@.uri,
            r.well_formed(),
    {
        &self.uri
    }

    /// Sets the URI.
    pub fn set_uri(&mut self, uri: Origin)
        requires
            old(self).valid(),
            uri.well_formed(),
        ensures
            final(self).valid(),
            final(self)@ == (RequestView { uri: uri@, ..old(self)@ }),
    {
        self.uri = uri;
    }

    /// The host that the request is for. Headers that are added later do not change it.
    pub fn host(&self) -> (r: Option<&Host>)
        ensures
            (match r {
                Some(h) => Some(h@),
                None => None,
            }) == self@.host,
    {
        self.state.host.as_ref()
    }

    /// Sets the host.
    pub fn set_host(&mut self, host: Host)
        requires
            old(self).valid(),
        ensures
            final(self).valid(),
            final(self)@ == (RequestView { host: Some(host@), ..old(self)@ }),
    {
        self.state.host = Some(host);
    }

    /// The endpoint that the connection comes from, which may be a proxy.
    pub fn remote(&self) -> (r: Option<&Endpoint>)
        ensures
            (match r {
                Some(e) => Some(*e),
                None => None,
            }) == self@.connection.peer_endpoint,
    {
        self.connection.peer_endpoint.as_ref()
    }

    /// Sets the endpoint that the connection comes from.
    pub fn set_remote(&mut self, endpoint: Endpoint)
        requires
            old(self).valid(),
        ensures
            final(self).valid(),
            final(self)@ == (RequestView {
                connection: ConnectionMeta {
                    peer_endpoint: Some(endpoint),
                    ..old(self)@.connection
                },
                ..old(self)@
            }),
    {
        self.connection.peer_endpoint = Some(endpoint);
    }

    /// The address in the header that is configured for it.
    pub fn real_ip(&self) -> (r: Option<IpAddr>)
        requires
            self.valid(),
        ensures
            opt_ip(r) == real_ip_of(self@),
    {
        match &self.state.rocket.config.ip_header {
            Some(name) => match self.headers.get_one(name.as_str()) {
                Some(text) => IpAddr::parse(text),
                None => None,
            },
            None => None,
        }
    }

    /// What the header that is configured for it says about the protocol.
    pub fn proxy_proto(&self) -> (r: Option<ProxyProto>)
        requires
            self.valid(),
        ensures
            (match r {
                Some(p) => Some(p@),
                None => None,
            }) == proxy_proto_of(self@),
    {
        match &self.state.rocket.config.proxy_proto_header {
            Some(name) => match self.headers.get_one(name.as_str()) {
                Some(text) => Some(ProxyProto::parse(text)),
                None => None,
            },
            None => None,
        }
    }

    /// Whether the request is likely to have come over a secure connection.
    pub fn context_is_likely_secure(&self) -> (r: bool)
        ensures
            r == self@.cookies.secure,
    {
        self.state.cookies.is_secure()
    }

    /// The address of the client.
    pub fn client_ip(&self) -> (r: Option<IpAddr>)
        requires
            self.valid(),
        ensures
            opt_ip(r) == client_ip_of(self@),
    {
        match self.real_ip() {
            Some(ip) => Some(ip),
            None => match self.remote() {
                Some(endpoint) => endpoint.ip(),
                None => None,
            },
        }
    }

    /// The cookies.
    pub fn cookies(&self) -> (r: &CookieJar)
        requires
            self.valid(),
        ensures
            r@ == self@.cookies,
            r.well_formed(),
    {
        &self.state.cookies
    }

    /// The cookies, to change them.
    pub fn cookies_mut(&mut self) -> (r: &mut CookieJar)
        requires
            old(self).valid(),
        ensures
            r@ == old(self)@.cookies,
            r.well_formed(),
            final(self)@ == (RequestView { cookies: final(r)@, ..old(self)@ }),
            final(r).well_formed() && (old(self)@.cookies.secure ==> final(r)@.secure)
                ==> final(self).valid(),
    {
        &mut self.state.cookies
    }

    /// The headers.
    pub fn headers(&self) -> (r: &HeaderMap)
        requires
            self.valid(),
        ensures
            r@ == self@.headers,
            well_formed(r@),
    {
        &self.headers
    }

    /// The media type that counts as the format of the request. It is read from the headers where it
    /// is not kept in a cell yet.
    pub fn format(&self) -> (r: Option<MediaType>)
        requires
            self.valid(),
        ensures
            opt_type(r) == format_of(self@),
    {
        let always = match self.method.allows_request_body() {
            Some(allowed) => allowed,
            None => false,
        };
        if always {
            match kept_content_type(&self.state.content_type) {
                Some(Some(content_type)) => Some(content_type.media_type().clone()),
                Some(None) => None,
                None => match read_content_type(&self.headers) {
                    Some(content_type) => Some(content_type.media_type),
                    None => None,
                },
            }
        } else {
            match kept_accept(&self.state.accept) {
                Some(Some(accept)) => Some(accept.preferred()),
                Some(None) => Some(MediaType::any()),
                None => match read_accept(&self.headers) {
                    Some(accept) => Some(accept.preferred()),
                    None => Some(MediaType::any()),
                },
            }
        }
    }

    /// The application that handles the request.
    pub fn rocket(&self) -> (r: &'r Rocket)
        ensures
            *r == self@.rocket,
    {
        self.state.rocket
    }

    /// How much data the application accepts.
    pub fn limits(&self) -> (r: &'r Limits)
        ensures
            *r == self@.rocket.config.limits,
    {
        &self.rocket().config().limits
    }

    /// The route that the request is matched with at present.
    pub fn route(&self) -> (r: Option<&'r Route>)
        ensures
            opt_route(r) == self@.route,
    {
        load_route(&self.state.route)
    }

    /// Matches the request with a route.
    pub fn set_route(&mut self, route: &'r Route)
        requires
            old(self).valid(),
        ensures
            final(self).valid(),
            final(self)@ == (RequestView { route: Some(*route), ..old(self)@ }),
    {
        store_route(&mut self.state.route, Some(route));
    }

    /// Sets the method, while the request is being routed.
    pub fn _set_method(&mut self, method: Method)
        requires
            old(self).valid(),
        ensures
            final(self).valid(),
            final(self)@ == (RequestView { method, ..old(self)@ }),
    {
        self.method = method;
    }

    /// What is wrong with the head that the request came with.
    pub fn errors(&self) -> (r: &Vec<RequestError>)
        ensures
            error_views(r@) == self@.errors,
    {
        &self.errors
    }

    /// The value of type `T` that is cached for the request, if there is one: what a lookup in its
    /// cache gives. Which value that is depends on all the handles to the cache, and is left unsaid.
    pub fn cached<T: Send + Sync + 'static>(&self) -> (r: Option<&T>)
        ensures
            found_in(self@.cache, r),
    {
        self.state.cache.find()
    }

    /// Caches a value for the request, unless one of its type is cached already. Gives back whether
    /// it did, and the value that is cached now.
    pub fn cache<T: Send + Sync + 'static>(&self, value: T) -> (r: (bool, &T))
        ensures
            put_into(self@.cache, value, r),
            r.0 ==> *r.1 == value,
    {
        self.state.cache.put(value)
    }

    /// The value of type `T` that is cached for the request. If there is none, the one that `f` gives
    /// is cached first; `f` is called in no other case. That calls agree about the value is left to
    /// the cache, which never gives up a value.
    pub fn local_cache<T: Send + Sync + 'static, F: FnOnce() -> T>(&self, f: F) -> (r: &T)
        requires
            found_in::<T>(self@.cache, None) ==> f.requires(()),
        ensures
            cached_or_made(self@.cache, f, r),
    {
        match cache_step(self.cached(), f) {
            CacheStep::Found(value) => value,
            CacheStep::Store(value) => self.cache(value).1,
        }
    }

    /// The segments from the start of the range on after the mount point.
    pub fn routed_segments(&self, range: core::ops::RangeFrom<usize>) -> (r: Segments<'_>)
        requires
            self.valid(),
            mount_len(self@) + range.start <= usize::MAX,
        ensures
            r@ == routed_from(self@, range.start as int),
            r.well_formed(),
    {
        let mounted: usize = match self.route() {
            Some(route) => route.base_len,
            None => 0,
        };
        self.uri.segments().skip(mounted + range.start)
    }

    /// The `n`th segment after the mount point.
    pub fn routed_segment(&self, n: usize) -> (r: Option<&str>)
        requires
            self.valid(),
        ensures
            opt_str(r) == if n < routed_from(self@, 0).len() {
                Some(routed_from(self@, 0)[n as int])
            } else {
                None
            },
    {
        self.routed_segments(0..).get(n)
    }

    /// What can be made of the `n`th segment after the mount point, if there is one.
    pub fn param<'a, T: FromParam<'a>>(&'a self, n: usize) -> (r: Option<Result<T, T::Error>>)
        requires
            self.valid(),
        ensures
            match r {
                Some(made) => n < routed_from(self@, 0).len() && exists|s: &'a str|
                    s@ == routed_from(self@, 0)[n as int] && #[trigger] call_ensures(
                        T::from_param,
                        (s,),
                        made,
                    ),
                None => n >= routed_from(self@, 0).len(),
            },
    {
        match self.routed_segment(n) {
            Some(s) => Some(T::from_param(s)),
            None => None,
        }
    }

    /// What can be made of the segments from the start of the range on after the mount point.
    pub fn segments<'a, T: FromSegments<'a>>(&'a self, n: core::ops::RangeFrom<usize>) -> (r: Result<
        T,
        T::Error,
    >)
        requires
            self.valid(),
            mount_len(self@) + n.start <= usize::MAX,
        ensures
            exists|s: Segments<'a>|
                s@ == routed_from(self@, n.start as int) && s.well_formed()
                    && #[trigger] call_ensures(T::from_segments, (s,), r),
    {
        T::from_segments(self.routed_segments(n))
    }

    /// The fields of the query.
    pub fn query_fields(&self) -> (r: Vec<ValueField>)
        requires
            self.valid(),
        ensures
            field_views(r@) == fields_of(self@),
            forall|i: int| 0 <= i < r@.len() ==> (#[trigger] r@[i]).name.well_formed(),
    {
        let mut fields: Vec<ValueField> = Vec::new();
        let n = self.uri.pair_count();
        let mut i: usize = 0;
        while i < n
            invariant
                self.valid(),
                i <= n,
                n == query_pairs(self@.uri.query).len(),
                fields@.len() == i,
                forall|j: int|
                    0 <= j < i ==> (#[trigger] fields@[j])@ == fields_of(self@)[j]
                        && fields@[j].name.well_formed(),
            decreases n - i,
        {
            let (name, value) = self.uri.pair(i);
            fields.push(ValueField::from_pair(name, value));
            i += 1;
        }
        assert(field_views(fields@) =~= fields_of(self@));
        fields
    }

    /// What can be made of the fields of the query whose first key is `name`, if there are any.
    pub fn query_value<T: FromForm>(&self, name: &str) -> (r: Option<Result<T, T::Error>>)
        requires
            self.valid(),
        ensures
            match r {
                Some(made) => {
                    &&& fields_under(fields_of(self@), name@).len() > 0
                    &&& exists|fields: Seq<ValueField>|
                        field_views(fields) == fields_under(fields_of(self@), name@)
                            && #[trigger] form_result::<T>(fields, made)
                },
                None => fields_under(fields_of(self@), name@).len() == 0,
            },
    {
        let fields = self.query_fields();
        let ghost all = fields_of(self@);
        let mut under: Vec<ValueField> = Vec::new();
        assert(all.take(0) =~= Seq::empty());
        for field in it: fields
            invariant
                it.seq() == fields@,
                field_views(fields@) == all,
                forall|i: int| 0 <= i < fields@.len() ==> (#[trigger] fields@[i]).name.well_formed(),
                field_views(under@) == fields_under(all.take(it.index()), name@),
        {
            assert(field == fields@[it.index()]);
            proof {
                assert(all[it.index()] == field@);
                assert(all.take(it.index() + 1).drop_last() =~= all.take(it.index()));
            }
            if eq_text(field.name.key(), name) {
                let ghost done = field_views(under@);
                let next = field.shift();
                under.push(next);
                assert(field_views(under@) =~= done.push(next@));
            }
        }
        assert(all.take(fields@.len() as int) =~= all);
        if under.len() == 0 {
            assert(field_views(under@).len() == 0);
            return None;
        }
        assert(field_views(under@).len() == under@.len());
        let mut context = T::init(Options::Lenient);
        let ghost mut contexts = seq![context];
        for field in it: under
            invariant
                it.seq() == under@,
                contexts.len() == it.index() + 1,
                contexts.last() == context,
                call_ensures(T::init, (Options::Lenient,), contexts[0]),
                forall|i: int|
                    0 <= i < it.index() ==> call_ensures(
                        T::push_value,
                        (#[trigger] contexts[i], under@[i]),
                        contexts[i + 1],
                    ),
        {
            let ghost was = contexts;
            context = T::push_value(context, field);
            proof {
                contexts = was.push(context);
                assert forall|i: int| 0 <= i < it.index() + 1 implies call_ensures(
                    T::push_value,
                    (#[trigger] contexts[i], under@[i]),
                    contexts[i + 1],
                ) by {
                    if i < it.index() {
                        assert(was[i] == contexts[i] && was[i + 1] == contexts[i + 1]);
                    }
                }
            }
        }
        let made = T::finalize(context);
        assert(call_ensures(T::finalize, (contexts.last(),), made));
        assert(form_result::<T>(under@, made));
        Some(made)
    }
}

} // verus!
