//! A request head as it comes from the wire.
use vstd::prelude::*;
use crate::method::HttpVersion;
use crate::text::opt_text;

verus! {

/// A header whose value need not be text.
pub struct RawHeader {
    pub name: String,
    pub value: Vec<u8>,
}

/// A raw header as text and bytes.
#[verifier::ext_equal]
pub struct RawHeaderView {
    pub name: Seq<char>,
    pub value: Seq<u8>,
}

impl View for RawHeader {
    type V = RawHeaderView;

    open spec fn view(&self) -> RawHeaderView {
        RawHeaderView { name: self.name@, value: self.value@ }
    }
}

/// The views of raw headers.
pub open spec fn raw_views(v: Seq<RawHeader>) -> Seq<RawHeaderView> {
    Seq::new(v.len(), |i: int| v[i]@)
}

/// A path and perhaps a query.
pub struct PathAndQuery {
    pub path: String,
    pub query: Option<String>,
}

/// The head of a request.
pub struct RequestParts {
    /// The method, as it was sent.
    pub method: String,
    /// The whole URI.
    pub uri: String,
    /// The path and query of the URI, if it has them.
    pub path_and_query: Option<PathAndQuery>,
    /// The host in the authority of the URI.
    pub authority_host: Option<String>,
    /// The port in the authority of the URI.
    pub authority_port: Option<u16>,
    /// The protocol version, if it is known.
    pub version: Option<HttpVersion>,
    /// The headers, those of one name in the order in which they came.
    pub headers: Vec<RawHeader>,
}

/// The head of a request as texts.
#[verifier::ext_equal]
pub struct PartsView {
    pub method: Seq<char>,
    pub uri: Seq<char>,
    pub path_and_query: Option<(Seq<char>, Option<Seq<char>>)>,
    pub authority_host: Option<Seq<char>>,
    pub authority_port: Option<u16>,
    pub version: Option<HttpVersion>,
    pub headers: Seq<RawHeaderView>,
}

impl View for RequestParts {
    type V = PartsView;

    open spec fn view(&self) -> PartsView {
        PartsView {
            method: self.method@,
            uri: self.uri@,
            path_and_query: path_and_query_view(self.path_and_query),
            authority_host: opt_text(self.authority_host),
            authority_port: self.authority_port,
            version: self.version,
            headers: raw_views(self.headers@),
        }
    }
}

/// The optional view of a path and query.
pub open spec fn path_and_query_view(p: Option<PathAndQuery>) -> Option<
    (Seq<char>, Option<Seq<char>>),
> {
    match p {
        Some(x) => Some((x.path@, opt_text(x.query))),
        None => None,
    }
}

/// The view of a head has each of its parts.
pub proof fn law_parts_view(p: RequestParts, i: int)
    requires
        0 <= i < p.headers@.len(),
    ensures
        p@.method == p.method@,
        p@.uri == p.uri@,
        p@.path_and_query is Some <==> p.path_and_query is Some,
        p.path_and_query matches Some(x) ==> (p@.path_and_query->0).0 == x.path@ && (
        p@.path_and_query->0).1 == opt_text(x.query),
        p@.authority_host == opt_text(p.authority_host),
        p@.authority_port == p.authority_port,
        p@.version == p.version,
        p@.headers.len() == p.headers@.len(),
        p@.headers[i].name == p.headers@[i].name@,
        p@.headers[i].value == p.headers@[i].value@,
{
}

/// The head of a request as the HTTP implementation hands it over.
#[verifier::external_type_specification]
#[verifier::external_body]
pub struct ExParts(hyper::http::request::Parts);

// What the accessors of a head give has a name for each of them. It depends on the head alone, and
// the functions that make the calls claim no more than that.

/// The text of the method of a head.
pub uninterp spec fn head_method(head: hyper::http::request::Parts) -> Seq<char>;

/// The text of the URI of a head.
pub uninterp spec fn head_uri(head: hyper::http::request::Parts) -> Seq<char>;

/// The path and query of the URI of a head.
pub uninterp spec fn head_path_and_query(
    head: hyper::http::request::Parts,
) -> Option<(Seq<char>, Option<Seq<char>>)>;

/// The host in the authority of the URI of a head.
pub uninterp spec fn head_host(head: hyper::http::request::Parts) -> Option<Seq<char>>;

/// The port in the authority of the URI of a head.
pub uninterp spec fn head_port(head: hyper::http::request::Parts) -> Option<u16>;

/// The protocol version of a head.
pub uninterp spec fn head_version(head: hyper::http::request::Parts) -> Option<HttpVersion>;

/// The headers of a head.
pub uninterp spec fn head_headers(head: hyper::http::request::Parts) -> Seq<RawHeaderView>;

/// `hyper::Method::as_str`: the text of the method.
#[verifier::external_body]
fn read_method(head: &hyper::http::request::Parts) -> (r: String)
    ensures
        r@ == head_method(*head),
{
    head.method.as_str().to_string()
}

/// The `Display` of `hyper::Uri`: the text of the URI.
#[verifier::external_body]
fn read_uri(head: &hyper::http::request::Parts) -> (r: String)
    ensures
        r@ == head_uri(*head),
{
    format!("{}", head.uri)
}

/// `hyper::Uri::path_and_query`, with `path` and `query` of what it gives.
#[verifier::external_body]
fn read_path_and_query(head: &hyper::http::request::Parts) -> (r: Option<PathAndQuery>)
    ensures
        path_and_query_view(r) == head_path_and_query(*head),
{
    head.uri.path_and_query().map(
        |p| PathAndQuery { path: p.path().to_string(), query: p.query().map(|q| q.to_string()) },
    )
}

/// `hyper::Uri::host`: the host in the authority of the URI.
#[verifier::external_body]
fn read_host(head: &hyper::http::request::Parts) -> (r: Option<String>)
    ensures
        opt_text(r) == head_host(*head),
{
    head.uri.host().map(|h| h.to_string())
}

/// `hyper::Uri::port_u16`: the port in the authority of the URI.
#[verifier::external_body]
fn read_port(head: &hyper::http::request::Parts) -> (r: Option<u16>)
    ensures
        r == head_port(*head),
{
    head.uri.port_u16()
}

/// The constants of `http::Version`, told apart.
#[verifier::external_body]
fn read_version(head: &hyper::http::request::Parts) -> (r: Option<HttpVersion>)
    ensures
        r == head_version(*head),
{
    match head.version {
        http::Version::HTTP_09 => Some(HttpVersion::Http09),
        http::Version::HTTP_10 => Some(HttpVersion::Http10),
        http::Version::HTTP_11 => Some(HttpVersion::Http11),
        http::Version::HTTP_2 => Some(HttpVersion::Http2),
        http::Version::HTTP_3 => Some(HttpVersion::Http3),
        _ => None,
    }
}

/// `hyper::HeaderMap::iter`: the headers, each name once for each of its values, in the order in
/// which the map lists them. That order comes of how the map was filled, not of how it hashes.
#[verifier::external_body]
fn read_headers(head: &hyper::http::request::Parts) -> (r: Vec<RawHeader>)
    ensures
        raw_views(r@) == head_headers(*head),
{
    head.headers.iter().map(
        |(n, v)| RawHeader { name: n.as_str().to_string(), value: v.as_bytes().to_vec() },
    ).collect()
}

/// The head that the HTTP implementation handed over, as texts.
pub open spec fn head_view(head: hyper::http::request::Parts) -> PartsView {
    PartsView {
        method: head_method(head),
        uri: head_uri(head),
        path_and_query: head_path_and_query(head),
        authority_host: head_host(head),
        authority_port: head_port(head),
        version: head_version(head),
        headers: head_headers(head),
    }
}

/// A head as texts has every part of the head that was handed over.
pub proof fn law_head_view(head: hyper::http::request::Parts)
    ensures
        head_view(head).method == head_method(head),
        head_view(head).uri == head_uri(head),
        head_view(head).path_and_query == head_path_and_query(head),
        head_view(head).authority_host == head_host(head),
        head_view(head).authority_port == head_port(head),
        head_view(head).version == head_version(head),
        head_view(head).headers == head_headers(head),
{
}

/// Takes over the head of a request from the HTTP implementation.
pub fn read_head(head: &hyper::http::request::Parts) -> (r: RequestParts)
    ensures
        r@ == head_view(*head),
{
    RequestParts {
        method: read_method(head),
        uri: read_uri(head),
        path_and_query: read_path_and_query(head),
        authority_host: read_host(head),
        authority_port: read_port(head),
        version: read_version(head),
        headers: read_headers(head),
    }
}

} // verus!
