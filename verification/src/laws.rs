//! What holds of requests across their operations.
use vstd::prelude::*;
use vstd::utf8::{decode_utf8, valid_utf8};
use crate::accept::{accept_of, law_written_list_reads, preferred_type, writable_list, QMediaTypeView};
use crate::cells::{accept_in, content_type_in, found_in, put_into, LocalCache};
use crate::connection::{endpoint_ip, ConnectionMeta, Endpoint, SocketAddr};
use crate::error::ErrorView;
use crate::cookies::{cookie_of, JarView};
use crate::form::{first_part, key_of, shifted_field, FieldView, FromForm, FromParam};
use crate::header::{accept_header, content_type_header, law_first_is_oldest};
use crate::header::{first_value, header_values, law_added, law_case_is_ignored, law_replaced};
use crate::header::{well_formed, EntryView, HeaderView};
use crate::host::{host_of_bytes, Host};
use crate::ip::{ip_of, law_v4, opt_ip, v4_text, IpAddr, IpView};
use crate::media_type::{opt_type, MediaType};
use crate::media_type::{any_type, law_any_type, law_written_type_reads, media_type_of, writable, MediaTypeView};
use crate::method::{body_allowed, law_bodies, method_of, HttpVersion, Method};
use crate::proxy::{law_proto, proto_of, ProxyProto, ProxyProtoView};
use crate::request::{cached_or_made, cookie_texts, first_raw};
use crate::request::{busted, client_ip_of, cookies_in, described_bare, errors_in};
use crate::request::{fields_of, fields_under, lemma_raw_headers_frame, with_secure};
use crate::request::{format_of, host_in, is_described, is_secure_sign, mount_len, proxy_proto_of};
use crate::request::{real_ip_of, routed_from, tells_proto, with_cookie_texts, with_header};
use crate::request::{with_header_replaced, with_raw_headers, Request, RequestView};
use crate::rocket::{Rocket, Route};
use crate::text::{law_split, same_text, split, trimmed};
use crate::uri::{path_segments, query_pairs, OriginView};
use crate::wire::{PartsView, RawHeaderView};

verus! {

/// Over TLS a request is always in a secure context.
pub proof fn law_tls_is_secure(r: Request<'_>)
    requires
        r.valid(),
        r@.rocket.tls_enabled,
    ensures
        r@.cookies.secure,
{
    r.lemma_valid();
}

/// Where the configured header says that the client of a proxy used HTTPS, the request is in a
/// secure context.
pub proof fn law_https_proxy_is_secure(r: Request<'_>)
    requires
        r.valid(),
        proxy_proto_of(r@) == Some(ProxyProtoView::Https),
    ensures
        r@.cookies.secure,
{
    r.lemma_valid();
    let name = r@.rocket.config.proxy_proto_header->0@;
    assert(tells_proto(r@.rocket, name));
    assert(proto_of(header_values(r@.headers, name)[0]) is Https);
}

/// No header that is added takes the secure context back.
pub proof fn law_secure_is_kept(v: RequestView, h: HeaderView)
    requires
        v.cookies.secure,
    ensures
        with_header(v, h).cookies.secure,
{
}

/// Once the header that tells the protocol has been replaced, the request is in a secure context
/// exactly if the application serves over TLS or the protocol is HTTPS now. Replacing another header
/// has no influence on that.
pub proof fn law_replaced_proto(v: RequestView, h: HeaderView)
    requires
        well_formed(v.headers),
    ensures
        ({
            let out = with_header_replaced(v, h);
            &&& tells_proto(v.rocket, h.name) ==> (out.cookies.secure <==> v.rocket.tls_enabled
                || proxy_proto_of(out) == Some(ProxyProtoView::Https))
            &&& tells_proto(v.rocket, h.name) ==> proxy_proto_of(out) == Some(proto_of(h.value))
            &&& !tells_proto(v.rocket, h.name) ==> out.cookies.secure == v.cookies.secure
        }),
{
    if tells_proto(v.rocket, h.name) {
        law_replaced(v.headers, h, v.rocket.config.proxy_proto_header->0@);
    }
}

/// Once the first header that tells the protocol has been added to a request whose context was secure
/// only for TLS, the context is secure exactly if the application serves over TLS or the protocol is
/// HTTPS.
pub proof fn law_first_proto(v: RequestView, h: HeaderView)
    requires
        well_formed(v.headers),
        v.cookies.secure == v.rocket.tls_enabled,
        proxy_proto_of(v) is None,
    ensures
        with_header(v, h).cookies.secure <==> v.rocket.tls_enabled || proxy_proto_of(
            with_header(v, h),
        ) == Some(ProxyProtoView::Https),
{
    if v.rocket.config.proxy_proto_header is Some {
        law_added(v.headers, h, v.rocket.config.proxy_proto_header->0@);
    }
}

/// Getting a request ready for a header changes nothing of it, but for the secure context where the
/// header is added and tells the protocol. In particular the content type and the accepted media
/// types are what they were.
pub proof fn law_busting(v: RequestView, h: HeaderView, replace: bool)
    ensures
        ({
            let out = busted(v, h, replace);
            &&& out == with_secure(v, out.cookies.secure)
            &&& content_type_in(out.headers) == content_type_in(v.headers)
            &&& accept_in(out.headers) == accept_in(v.headers)
            &&& !tells_proto(v.rocket, h.name) ==> out == v
            &&& replace ==> out == v
        }),
{
}

/// Without a header configured for the protocol, headers have no influence on the secure context.
pub proof fn law_unconfigured_is_no_sign(v: RequestView, h: HeaderView)
    requires
        v.rocket.config.proxy_proto_header is None,
    ensures
        with_header(v, h).cookies.secure == v.cookies.secure,
        with_header_replaced(v, h).cookies.secure == v.cookies.secure,
        proxy_proto_of(v) is None,
{
}

/// Headers change neither the host nor the method, the URI, the endpoint, the route or the cookies.
pub proof fn law_headers_change_headers_only(v: RequestView, h: HeaderView)
    ensures
        with_header(v, h) == (RequestView {
            headers: with_header(v, h).headers,
            cookies: JarView { secure: with_header(v, h).cookies.secure, ..v.cookies },
            ..v
        }),
        with_header_replaced(v, h) == (RequestView {
            headers: with_header_replaced(v, h).headers,
            cookies: JarView { secure: with_header_replaced(v, h).cookies.secure, ..v.cookies },
            ..v
        }),
{
}

/// Once a header has been replaced, its value is the only one of its name, and the values of the
/// other names are what they were.
pub proof fn law_replaced_header(v: RequestView, h: HeaderView, name: Seq<char>)
    requires
        well_formed(v.headers),
    ensures
        same_text(name, h.name) ==> header_values(with_header_replaced(v, h).headers, name)
            == seq![h.value],
        !same_text(name, h.name) ==> header_values(with_header_replaced(v, h).headers, name)
            == header_values(v.headers, name),
{
    law_replaced(v.headers, h, name);
}

/// Once a header has been added, its value follows those of its name, and the values of the other
/// names are what they were.
pub proof fn law_added_header(v: RequestView, h: HeaderView, name: Seq<char>)
    requires
        well_formed(v.headers),
    ensures
        same_text(name, h.name) ==> header_values(with_header(v, h).headers, name)
            == header_values(v.headers, name).push(h.value),
        !same_text(name, h.name) ==> header_values(with_header(v, h).headers, name)
            == header_values(v.headers, name),
{
    law_added(v.headers, h, name);
}

/// The content type follows the headers: a replaced `Content-Type` header gives it, an added one
/// only if it is the first, and no other header has an influence on it.
pub proof fn law_content_type_follows_headers(v: RequestView, h: HeaderView)
    requires
        well_formed(v.headers),
    ensures
        content_type_in(with_header_replaced(v, h).headers) == if same_text(
            "Content-Type"@,
            h.name,
        ) {
            media_type_of(h.value)
        } else {
            content_type_in(v.headers)
        },
        content_type_in(with_header(v, h).headers) == if same_text("Content-Type"@, h.name)
            && first_value(v.headers, "Content-Type"@) is None {
            media_type_of(h.value)
        } else {
            content_type_in(v.headers)
        },
{
    law_added(v.headers, h, "Content-Type"@);
    law_replaced(v.headers, h, "Content-Type"@);
}

/// The accepted media types follow the headers: a replaced `Accept` header gives them, an added one
/// only if it is the first, and no other header has an influence on them.
pub proof fn law_accept_follows_headers(v: RequestView, h: HeaderView)
    requires
        well_formed(v.headers),
    ensures
        accept_in(with_header_replaced(v, h).headers) == if same_text("Accept"@, h.name) {
            accept_of(h.value)
        } else {
            accept_in(v.headers)
        },
        accept_in(with_header(v, h).headers) == if same_text("Accept"@, h.name) && first_value(
            v.headers,
            "Accept"@,
        ) is None {
            accept_of(h.value)
        } else {
            accept_in(v.headers)
        },
{
    law_added(v.headers, h, "Accept"@);
    law_replaced(v.headers, h, "Accept"@);
}

/// A content type that is put in place of others is the one that the request has then.
pub proof fn law_given_content_type(v: RequestView, m: MediaTypeView)
    requires
        well_formed(v.headers),
        writable(m),
    ensures
        content_type_in(with_header_replaced(v, content_type_header(m)).headers) == Some(m),
        first_value(v.headers, "Content-Type"@) is None ==> content_type_in(
            with_header(v, content_type_header(m)).headers,
        ) == Some(m),
{
    law_content_type_follows_headers(v, content_type_header(m));
    law_written_type_reads(m);
}

/// Accepted media types that are put in place of others are those that the request has then.
pub proof fn law_given_accept(v: RequestView, list: Seq<QMediaTypeView>)
    requires
        well_formed(v.headers),
        writable_list(list),
    ensures
        accept_in(with_header_replaced(v, accept_header(list)).headers) == Some(list),
        first_value(v.headers, "Accept"@) is None ==> accept_in(
            with_header(v, accept_header(list)).headers,
        ) == Some(list),
{
    law_accept_follows_headers(v, accept_header(list));
    law_written_list_reads(list);
}

/// With a method that always has a body the format is the content type. With any other there is
/// always a format, which is the preferred one of the accepted ones, or `*/*` without those.
pub proof fn law_format(v: RequestView)
    ensures
        body_allowed(v.method) == Some(true) ==> format_of(v) == content_type_in(v.headers),
        body_allowed(v.method) != Some(true) ==> format_of(v) is Some,
        body_allowed(v.method) != Some(true) && accept_in(v.headers) is None ==> format_of(v) == Some(
            any_type(),
        ),
        body_allowed(v.method) != Some(true) && accept_in(v.headers) is Some ==> format_of(v) == Some(
            preferred_type(accept_in(v.headers)->0),
        ),
{
}

/// The address that a proxy reports comes before that of the connection. There is no address only
/// if neither is known.
pub proof fn law_client_ip(v: RequestView)
    ensures
        real_ip_of(v) is Some ==> client_ip_of(v) == real_ip_of(v),
        real_ip_of(v) is None ==> client_ip_of(v) == match v.connection.peer_endpoint {
            Some(e) => opt_ip(endpoint_ip(e)),
            None => None,
        },
{
}

/// How the header that is configured for the address is spelled in a request makes no difference.
pub proof fn law_real_ip_ignores_case(v: RequestView, name: Seq<char>)
    requires
        well_formed(v.headers),
        v.rocket.config.ip_header is Some,
        same_text(v.rocket.config.ip_header->0@, name),
    ensures
        real_ip_of(v) == match first_value(v.headers, name) {
            Some(text) => ip_of(text),
            None => None,
        },
{
    law_case_is_ignored(v.headers, v.rocket.config.ip_header->0@, name);
}

/// The segments from the `n`th on are those that follow the first `n`, and the `n`th one comes
/// first among them.
pub proof fn law_routed_segments(v: RequestView, n: int)
    requires
        0 <= n,
    ensures
        n <= routed_from(v, 0).len() ==> routed_from(v, n) == routed_from(v, 0).skip(n),
        n >= routed_from(v, 0).len() ==> routed_from(v, n).len() == 0,
        n < routed_from(v, 0).len() ==> routed_from(v, n)[0] == routed_from(v, 0)[n],
{
    let all = path_segments(v.uri.path);
    if mount_len(v) <= all.len() {
        if n <= routed_from(v, 0).len() {
            assert(routed_from(v, n) =~= routed_from(v, 0).skip(n));
        }
    }
}

/// Before routing, the segments are all those of the path.
pub proof fn law_unrouted_segments(v: RequestView)
    requires
        v.route is None,
    ensures
        routed_from(v, 0) == path_segments(v.uri.path),
{
    assert(routed_from(v, 0) =~= path_segments(v.uri.path));
}

/// Without a query there are no fields.
pub proof fn law_no_query_no_fields(v: RequestView)
    requires
        v.uri.query is None,
    ensures
        fields_of(v) == Seq::<FieldView>::empty(),
{
    assert(fields_of(v) =~= Seq::<FieldView>::empty());
}

/// Which fields there are under a name, as a list of their places.
pub open spec fn places_under(fields: Seq<FieldView>, name: Seq<char>) -> Seq<int>
    decreases fields.len(),
{
    if fields.len() == 0 {
        Seq::empty()
    } else {
        let init = places_under(fields.drop_last(), name);
        if key_of(fields.last().name) == name {
            init.push(fields.len() - 1)
        } else {
            init
        }
    }
}

/// The fields under a name are exactly those whose first key is the name: they stand in the order of
/// the query, none is left out, and there are none only if no field has the name.
pub proof fn law_fields_under(fields: Seq<FieldView>, name: Seq<char>)
    ensures
        ({
            let places = places_under(fields, name);
            let under = fields_under(fields, name);
            &&& under.len() == places.len()
            &&& forall|k: int|
                #![trigger places[k]]
                0 <= k < places.len() ==> 0 <= places[k] < fields.len() && key_of(
                    fields[places[k]].name,
                ) == name && under[k] == shifted_field(fields[places[k]])
            &&& forall|k: int, l: int|
                #![trigger places[k], places[l]]
                0 <= k < l < places.len() ==> places[k] < places[l]
            &&& forall|i: int|
                #![trigger fields[i]]
                0 <= i < fields.len() && key_of(fields[i].name) == name ==> places.contains(i)
        }),
        fields_under(fields, name).len() > 0 <==> exists|i: int|
            0 <= i < fields.len() && key_of(#[trigger] fields[i].name) == name,
    decreases fields.len(),
{
    if fields.len() > 0 {
        let init = fields.drop_last();
        law_fields_under(init, name);
        let before = places_under(init, name);
        let places = places_under(fields, name);
        assert forall|i: int|
            #![trigger fields[i]]
            0 <= i < fields.len() && key_of(fields[i].name) == name implies places.contains(i) by {
            if i < init.len() {
                assert(init[i] == fields[i]);
                assert(before.contains(i));
                let k = choose|k: int| 0 <= k < before.len() && before[k] == i;
                assert(places[k] == i);
            } else {
                assert(places.last() == i);
            }
        }
        assert forall|k: int|
            #![trigger places[k]]
            0 <= k < places.len() implies 0 <= places[k] < fields.len() && key_of(
            fields[places[k]].name,
        ) == name && fields_under(fields, name)[k] == shifted_field(fields[places[k]]) by {
            if k < before.len() {
                assert(before[k] == places[k]);
                assert(init[before[k]] == fields[places[k]]);
            }
        }
        assert forall|k: int, l: int|
            #![trigger places[k], places[l]]
            0 <= k < l < places.len() implies places[k] < places[l] by {
            assert(before[k] == places[k]);
            if l < before.len() {
                assert(before[l] == places[l]);
            }
        }
    }
    let places = places_under(fields, name);
    if places.len() > 0 {
        assert(key_of(fields[places[0]].name) == name);
    }
    if exists|i: int| 0 <= i < fields.len() && key_of(#[trigger] fields[i].name) == name {
        let i = choose|i: int| 0 <= i < fields.len() && key_of(#[trigger] fields[i].name) == name;
        assert(key_of(fields[i].name) == name);
        assert(places.contains(i));
    }
}

/// From version 2 on the host is the one in the authority of the URI: there is one exactly if the
/// authority has one, with the port of the authority, which may be none.
pub proof fn law_host_in_authority(
    v: RequestView,
    rocket: Rocket,
    p: PartsView,
    connection: ConnectionMeta,
)
    requires
        is_described(v, rocket, p, connection),
        p.version == Some(HttpVersion::Http2) || p.version == Some(HttpVersion::Http3),
    ensures
        v.host is Some <==> p.authority_host is Some,
        v.host is Some ==> (v.host->0).domain == p.authority_host->0,
        v.host is Some ==> (v.host->0).port == p.authority_port,
{
    law_described_rest(v, rocket, p, connection);
}

/// Before version 2 the host is the one that the first `Host` header names, in any case, if it names
/// one; what the authority of the URI says makes no difference.
pub proof fn law_host_in_header(
    v: RequestView,
    rocket: Rocket,
    p: PartsView,
    connection: ConnectionMeta,
    i: int,
)
    requires
        is_described(v, rocket, p, connection),
        p.version == Some(HttpVersion::Http09) || p.version == Some(HttpVersion::Http10) || p.version
            == Some(HttpVersion::Http11),
        0 <= i <= p.headers.len(),
        forall|k: int| 0 <= k < i ==> !same_text((#[trigger] p.headers[k]).name, "host"@),
        i < p.headers.len() ==> same_text(p.headers[i].name, "host"@),
    ensures
        i < p.headers.len() ==> v.host == host_of_bytes(p.headers[i].value),
        i == p.headers.len() ==> v.host is None,
{
    law_described_rest(v, rocket, p, connection);
    lemma_first_raw(p.headers, "host"@, i);
}

/// The first raw header of a name is the one that none of the name stands before.
proof fn lemma_first_raw(headers: Seq<RawHeaderView>, name: Seq<char>, i: int)
    requires
        0 <= i <= headers.len(),
        forall|k: int| 0 <= k < i ==> !same_text((#[trigger] headers[k]).name, name),
        i < headers.len() ==> same_text(headers[i].name, name),
    ensures
        first_raw(headers, name) == if i < headers.len() {
            Some(headers[i].value)
        } else {
            None
        },
    decreases i,
{
    if i > 0 {
        assert(!same_text(headers[0].name, name));
        let rest = headers.skip(1);
        assert forall|k: int| 0 <= k < i - 1 implies !same_text((#[trigger] rest[k]).name, name) by {
            assert(rest[k] == headers[k + 1]);
        }
        if i < headers.len() {
            assert(rest[i - 1] == headers[i]);
        }
        lemma_first_raw(rest, name, i - 1);
    }
}

/// For every method that always has a body the format is the content type, and there is none without
/// one. For every other method it is the preferred one of the accepted ones, or `*/*`.
pub proof fn law_format_by_method(v: RequestView)
    ensures
        v.method is Post || v.method is Put || v.method is Patch ==> format_of(v) == content_type_in(
            v.headers,
        ),
        v.method is Get || v.method is Head || v.method is Delete || v.method is Options
            || v.method is Connect || v.method is Trace ==> format_of(v) == (match accept_in(
            v.headers,
        ) {
            Some(list) => Some(preferred_type(list)),
            None => media_type_of(seq!['*', '/', '*']),
        }),
        first_value(v.headers, "Content-Type"@) is None && (v.method is Post || v.method is Put
            || v.method is Patch) ==> format_of(v) is None,
{
    law_bodies(v.method);
    law_any_type();
}

/// A route sees the path from its mount point on: the `n`th segment after it is the one as many
/// segments further on in the path as the mount point has.
pub proof fn law_mounted_segments(v: RequestView, route: Route, n: int, k: int)
    requires
        v.route == Some(route),
        0 <= n,
        0 <= k,
    ensures
        route.base_len + n <= path_segments(v.uri.path).len() ==> routed_from(v, n).len()
            == path_segments(v.uri.path).len() - route.base_len - n,
        route.base_len + n > path_segments(v.uri.path).len() ==> routed_from(v, n).len() == 0,
        route.base_len + n + k < path_segments(v.uri.path).len() ==> routed_from(v, n)[k]
            == path_segments(v.uri.path)[route.base_len + n + k],
{
}

/// An address that a proxy reports in the configured header, in any spelling of its name, is that of
/// the client: here one of four numbers, which it has in their order.
pub proof fn law_reported_address(v: RequestView, h: HeaderView, a: u8, b: u8, c: u8, d: u8)
    requires
        well_formed(v.headers),
        v.rocket.config.ip_header is Some,
        same_text(v.rocket.config.ip_header->0@, h.name),
        h.value == v4_text(a, b, c, d),
    ensures
        real_ip_of(with_header_replaced(v, h)) == Some(IpView::V4(seq![a, b, c, d])),
        client_ip_of(with_header_replaced(v, h)) == Some(IpView::V4(seq![a, b, c, d])),
        real_ip_of(v) is None && first_value(v.headers, h.name) is None ==> real_ip_of(
            with_header(v, h),
        ) == Some(IpView::V4(seq![a, b, c, d])) && client_ip_of(with_header(v, h)) == Some(
            IpView::V4(seq![a, b, c, d]),
        ),
{
    let name = v.rocket.config.ip_header->0@;
    law_v4(a, b, c, d);
    law_added(v.headers, h, name);
    law_replaced(v.headers, h, name);
    law_case_is_ignored(v.headers, name, h.name);
}

/// Without a value of the configured header, or with one that is no address, the address of the client
/// is that of the connection.
pub proof fn law_unreported_address(v: RequestView, addr: SocketAddr)
    requires
        v.rocket.config.ip_header is None || first_value(
            v.headers,
            v.rocket.config.ip_header->0@,
        ) is None || ip_of(first_value(v.headers, v.rocket.config.ip_header->0@)->0) is None,
    ensures
        real_ip_of(v) is None,
        v.connection.peer_endpoint == Some(Endpoint::Tcp(addr)) || v.connection.peer_endpoint == Some(
            Endpoint::Quic(addr),
        ) ==> client_ip_of(v) == Some(addr.ip@),
        v.connection.peer_endpoint is None ==> client_ip_of(v) is None,
{
}

/// What a request answers about itself is what it says: its method, version, host and endpoint, the
/// addresses, the protocol, the secure context and the format.
pub proof fn law_answers(
    r: Request<'_>,
    method: Method,
    version: Option<HttpVersion>,
    host: Option<&Host>,
    remote: Option<&Endpoint>,
    reported: Option<IpAddr>,
    client: Option<IpAddr>,
    proto: Option<ProxyProto>,
    secure: bool,
    format: Option<MediaType>,
)
    requires
        r.valid(),
        call_ensures(Request::method, (&r,), method),
        call_ensures(Request::version, (&r,), version),
        call_ensures(Request::host, (&r,), host),
        call_ensures(Request::remote, (&r,), remote),
        call_ensures(Request::real_ip, (&r,), reported),
        call_ensures(Request::client_ip, (&r,), client),
        call_ensures(Request::proxy_proto, (&r,), proto),
        call_ensures(Request::context_is_likely_secure, (&r,), secure),
        call_ensures(Request::format, (&r,), format),
    ensures
        method == r@.method,
        version == r@.version,
        host is Some <==> r@.host is Some,
        host is Some ==> (host->0)@ == r@.host->0,
        remote is Some <==> r@.connection.peer_endpoint is Some,
        remote is Some ==> *(remote->0) == r@.connection.peer_endpoint->0,
        opt_ip(reported) == real_ip_of(r@),
        reported is Some ==> opt_ip(client) == opt_ip(reported),
        reported is None && remote is None ==> client is None,
        reported is None && remote is Some ==> opt_ip(client) == opt_ip(endpoint_ip(*(remote->0))),
        proto is Some <==> proxy_proto_of(r@) is Some,
        proto is Some ==> (proto->0)@ == proxy_proto_of(r@)->0,
        proto is Some && (proto->0)@ is Https ==> secure,
        r@.rocket.tls_enabled ==> secure,
        opt_type(format) == format_of(r@),
{
    if proxy_proto_of(r@) == Some(ProxyProtoView::Https) {
        law_https_proxy_is_secure(r);
    }
    if r@.rocket.tls_enabled {
        law_tls_is_secure(r);
    }
}

/// The `n`th segment that a request gives is the one of its path as many further on as its route's
/// mount point has; there is none where the path is too short.
pub proof fn law_routed_segment(r: Request<'_>, n: usize, segment: Option<&str>)
    requires
        r.valid(),
        call_ensures(Request::routed_segment, (&r, n), segment),
    ensures
        r@.route matches Some(route) ==> (segment is Some <==> route.base_len + n < path_segments(
            r@.uri.path,
        ).len()) && (segment is Some ==> (segment->0)@ == path_segments(r@.uri.path)[route.base_len + n]),
        r@.route is None ==> (segment is Some <==> n < path_segments(r@.uri.path).len()) && (
        segment is Some ==> (segment->0)@ == path_segments(r@.uri.path)[n as int]),
{
}

/// There is a value for a segment exactly if there is the segment, and it is made of it.
pub proof fn law_param<'a, T: FromParam<'a>>(
    r: &'a Request<'a>,
    n: usize,
    made: Option<Result<T, T::Error>>,
)
    requires
        r.valid(),
        call_ensures(Request::param::<T>, (r, n), made),
    ensures
        r@.route matches Some(route) ==> (made is Some <==> route.base_len + n < path_segments(
            r@.uri.path,
        ).len()),
        r@.route is None ==> (made is Some <==> n < path_segments(r@.uri.path).len()),
        made is Some ==> exists|s: &'a str|
            s@ == path_segments(r@.uri.path)[(match r@.route {
                Some(route) => route.base_len as int,
                None => 0,
            }) + n] && #[trigger] call_ensures(T::from_param, (s,), made->0),
{
}

/// There is a value for a name exactly if the first key of some field of the query is the name.
pub proof fn law_query_value<T: FromForm>(
    r: Request<'_>,
    name: &str,
    made: Option<Result<T, T::Error>>,
)
    requires
        r.valid(),
        call_ensures(Request::query_value::<T>, (&r, name), made),
    ensures
        made is Some <==> exists|i: int|
            0 <= i < fields_of(r@).len() && key_of(#[trigger] fields_of(r@)[i].name) == name@,
{
    law_fields_under(fields_of(r@), name@);
}

/// Which headers are signs: those of the configured name, in any case, that say HTTPS, in any case.
pub proof fn law_secure_sign(rocket: Rocket, h: HeaderView)
    ensures
        rocket.config.proxy_proto_header is None ==> !is_secure_sign(rocket, h),
        rocket.config.proxy_proto_header matches Some(p) ==> (is_secure_sign(rocket, h) <==> same_text(
            h.name,
            p@,
        ) && same_text(h.value, "https"@)),
        rocket.config.proxy_proto_header matches Some(p) ==> (tells_proto(rocket, h.name) <==> same_text(
            h.name,
            p@,
        )),
{
    law_proto(h.value);
}

/// The protocol that a request reports is that of the oldest value of the configured header.
pub proof fn law_reported_proto(v: RequestView)
    requires
        well_formed(v.headers),
    ensures
        v.rocket.config.proxy_proto_header matches Some(p) ==> (proxy_proto_of(v) is Some
            <==> header_values(v.headers, p@).len() > 0),
        v.rocket.config.proxy_proto_header matches Some(p) ==> proxy_proto_of(v) is Some
            ==> proxy_proto_of(v)->0 == proto_of(header_values(v.headers, p@)[0]),
{
    if v.rocket.config.proxy_proto_header is Some {
        law_first_is_oldest(v.headers, v.rocket.config.proxy_proto_header->0@);
    }
}

/// What is wrong with a head is noted in this order: a method that is not known, with its text, and a
/// URI without a path, with its text.
pub proof fn law_noted_errors(p: PartsView)
    ensures
        method_of(p.method) is None && p.path_and_query is None ==> errors_in(p) == seq![
            ErrorView::BadMethod(p.method),
            ErrorView::InvalidUri(p.uri),
        ],
        method_of(p.method) is None && p.path_and_query is Some ==> errors_in(p) == seq![
            ErrorView::BadMethod(p.method),
        ],
        method_of(p.method) is Some && p.path_and_query is None ==> errors_in(p) == seq![
            ErrorView::InvalidUri(p.uri),
        ],
        method_of(p.method) is Some && p.path_and_query is Some ==> errors_in(p) == Seq::<
            ErrorView,
        >::empty(),
{
    assert(errors_in(p) =~= errors_in(p));
}

/// A raw header more that is UTF-8 adds its value after those of its name, in any case. One that is not
/// is dropped.
pub proof fn law_one_raw_header_more(
    v: RequestView,
    headers: Seq<RawHeaderView>,
    h: RawHeaderView,
    name: Seq<char>,
)
    requires
        v.headers == Seq::<EntryView>::empty(),
    ensures
        header_values(with_raw_headers(v, Seq::empty()).headers, name) == Seq::<Seq<char>>::empty(),
        same_text(name, h.name) && valid_utf8(h.value) ==> header_values(
            with_raw_headers(v, headers.push(h)).headers,
            name,
        ) == header_values(with_raw_headers(v, headers).headers, name).push(decode_utf8(h.value)),
        !same_text(name, h.name) || !valid_utf8(h.value) ==> header_values(
            with_raw_headers(v, headers.push(h)).headers,
            name,
        ) == header_values(with_raw_headers(v, headers).headers, name),
{
    assert(headers.push(h).drop_last() =~= headers);
    lemma_raw_headers(v, headers, name);
    if valid_utf8(h.value) {
        law_added(
            with_raw_headers(v, headers).headers,
            HeaderView { name: h.name, value: decode_utf8(h.value) },
            name,
        );
    }
}

/// Every piece of a `Cookie` header that is a cookie once trimmed is among the cookies of the request
/// under its name, unless a later piece or a later such header has a cookie of that name.
pub proof fn law_cookies_of_headers(
    headers: Seq<RawHeaderView>,
    i: int,
    k: int,
    name: Seq<char>,
    value: Seq<char>,
)
    requires
        0 <= i < headers.len(),
        same_text(headers[i].name, "Cookie"@),
        valid_utf8(headers[i].value),
        0 <= k < split(decode_utf8(headers[i].value), ';').len(),
        cookie_of(trimmed(split(decode_utf8(headers[i].value), ';')[k])) == Some((name, value)),
        forall|l: int|
            k < l < split(decode_utf8(headers[i].value), ';').len() ==> !names_cookie(
                #[trigger] split(decode_utf8(headers[i].value), ';')[l],
                name,
            ),
        forall|j: int, l: int|
            #![trigger split(decode_utf8(headers[j].value), ';')[l]]
            i < j < headers.len() && same_text(headers[j].name, "Cookie"@) && valid_utf8(
                headers[j].value,
            ) && 0 <= l < split(decode_utf8(headers[j].value), ';').len() ==> !names_cookie(
                split(decode_utf8(headers[j].value), ';')[l],
                name,
            ),
    ensures
        cookies_in(headers).contains_pair(name, value),
    decreases headers.len(),
{
    let init = headers.drop_last();
    let last = headers.last();
    let pieces = split(decode_utf8(last.value), ';');
    let found = cookie_texts(last.value);
    if i == headers.len() - 1 {
        assert(found.len() == pieces.len());
        assert(found[k] == trimmed(pieces[k]));
        assert forall|l: int| k < l < found.len() implies (cookie_of(#[trigger] found[l]) matches Some(
            (n, _),
        ) ==> n != name) by {
            assert(found[l] == trimmed(pieces[l]));
            assert(!names_cookie(pieces[l], name));
        }
        law_last_cookie_counts(cookies_in(init), found, name, value, k);
    } else {
        assert(init[i] == headers[i]);
        assert forall|j: int, l: int|
            #![trigger split(decode_utf8(init[j].value), ';')[l]]
            i < j < init.len() && same_text(init[j].name, "Cookie"@) && valid_utf8(init[j].value) && 0
                <= l < split(decode_utf8(init[j].value), ';').len() implies !names_cookie(
            split(decode_utf8(init[j].value), ';')[l],
            name,
        ) by {
            assert(init[j] == headers[j]);
            assert(!names_cookie(split(decode_utf8(headers[j].value), ';')[l], name));
        }
        law_cookies_of_headers(init, i, k, name, value);
        if same_text(last.name, "Cookie"@) {
            assert forall|l: int| 0 <= l < found.len() implies (cookie_of(
                #[trigger] found[l],
            ) matches Some((n, _)) ==> n != name) by {
                assert(headers[headers.len() - 1] == last);
                assert(found[l] == trimmed(pieces[l]));
                assert(!names_cookie(
                    split(decode_utf8(headers[headers.len() - 1].value), ';')[l],
                    name,
                ));
            }
            lemma_other_cookies(cookies_in(init), found, name);
        }
    }
}

/// Whether a piece of a `Cookie` header is a cookie of the name.
pub open spec fn names_cookie(piece: Seq<char>, name: Seq<char>) -> bool {
    cookie_of(trimmed(piece)) matches Some((n, _)) && n == name
}

/// Texts that are no cookies of a name leave what there is of it.
proof fn lemma_other_cookies(
    jar: Map<Seq<char>, Seq<char>>,
    cookies: Seq<Seq<char>>,
    name: Seq<char>,
)
    requires
        forall|l: int|
            0 <= l < cookies.len() ==> (cookie_of(#[trigger] cookies[l]) matches Some((n, _)) ==> n
                != name),
    ensures
        with_cookie_texts(jar, cookies).contains_key(name) == jar.contains_key(name),
        with_cookie_texts(jar, cookies)[name] == jar[name],
    decreases cookies.len(),
{
    if cookies.len() > 0 {
        let init = cookies.drop_last();
        assert forall|l: int| 0 <= l < init.len() implies (cookie_of(#[trigger] init[l]) matches Some(
            (n, _),
        ) ==> n != name) by {
            assert(init[l] == cookies[l]);
        }
        lemma_other_cookies(jar, init, name);
        assert(cookies.last() == cookies[cookies.len() - 1]);
    }
}

/// A request has no cookie of a name of which no piece of its `Cookie` headers is one.
pub proof fn law_no_other_cookies(headers: Seq<RawHeaderView>, name: Seq<char>)
    requires
        forall|j: int, l: int|
            #![trigger split(decode_utf8(headers[j].value), ';')[l]]
            0 <= j < headers.len() && same_text(headers[j].name, "Cookie"@) && valid_utf8(
                headers[j].value,
            ) && 0 <= l < split(decode_utf8(headers[j].value), ';').len() ==> !names_cookie(
                split(decode_utf8(headers[j].value), ';')[l],
                name,
            ),
    ensures
        !cookies_in(headers).contains_key(name),
    decreases headers.len(),
{
    if headers.len() > 0 {
        let init = headers.drop_last();
        let last = headers.last();
        let pieces = split(decode_utf8(last.value), ';');
        let found = cookie_texts(last.value);
        assert forall|j: int, l: int|
            #![trigger split(decode_utf8(init[j].value), ';')[l]]
            0 <= j < init.len() && same_text(init[j].name, "Cookie"@) && valid_utf8(init[j].value)
                && 0 <= l < split(decode_utf8(init[j].value), ';').len() implies !names_cookie(
            split(decode_utf8(init[j].value), ';')[l],
            name,
        ) by {
            assert(init[j] == headers[j]);
            assert(!names_cookie(split(decode_utf8(headers[j].value), ';')[l], name));
        }
        law_no_other_cookies(init, name);
        if same_text(last.name, "Cookie"@) {
            assert forall|l: int| 0 <= l < found.len() implies (cookie_of(
                #[trigger] found[l],
            ) matches Some((n, _)) ==> n != name) by {
                assert(headers[headers.len() - 1] == last);
                assert(found[l] == trimmed(pieces[l]));
                assert(!names_cookie(
                    split(decode_utf8(headers[headers.len() - 1].value), ';')[l],
                    name,
                ));
            }
            lemma_other_cookies(cookies_in(init), found, name);
        }
    }
}

/// A `Cookie` header whose whole value is one cookie puts that cookie in.
pub proof fn law_single_cookie(headers: Seq<RawHeaderView>, h: RawHeaderView, name: Seq<char>, value: Seq<char>)
    requires
        same_text(h.name, "Cookie"@),
        valid_utf8(h.value),
        !decode_utf8(h.value).contains(';'),
        cookie_of(trimmed(decode_utf8(h.value))) == Some((name, value)),
    ensures
        cookies_in(headers.push(h)).contains_pair(name, value),
{
    let all = headers.push(h);
    law_split(decode_utf8(h.value), Seq::empty(), ';');
    assert(all[headers.len() as int] == h);
    law_cookies_of_headers(all, headers.len() as int, 0, name, value);
}

/// The fields of the query are those of its names and values, in their order.
pub proof fn law_fields_of_pairs(v: RequestView, i: int)
    requires
        0 <= i < query_pairs(v.uri.query).len(),
    ensures
        fields_of(v).len() == query_pairs(v.uri.query).len(),
        fields_of(v)[i].name == first_part(query_pairs(v.uri.query)[i].0),
        fields_of(v)[i].value == query_pairs(v.uri.query)[i].1,
{
}

/// A cached value that was found is what a call for it gives. Where none was found, it gives what is
/// there once a value that the call made has been put in.
pub proof fn law_cached_or_made<T: Send + Sync + 'static, F: FnOnce() -> T>(
    cache: LocalCache,
    f: F,
    found: &T,
    made: T,
    reply: (bool, &T),
)
    ensures
        found_in(cache, Some(found)) ==> cached_or_made(cache, f, found),
        found_in::<T>(cache, None) && f.ensures((), made) && put_into(cache, made, reply) && (reply.0
            ==> *reply.1 == made) ==> cached_or_made(cache, f, reply.1),
{
}

/// A call for a cached value gives nothing that was neither found nor put in.
pub proof fn law_cached_or_made_only<T: Send + Sync + 'static, F: FnOnce() -> T>(
    cache: LocalCache,
    f: F,
    r: &T,
)
    requires
        cached_or_made(cache, f, r),
    ensures
        (exists|found: &T| #[trigger] found_in(cache, Some(found)) && *found == *r) || (exists|
            made: T,
            reply: (bool, &T),
        |
            f.ensures((), made) && #[trigger] put_into(cache, made, reply) && *reply.1 == *r && (
            reply.0 ==> *r == made)),
        (forall|found: &T| !(#[trigger] found_in(cache, Some(found)))) ==> found_in::<T>(cache, None),
{
}

/// A head is in order exactly if its method is known and its URI has a path.
pub proof fn law_errors(p: PartsView)
    ensures
        errors_in(p).len() == 0 <==> method_of(p.method) is Some && p.path_and_query is Some,
{
}

/// The values of the raw headers of a name that are UTF-8, in their order.
pub open spec fn raw_values(headers: Seq<RawHeaderView>, name: Seq<char>) -> Seq<Seq<char>>
    decreases headers.len(),
{
    if headers.len() == 0 {
        Seq::empty()
    } else {
        let init = raw_values(headers.drop_last(), name);
        let h = headers.last();
        if same_text(name, h.name) && valid_utf8(h.value) {
            init.push(decode_utf8(h.value))
        } else {
            init
        }
    }
}

/// A request has the headers of its head: under every name the values that are UTF-8, in their
/// order.
pub proof fn law_described_headers(
    v: RequestView,
    rocket: Rocket,
    p: PartsView,
    connection: ConnectionMeta,
    name: Seq<char>,
)
    requires
        is_described(v, rocket, p, connection),
    ensures
        header_values(v.headers, name) == raw_values(p.headers, name),
{
    lemma_raw_headers(described_bare(rocket, p, connection, v.cache), p.headers, name);
}

/// Everything else of a request is what its head says as well, with `GET` and `/` in place of what
/// is wrong. It is not routed yet, and no cookies are pending.
pub proof fn law_described_rest(
    v: RequestView,
    rocket: Rocket,
    p: PartsView,
    connection: ConnectionMeta,
)
    requires
        is_described(v, rocket, p, connection),
    ensures
        v.method == (match method_of(p.method) {
            Some(m) => m,
            None => Method::Get,
        }),
        v.uri == (match p.path_and_query {
            Some((path, query)) => OriginView { path, query },
            None => OriginView { path: seq!['/'], query: None },
        }),
        v.version == p.version,
        v.errors == errors_in(p),
        v.connection == connection,
        v.rocket == rocket,
        v.route is None,
        v.host == host_in(p),
        v.cookies.originals == cookies_in(p.headers),
        v.cookies.pending == Map::<Seq<char>, Seq<char>>::empty(),
{
    lemma_raw_headers_frame(described_bare(rocket, p, connection, v.cache), p.headers);
}

/// A request that has just come in is in a secure context exactly if the application serves over TLS
/// or a header says that the client of a proxy used HTTPS.
pub proof fn law_described_secure(
    v: RequestView,
    rocket: Rocket,
    p: PartsView,
    connection: ConnectionMeta,
)
    requires
        is_described(v, rocket, p, connection),
    ensures
        v.cookies.secure <==> rocket.tls_enabled || exists|i: int|
            0 <= i < p.headers.len() && is_raw_sign(rocket, #[trigger] p.headers[i]),
{
    lemma_raw_secure(described_bare(rocket, p, connection, v.cache), p.headers);
}

/// Whether a raw header is a sign that the connection is secure.
pub open spec fn is_raw_sign(rocket: Rocket, h: RawHeaderView) -> bool {
    valid_utf8(h.value) && is_secure_sign(
        rocket,
        HeaderView { name: h.name, value: decode_utf8(h.value) },
    )
}

/// What adding raw headers to a request without headers does to it.
proof fn lemma_raw_headers(v: RequestView, headers: Seq<RawHeaderView>, name: Seq<char>)
    requires
        v.headers == Seq::<EntryView>::empty(),
    ensures
        well_formed(with_raw_headers(v, headers).headers),
        header_values(with_raw_headers(v, headers).headers, name) == raw_values(headers, name),
    decreases headers.len(),
{
    if headers.len() > 0 {
        let init = headers.drop_last();
        lemma_raw_headers(v, init, name);
        let h = headers.last();
        if valid_utf8(h.value) {
            law_added(
                with_raw_headers(v, init).headers,
                HeaderView { name: h.name, value: decode_utf8(h.value) },
                name,
            );
        }
    }
}

/// When adding raw headers puts a request into a secure context.
proof fn lemma_raw_secure(v: RequestView, headers: Seq<RawHeaderView>)
    ensures
        with_raw_headers(v, headers).rocket == v.rocket,
        with_raw_headers(v, headers).cookies.secure <==> v.cookies.secure || exists|i: int|
            0 <= i < headers.len() && is_raw_sign(v.rocket, #[trigger] headers[i]),
    decreases headers.len(),
{
    if headers.len() > 0 {
        let init = headers.drop_last();
        lemma_raw_secure(v, init);
        if exists|i: int| 0 <= i < init.len() && is_raw_sign(v.rocket, #[trigger] init[i]) {
            let i = choose|i: int| 0 <= i < init.len() && is_raw_sign(v.rocket, #[trigger] init[i]);
            assert(is_raw_sign(v.rocket, headers[i]));
        }
        if exists|i: int| 0 <= i < headers.len() && is_raw_sign(v.rocket, #[trigger] headers[i]) {
            let i = choose|i: int|
                0 <= i < headers.len() && is_raw_sign(v.rocket, #[trigger] headers[i]);
            if i < init.len() {
                assert(is_raw_sign(v.rocket, init[i]));
            } else {
                assert(headers[i] == headers.last());
            }
        }
        assert(headers[headers.len() - 1] == headers.last());
    }
}

/// Of the cookies of one name the last one counts, and texts that are no cookies make no difference.
pub proof fn law_last_cookie_counts(
    jar: Map<Seq<char>, Seq<char>>,
    cookies: Seq<Seq<char>>,
    name: Seq<char>,
    value: Seq<char>,
    i: int,
)
    requires
        0 <= i < cookies.len(),
        cookie_of(cookies[i]) == Some((name, value)),
        forall|k: int|
            i < k < cookies.len() ==> (cookie_of(#[trigger] cookies[k]) matches Some((n, _))
                ==> n != name),
    ensures
        with_cookie_texts(jar, cookies).contains_pair(name, value),
    decreases cookies.len(),
{
    if i < cookies.len() - 1 {
        let init = cookies.drop_last();
        assert(init[i] == cookies[i]);
        assert forall|k: int| i < k < init.len() implies (cookie_of(#[trigger] init[k]) matches Some(
            (n, _),
        ) ==> n != name) by {
            assert(init[k] == cookies[k]);
        }
        law_last_cookie_counts(jar, init, name, value, i);
        assert(cookies.last() == cookies[cookies.len() - 1]);
    }
}

/// The spelling of the two known protocols makes no difference.
pub proof fn law_proto_ignores_case(a: Seq<char>, b: Seq<char>)
    requires
        same_text(a, b),
    ensures
        proto_of(a) is Http <==> proto_of(b) is Http,
        proto_of(a) is Https <==> proto_of(b) is Https,
{
}

} // verus!
