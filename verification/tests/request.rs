//! Requests that are made and changed by hand.
use request::accept::parse_accept;
use request::connection::{Certificates, ConnectionMeta, Endpoint, SocketAddr};
use request::cookies::Cookie;
use request::form::{Empty, FromForm, FromParam, FromSegments, Options, ValueField};
use request::header::Header;
use request::host::Host;
use request::ip::IpAddr;
use request::media_type::{parse_media_type, ContentType, MediaType};
use request::method::{HttpVersion, Method};
use request::proxy::ProxyProto;
use request::request::{cache_step, CacheStep, Request};
use request::rocket::{Config, Limits, Rocket, Route};
use request::uri::{Origin, Segments};

fn rocket(proto_header: Option<&str>, tls_enabled: bool) -> Rocket {
    Rocket {
        config: Config {
            ip_header: Some("X-Real-IP".to_string()),
            proxy_proto_header: proto_header.map(|h| h.to_string()),
            limits: Limits { limits: vec![("form".to_string(), 32768)] },
        },
        tls_enabled,
    }
}

fn origin(uri: &str) -> Origin {
    match uri.split_once('?') {
        Some((path, query)) => Origin::new(path, Some(query)),
        None => Origin::new(uri, None),
    }
}

fn get<'r>(rocket: &'r Rocket, uri: &str) -> Request<'r> {
    Request::new(rocket, Method::Get, origin(uri), None)
}

fn post<'r>(rocket: &'r Rocket, uri: &str) -> Request<'r> {
    Request::new(rocket, Method::Post, origin(uri), None)
}

fn text(m: &MediaType) -> String {
    format!("{}/{}", m.top, m.sub)
}

fn content_type(request: &mut Request<'_>) -> Option<String> {
    request.content_type().map(|c| text(c.media_type()))
}

fn accept(request: &mut Request<'_>) -> Option<Vec<String>> {
    request.accept().map(|a| a.types.iter().map(|t| text(&t.media_type)).collect())
}

fn format_of(request: &Request<'_>) -> Option<String> {
    request.format().map(|m| text(&m))
}

/// A segment that is a number.
#[derive(Debug, PartialEq)]
struct Number(usize);

impl<'a> FromParam<'a> for Number {
    type Error = String;

    fn from_param(param: &'a str) -> Result<Number, String> {
        param.parse().map(Number).map_err(|_| param.to_string())
    }
}

/// The rest of a path, joined by slashes; an empty last segment is left out.
#[derive(Debug, PartialEq)]
struct Rest(String);

impl<'a> FromSegments<'a> for Rest {
    type Error = ();

    fn from_segments(segments: Segments<'a>) -> Result<Rest, ()> {
        let all: Vec<&str> = (0..segments.len()).filter_map(|i| segments.get(i)).collect();
        let all: Vec<&str> = all.into_iter().filter(|s| !s.is_empty()).collect();
        Ok(Rest(all.join("/")))
    }
}

/// The value of the first field.
#[derive(Debug, PartialEq)]
struct First(String);

impl FromForm for First {
    type Context = Option<String>;
    type Error = String;

    fn init(options: Options) -> Option<String> {
        assert_eq!(options, Options::Lenient);
        None
    }

    fn push_value(context: Option<String>, field: ValueField) -> Option<String> {
        Some(context.unwrap_or(field.value))
    }

    fn finalize(context: Option<String>) -> Result<First, String> {
        context.map(First).ok_or("missing".to_string())
    }
}

/// All the values.
#[derive(Debug, PartialEq)]
struct All(Vec<String>);

impl FromForm for All {
    type Context = Vec<String>;
    type Error = String;

    fn init(_: Options) -> Vec<String> {
        vec![]
    }

    fn push_value(mut context: Vec<String>, field: ValueField) -> Vec<String> {
        context.push(field.value);
        context
    }

    fn finalize(context: Vec<String>) -> Result<All, String> {
        Ok(All(context))
    }
}

/// A value with two named parts.
#[derive(Debug, PartialEq)]
struct Dog {
    name: String,
    age: usize,
}

impl FromForm for Dog {
    type Context = (Option<String>, Option<usize>);
    type Error = String;

    fn init(_: Options) -> Self::Context {
        (None, None)
    }

    fn push_value(context: Self::Context, field: ValueField) -> Self::Context {
        match field.name.key() {
            "name" => (Some(field.value), context.1),
            "age" => (context.0, field.value.parse().ok()),
            _ => context,
        }
    }

    fn finalize(context: Self::Context) -> Result<Dog, String> {
        match context {
            (Some(name), Some(age)) => Ok(Dog { name, age }),
            _ => Err("incomplete".to_string()),
        }
    }
}

const LOCALHOST: IpAddr = IpAddr::V4([127, 0, 0, 1]);

#[test]
fn a_new_request_is_empty() {
    let rocket = rocket(None, false);
    let request = get(&rocket, "/");
    assert!(request.headers().is_empty());
    assert_eq!(request.version(), None);
    assert!(request.host().is_none());
    assert!(request.remote().is_none());
    assert!(request.route().is_none());
    assert!(request.errors().is_empty());
    assert_eq!(request.cookies().get("a"), None);
}

#[test]
fn version_is_the_given_one() {
    let rocket = rocket(None, false);
    let request = Request::new(&rocket, Method::Get, origin("/"), Some(HttpVersion::Http11));
    assert_eq!(request.version(), Some(HttpVersion::Http11));
}

#[test]
fn method_is_the_given_one() {
    let rocket = rocket(None, false);
    assert_eq!(get(&rocket, "/").method(), Method::Get);
    assert_eq!(post(&rocket, "/").method(), Method::Post);
}

#[test]
fn method_can_be_set() {
    let rocket = rocket(None, false);
    let mut request = get(&rocket, "/");
    assert_eq!(request.method(), Method::Get);
    request.set_method(Method::Post);
    assert_eq!(request.method(), Method::Post);
    request._set_method(Method::Put);
    assert_eq!(request.method(), Method::Put);
}

#[test]
fn uri_has_a_path_and_a_query() {
    let rocket = rocket(None, false);
    assert_eq!(get(&rocket, "/hello/rocketeer").uri().path(), "/hello/rocketeer");
    assert_eq!(get(&rocket, "/hello").uri().query(), None);
}

#[test]
fn uri_can_be_set() {
    let rocket = rocket(None, false);
    let mut request = get(&rocket, "/");
    request.set_uri(origin("/hello/Sergio?type=greeting"));
    assert_eq!(request.uri().path(), "/hello/Sergio");
    assert_eq!(request.uri().query(), Some("type=greeting"));

    let path = format!("/foo{}", request.uri().path());
    let new_uri = Origin::new(&path, request.uri().query());
    request.set_uri(new_uri);
    assert_eq!(request.uri().path(), "/foo/hello/Sergio");
    assert_eq!(request.uri().query(), Some("type=greeting"));
}

#[test]
fn host_can_be_set() {
    let rocket = rocket(None, false);
    let mut request = get(&rocket, "/");
    assert!(request.host().is_none());

    request.set_host(Host::new("rocket.rs", None));
    assert_eq!(request.host().unwrap().domain(), "rocket.rs");
    assert_eq!(request.host().unwrap().port(), None);

    request.set_host(Host::new("rocket.rs", Some(2392)));
    assert_eq!(request.host().unwrap().domain(), "rocket.rs");
    assert_eq!(request.host().unwrap().port(), Some(2392));

    request.set_host(Host::parse("rocket.rs:443").unwrap());
    assert_eq!(request.host().unwrap().domain(), "rocket.rs");
    assert_eq!(request.host().unwrap().port(), Some(443));

    // The header of that name has no influence on it any more.
    request.add_header(Header::new("Host", "other.rs"));
    assert_eq!(request.host().unwrap().domain(), "rocket.rs");
}

#[test]
fn hosts_compare_without_case() {
    let rocket = rocket(None, false);
    let mut request = get(&rocket, "/");
    request.set_host(Host::new("ROCKET.rs", None));
    assert!(request.host().unwrap().is_same(&Host::new("rocket.rs", None)));
    assert!(!request.host().unwrap().is_same(&Host::new("rocket.rs", Some(443))));
    request.set_host(Host::new("attacker-controlled.com", None));
    assert!(!request.host().unwrap().is_same(&Host::new("rocket.rs", None)));
}

#[test]
fn remote_can_be_set() {
    let rocket = rocket(None, false);
    let mut request = get(&rocket, "/");
    assert!(request.remote().is_none());

    let localhost = SocketAddr { ip: LOCALHOST, port: 8111 };
    request.set_remote(Endpoint::Tcp(localhost));
    assert_eq!(request.remote().unwrap().tcp().unwrap(), localhost);

    request.set_remote(Endpoint::Tls(Box::new(Endpoint::Tcp(localhost))));
    assert_eq!(request.remote().unwrap().tcp().unwrap(), localhost);

    request.set_remote(Endpoint::Unix("/run/socket".to_string()));
    assert!(request.remote().unwrap().tcp().is_none());
    assert_eq!(request.client_ip(), None);
}

#[test]
fn real_ip_is_in_the_configured_header() {
    let rocket = rocket(None, false);
    let mut request = get(&rocket, "/");
    assert_eq!(request.real_ip(), None);
    request.add_header(Header::new("x-real-ip", "127.0.0.1"));
    assert_eq!(request.real_ip(), Some(LOCALHOST));
    request.replace_header(Header::new("X-Real-IP", "not an address"));
    assert_eq!(request.real_ip(), None);
    request.replace_header(Header::new("X-Real-IP", "::1"));
    assert_eq!(request.real_ip(), Some(IpAddr::V6([0, 0, 0, 0, 0, 0, 0, 1])));
}

#[test]
fn real_ip_needs_a_configured_header() {
    let mut rocket = rocket(None, false);
    rocket.config.ip_header = None;
    let mut request = get(&rocket, "/");
    request.add_header(Header::new("X-Real-IP", "127.0.0.1"));
    assert_eq!(request.real_ip(), None);
}

#[test]
fn proxy_proto_is_in_the_configured_header() {
    let plain = rocket(None, false);
    let mut request = get(&plain, "/");
    request.add_header(Header::new("x-forwarded-proto", "https"));
    assert!(request.proxy_proto().is_none());

    let rocket = rocket(Some("x-forwarded-proto"), false);
    let mut request = get(&rocket, "/");
    assert!(request.proxy_proto().is_none());
    request.add_header(Header::new("x-forwarded-proto", "https"));
    assert!(matches!(request.proxy_proto(), Some(ProxyProto::Https)));

    let mut request = get(&rocket, "/");
    request.add_header(Header::new("X-Forwarded-Proto", "HTTP"));
    assert!(matches!(request.proxy_proto(), Some(ProxyProto::Http)));

    let mut request = get(&rocket, "/");
    request.add_header(Header::new("x-forwarded-proto", "xproto"));
    match request.proxy_proto() {
        Some(ProxyProto::Unknown(name)) => assert_eq!(name, "xproto"),
        _ => panic!("not an unknown protocol"),
    }
}

#[test]
fn context_is_secure_behind_an_https_proxy() {
    let plain = rocket(None, false);
    let mut request = get(&plain, "/");
    request.add_header(Header::new("x-forwarded-proto", "https"));
    assert_eq!(request.context_is_likely_secure(), false);

    let rocket = rocket(Some("x-forwarded-proto"), false);
    let mut request = get(&rocket, "/");
    assert_eq!(request.context_is_likely_secure(), false);
    request.add_header(Header::new("x-forwarded-proto", "https"));
    assert_eq!(request.context_is_likely_secure(), true);
}

#[test]
fn context_is_secure_over_tls() {
    let rocket = rocket(Some("x-forwarded-proto"), true);
    let mut request = get(&rocket, "/");
    assert_eq!(request.context_is_likely_secure(), true);
    request.add_header(Header::new("x-forwarded-proto", "http"));
    assert_eq!(request.context_is_likely_secure(), true);
}

#[test]
fn secure_context_is_not_taken_back_by_an_added_header() {
    let rocket = rocket(Some("x-forwarded-proto"), false);
    let mut request = get(&rocket, "/");
    request.add_header(Header::new("X-FORWARDED-PROTO", "HTTPS"));
    assert_eq!(request.context_is_likely_secure(), true);
    request.add_header(Header::new("x-forwarded-proto", "http"));
    assert_eq!(request.context_is_likely_secure(), true);
    request.replace_header(Header::new("x-other", "http"));
    assert_eq!(request.context_is_likely_secure(), true);
}

#[test]
fn replaced_proxy_header_decides_the_context() {
    let plain = rocket(Some("x-forwarded-proto"), false);
    let mut request = get(&plain, "/");
    request.add_header(Header::new("x-forwarded-proto", "https"));
    request.replace_header(Header::new("x-forwarded-proto", "http"));
    assert!(matches!(request.proxy_proto(), Some(ProxyProto::Http)));
    assert_eq!(request.context_is_likely_secure(), false);
    request.replace_header(Header::new("X-Forwarded-Proto", "HTTPS"));
    assert_eq!(request.context_is_likely_secure(), true);

    let tls = rocket(Some("x-forwarded-proto"), true);
    let mut request = get(&tls, "/");
    request.replace_header(Header::new("x-forwarded-proto", "http"));
    assert_eq!(request.context_is_likely_secure(), true);
}

#[test]
fn any_header_can_tell_the_protocol() {
    for name in ["accept", "content-type"] {
        let rocket = rocket(Some(name), false);
        let mut request = get(&rocket, "/");
        request.add_header(Header::new(name, "https"));
        assert!(matches!(request.proxy_proto(), Some(ProxyProto::Https)));
        assert_eq!(request.context_is_likely_secure(), true);
    }
}

#[test]
fn client_ip_prefers_the_header() {
    let rocket = rocket(None, false);
    let mut request = get(&rocket, "/");
    assert!(request.client_ip().is_none());
    request.set_remote(Endpoint::Tcp(SocketAddr { ip: LOCALHOST, port: 9190 }));
    assert_eq!(request.client_ip(), Some(LOCALHOST));
    request.add_header(Header::new("X-Real-IP", "8.8.8.8"));
    assert_eq!(request.client_ip(), Some(IpAddr::V4([8, 8, 8, 8])));
    request.replace_header(Header::new("X-Real-IP", "8.8.8"));
    assert_eq!(request.client_ip(), Some(LOCALHOST));
}

#[test]
fn cookies_can_be_added() {
    let rocket = rocket(None, false);
    let mut request = get(&rocket, "/");
    request.cookies_mut().add(Cookie::new("key", "val"));
    request.cookies_mut().add(Cookie::new("ans", &format!("life: {}", 38 + 4)));
    assert_eq!(request.cookies().get_pending("key"), Some("val"));
    assert_eq!(request.cookies().get_pending("ans"), Some("life: 42"));
    assert_eq!(request.cookies().get("key"), None);
    assert_eq!(request.cookies().get_pending("KEY"), None);
}

#[test]
fn headers_are_counted_by_value() {
    let rocket = rocket(None, false);
    let mut request = get(&rocket, "/");
    assert!(request.headers().is_empty());
    request.add_header(Header::new("Accept", "text/html"));
    request.add_header(Header::new("Content-Type", "text/html"));
    assert_eq!(request.headers().len(), 2);
    assert!(request.headers().contains("content-type"));
    request.add_header(Header::new("ACCEPT", "text/plain"));
    assert_eq!(request.headers().len(), 3);
    assert_eq!(request.headers().get_one("accept"), Some("text/html"));
}

#[test]
fn add_header_adds_one() {
    let rocket = rocket(None, false);
    let mut request = get(&rocket, "/");
    assert!(request.headers().is_empty());
    request.add_header(Header::new("Content-Type", "text/html"));
    assert!(request.headers().contains("Content-Type"));
    assert_eq!(request.headers().len(), 1);
}

/// Something else than a header that turns into one.
struct Token(u32);

impl From<Token> for Header {
    fn from(token: Token) -> Header {
        Header::new("X-Token", &format!("{}", token.0))
    }
}

#[test]
fn headers_can_come_of_other_values() {
    let rocket = rocket(None, false);
    let mut request = get(&rocket, "/");
    request.add_header(Token(1));
    request.replace_header(Token(23));
    assert_eq!(request.headers().get_one("x-token"), Some("23"));
    assert_eq!(request.headers().len(), 1);
}

#[test]
fn media_types_turn_into_headers() {
    let rocket = rocket(None, false);
    let mut request = get(&rocket, "/");
    request.add_header(ContentType { media_type: MediaType::any() });
    assert_eq!(request.headers().get_one("Content-Type"), Some("*/*"));
    assert_eq!(content_type(&mut request), Some("*/*".to_string()));

    let png = parse_media_type("image/png;a=b;  c=\"d \\\" e\"").unwrap();
    request.replace_header(ContentType { media_type: png });
    assert_eq!(
        request.headers().get_one("Content-Type"),
        Some("image/png; a=b; c=\"d \\\" e\"")
    );
    assert_eq!(content_type(&mut request), Some("image/png".to_string()));

    request.add_header(parse_accept("text/html,a/b;q=0.5").unwrap());
    assert_eq!(request.headers().get_one("Accept"), Some("text/html, a/b; q=0.5"));
    let both = vec!["text/html".to_string(), "a/b".to_string()];
    assert_eq!(accept(&mut request), Some(both));
    assert_eq!(format_of(&request), Some("text/html".to_string()));
}

#[test]
fn replace_header_replaces_all_values() {
    let rocket = rocket(None, false);
    let mut request = get(&rocket, "/");
    request.add_header(Header::new("Content-Type", "*/*"));
    assert_eq!(request.headers().get_one("Content-Type"), Some("*/*"));
    assert_eq!(content_type(&mut request), Some("*/*".to_string()));

    request.replace_header(Header::new("Content-Type", "image/png"));
    assert_eq!(request.headers().get_one("Content-Type"), Some("image/png"));
    assert_eq!(content_type(&mut request), Some("image/png".to_string()));
    assert_eq!(request.headers().len(), 1);

    request.replace_header(Header::new("X-New", "1"));
    assert_eq!(request.headers().get_one("x-new"), Some("1"));
}

#[test]
fn content_type_comes_of_the_first_header() {
    let rocket = rocket(None, false);
    let mut request = get(&rocket, "/");
    assert_eq!(content_type(&mut request), None);
    request.add_header(Header::new("content-type", "application/json"));
    assert_eq!(content_type(&mut request), Some("application/json".to_string()));
    assert_eq!(content_type(&mut request), Some("application/json".to_string()));
    request.add_header(Header::new("Content-Type", "text/html"));
    assert_eq!(content_type(&mut request), Some("application/json".to_string()));
    request.replace_header(Header::new("CONTENT-TYPE", "text/html; charset=utf-8"));
    let params: Vec<String> = match request.content_type() {
        Some(c) => c.media_type().params.iter().map(|p| p.value.clone()).collect(),
        None => panic!("no content type"),
    };
    assert_eq!(params, vec!["utf-8".to_string()]);
    request.replace_header(Header::new("Content-Type", "nothing of the kind"));
    assert_eq!(content_type(&mut request), None);
    request.add_header(Header::new("Content-Type", "text/html"));
    assert_eq!(content_type(&mut request), None);
}

#[test]
fn accept_comes_of_the_first_header() {
    let rocket = rocket(None, false);
    let mut request = get(&rocket, "/");
    assert_eq!(accept(&mut request), None);
    request.add_header(Header::new("Accept", "application/json"));
    assert_eq!(accept(&mut request), Some(vec!["application/json".to_string()]));
    request.add_header(Header::new("Accept", "text/html"));
    assert_eq!(accept(&mut request), Some(vec!["application/json".to_string()]));
    request.replace_header(Header::new("accept", "text/html, image/png; q=0.5"));
    let both = vec!["text/html".to_string(), "image/png".to_string()];
    assert_eq!(accept(&mut request), Some(both));
}

#[test]
fn format_without_a_body_is_the_accepted_one() {
    let rocket = rocket(None, false);
    let mut request = get(&rocket, "/");
    request.add_header(Header::new("Accept", "text/html"));
    assert_eq!(format_of(&request), Some("text/html".to_string()));

    let mut request = get(&rocket, "/");
    request.add_header(Header::new("Content-Type", "application/json"));
    request.add_header(Header::new("Accept", "text/html"));
    assert_eq!(format_of(&request), Some("text/html".to_string()));

    let mut request = get(&rocket, "/");
    request.add_header(Header::new("Accept", "text/html; q=0.1, image/png; q=0.9, a/b; q=0.5"));
    assert_eq!(format_of(&request), Some("image/png".to_string()));
}

#[test]
fn format_with_a_body_is_the_content_type() {
    let rocket = rocket(None, false);
    let mut request = post(&rocket, "/");
    request.add_header(Header::new("Content-Type", "text/html"));
    assert_eq!(format_of(&request), Some("text/html".to_string()));

    let mut request = post(&rocket, "/");
    request.add_header(Header::new("Content-Type", "application/json"));
    request.add_header(Header::new("Accept", "text/html"));
    assert_eq!(format_of(&request), Some("application/json".to_string()));

    assert_eq!(format_of(&post(&rocket, "/")), None);
}

#[test]
fn format_without_anything_is_any() {
    let rocket = rocket(None, false);
    assert_eq!(format_of(&get(&rocket, "/")), Some("*/*".to_string()));
    // A body is possible with this one, but not certain.
    let mut request = Request::new(&rocket, Method::Delete, origin("/"), None);
    request.add_header(Header::new("Content-Type", "text/html"));
    assert_eq!(format_of(&request), Some("*/*".to_string()));
}

#[test]
fn rocket_and_limits_are_those_of_the_application() {
    let rocket = rocket(Some("p"), true);
    let request = get(&rocket, "/");
    assert!(request.rocket().tls_enabled);
    assert_eq!(request.rocket().config().proxy_proto_header, Some("p".to_string()));
    assert_eq!(request.limits().limits, vec![("form".to_string(), 32768)]);
}

#[test]
fn route_is_the_one_that_was_set() {
    let rocket = rocket(None, false);
    let first = Route { base_len: 1, name: Some("first".to_string()) };
    let second = Route { base_len: 2, name: None };
    let mut request = get(&rocket, "/a/b/c");
    assert!(request.route().is_none());
    request.set_route(&first);
    assert_eq!(request.route().unwrap().name, Some("first".to_string()));
    request.set_route(&second);
    assert_eq!(request.route().unwrap().base_len, 2);
}

#[test]
fn local_cache_keeps_the_first_value() {
    let rocket = rocket(None, false);
    let request = get(&rocket, "/");
    assert_eq!(request.cached::<&str>(), None);
    assert_eq!(*request.local_cache(|| "hello"), "hello");
    assert_eq!(*request.local_cache(|| "hello"), "hello");
    assert_eq!(*request.local_cache(|| "goodbye"), "hello");
    assert_eq!(request.cached::<&str>(), Some(&"hello"));
    // Another type has a place of its own.
    assert_eq!(*request.local_cache(|| 5u8), 5);
}

#[test]
fn local_cache_does_not_call_what_it_does_not_need() {
    let rocket = rocket(None, false);
    let request = get(&rocket, "/");
    assert_eq!(request.cache(1u32), (true, &1));
    assert_eq!(request.cache(2u32), (false, &1));
    let value: &u32 = request.local_cache(|| panic!("called"));
    assert_eq!(*value, 1);
}

#[test]
fn cache_step_makes_a_value_only_if_there_is_none() {
    let there: u8 = 3;
    match cache_step(Some(&there), || panic!("called")) {
        CacheStep::Found(v) => assert_eq!(*v, 3),
        CacheStep::Store(_) => panic!("stored"),
    }
    match cache_step(None::<&u8>, || 4u8) {
        CacheStep::Found(_) => panic!("found"),
        CacheStep::Store(v) => assert_eq!(v, 4),
    }
}

#[test]
fn clones_share_the_cache() {
    let rocket = rocket(None, false);
    let request = get(&rocket, "/");
    let clone = request.clone();
    assert_eq!(*request.local_cache(|| 1u64), 1);
    assert_eq!(*clone.local_cache(|| 2u64), 1);
}

#[test]
fn clones_say_the_same() {
    let rocket = rocket(Some("p"), false);
    let route = Route { base_len: 1, name: None };
    let mut request = post(&rocket, "/a/b?c=d");
    request.set_host(Host::new("rocket.rs", Some(1)));
    request.set_remote(Endpoint::Quic(SocketAddr { ip: LOCALHOST, port: 2 }));
    request.set_route(&route);
    request.add_header(Header::new("Content-Type", "text/html"));
    request.add_header(Header::new("p", "https"));
    request.cookies_mut().add_original(Cookie::new("a", "b"));
    request.cookies_mut().add(Cookie::new("c", "d"));
    assert_eq!(content_type(&mut request), Some("text/html".to_string()));

    let mut clone = request.clone();
    assert_eq!(clone.method(), Method::Post);
    assert_eq!(clone.uri().path(), "/a/b");
    assert_eq!(clone.uri().query(), Some("c=d"));
    assert_eq!(clone.host().unwrap().port(), Some(1));
    assert_eq!(clone.client_ip(), Some(LOCALHOST));
    assert!(clone.remote().unwrap().tcp().is_none());
    assert_eq!(clone.route().unwrap().base_len, 1);
    assert_eq!(clone.headers().len(), 2);
    assert!(clone.context_is_likely_secure());
    assert_eq!(clone.cookies().get("a"), Some("b"));
    assert_eq!(clone.cookies().get_pending("c"), Some("d"));
    assert_eq!(content_type(&mut clone), Some("text/html".to_string()));
    assert_eq!(clone.query_value::<First>("c"), Some(Ok(First("d".to_string()))));

    // What is done to the one is not done to the other.
    clone.replace_header(Header::new("Content-Type", "image/png"));
    clone.set_method(Method::Put);
    assert_eq!(content_type(&mut clone), Some("image/png".to_string()));
    assert_eq!(content_type(&mut request), Some("text/html".to_string()));
    assert_eq!(request.method(), Method::Post);
}

#[test]
fn param_is_made_of_a_segment() {
    let rocket = rocket(None, false);
    let request = get(&rocket, "/a/b/c");
    assert_eq!(request.param(0), Some(Ok("a")));
    assert_eq!(request.param(1), Some(Ok("b")));
    assert_eq!(request.param(2), Some(Ok("c")));
    assert_eq!(request.param::<&str>(3), None);

    let request = get(&rocket, "/1/b/3");
    assert_eq!(request.param(0), Some(Ok(Number(1))));
    assert!(request.param::<Number>(1).unwrap().is_err());
    assert_eq!(request.param(2), Some(Ok(Number(3))));

    assert_eq!(get(&rocket, "/").param::<&str>(0), Some(Err(Empty)));
}

#[test]
fn segments_are_made_of_the_rest() {
    let rocket = rocket(None, false);
    let rest = |s: &str| Ok(Rest(s.to_string()));
    assert_eq!(get(&rocket, "/").segments(0..), rest(""));
    assert_eq!(get(&rocket, "/").segments(2..), rest(""));
    assert_eq!(get(&rocket, "///").segments(2..), rest(""));
    assert_eq!(get(&rocket, "/a/b/c").segments(0..), rest("a/b/c"));
    assert_eq!(get(&rocket, "/a/b/c").segments(1..), rest("b/c"));
    assert_eq!(get(&rocket, "/a/b/c").segments(2..), rest("c"));
    assert_eq!(get(&rocket, "/a/b/c").segments(3..), rest(""));
    assert_eq!(get(&rocket, "/a/b/c").segments(4..), rest(""));
}

#[test]
fn routed_segments_start_after_the_mount_point() {
    let rocket = rocket(None, false);
    let route = Route { base_len: 1, name: None };
    let mut request = get(&rocket, "/a/b//c%20d/");
    assert_eq!(request.routed_segment(0), Some("a"));
    assert_eq!(request.routed_segments(0..).len(), 4);
    request.set_route(&route);
    assert_eq!(request.routed_segment(0), Some("b"));
    assert_eq!(request.routed_segment(1), Some("c d"));
    assert_eq!(request.routed_segment(2), Some(""));
    assert_eq!(request.routed_segment(3), None);
    assert_eq!(request.routed_segments(1..).get(0), Some("c d"));
    assert_eq!(request.routed_segments(7..).len(), 0);
}

#[test]
fn query_value_is_made_of_the_fields_of_a_name() {
    let rocket = rocket(None, false);
    let request = get(&rocket, "/?a=apple&z=zebra&a=aardvark");
    let first = |s: &str| Some(Ok(First(s.to_string())));
    assert_eq!(request.query_value::<First>("a"), first("apple"));
    assert_eq!(request.query_value::<First>("z"), first("zebra"));
    assert_eq!(request.query_value::<First>("b"), None);
    assert_eq!(request.query_value::<First>("A"), None);
    let all = All(vec!["apple".to_string(), "aardvark".to_string()]);
    assert_eq!(request.query_value::<All>("a"), Some(Ok(all)));

    let request = get(&rocket, "/?dog.name=Max+Fido&dog.age=3");
    let dog = Dog { name: "Max Fido".to_string(), age: 3 };
    assert_eq!(request.query_value::<Dog>("dog"), Some(Ok(dog)));

    let request = get(&rocket, "/?dog[name]=Max&dog[age]=old");
    assert_eq!(request.query_value::<Dog>("dog"), Some(Err("incomplete".to_string())));
    assert_eq!(get(&rocket, "/").query_value::<First>("a"), None);
}

#[test]
fn query_fields_are_decoded() {
    let rocket = rocket(None, false);
    let request = get(&rocket, "/?a=1&&b%20c=x+y%2b&d");
    let fields = request.query_fields();
    let values: Vec<String> = fields.iter().map(|f| f.value.clone()).collect();
    let keys: Vec<String> = fields.iter().map(|f| f.name.key().to_string()).collect();
    assert_eq!(keys, vec!["a", "b c", "d"]);
    assert_eq!(values, vec!["1", "x y+", ""]);
}

#[test]
fn connection_without_an_endpoint_is_unknown() {
    let failed = ConnectionMeta::new(Err(std::io::Error::other("closed")), None);
    assert!(failed.peer_endpoint.is_none());
    assert!(failed.peer_certs.is_none());

    let endpoint = Endpoint::Tcp(SocketAddr { ip: LOCALHOST, port: 1 });
    let known = ConnectionMeta::new(Ok(endpoint), Some(Certificates { chain: vec![vec![1, 2]] }));
    assert_eq!(known.peer_endpoint.as_ref().unwrap().ip(), Some(LOCALHOST));
    let clone = known.clone();
    assert_eq!(clone.peer_certs.unwrap().chain, vec![vec![1, 2]]);
}
