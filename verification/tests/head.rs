//! Requests that are described by a head.
use request::connection::{ConnectionMeta, Endpoint, SocketAddr};
use request::error::RequestError;
use request::ip::IpAddr;
use request::method::{HttpVersion, Method};
use request::request::Request;
use request::rocket::{Config, Limits, Rocket};
use request::wire::{read_head, PathAndQuery, RawHeader, RequestParts};

fn rocket(proto_header: Option<&str>) -> Rocket {
    Rocket {
        config: Config {
            ip_header: None,
            proxy_proto_header: proto_header.map(|h| h.to_string()),
            limits: Limits { limits: vec![] },
        },
        tls_enabled: false,
    }
}

fn head(
    method: &str,
    uri: &str,
    version: http::Version,
    headers: &[(&str, &[u8])],
) -> hyper::http::request::Parts {
    let mut builder = http::Request::builder().method(method).uri(uri).version(version);
    for (name, value) in headers {
        builder = builder.header(*name, *value);
    }
    builder.body(()).unwrap().into_parts().0
}

fn parts(method: &str, path: Option<&str>) -> RequestParts {
    RequestParts {
        method: method.to_string(),
        uri: path.unwrap_or("host:80").to_string(),
        path_and_query: path.map(|p| PathAndQuery { path: p.to_string(), query: None }),
        authority_host: None,
        authority_port: None,
        version: Some(HttpVersion::Http11),
        headers: vec![],
    }
}

#[test]
fn head_is_taken_over() {
    let rocket = rocket(None);
    let headers: [(&str, &[u8]); 4] = [
        ("Host", b"user:pass@Rocket.rs:8000"),
        ("X-A", b"1"),
        ("X-A", b"2"),
        ("Content-Type", b"text/html"),
    ];
    let head = head("POST", "/hello/there?a=b&c", http::Version::HTTP_11, &headers);
    let endpoint = Endpoint::Tcp(SocketAddr { ip: IpAddr::V4([1, 2, 3, 4]), port: 5 });
    let connection = ConnectionMeta::new(Ok(endpoint), None);
    let request = match Request::from_hyp(&rocket, &head, connection) {
        Ok(request) => request,
        Err(_) => panic!("refused"),
    };
    assert_eq!(request.method(), Method::Post);
    assert_eq!(request.uri().path(), "/hello/there");
    assert_eq!(request.uri().query(), Some("a=b&c"));
    assert_eq!(request.version(), Some(HttpVersion::Http11));
    assert_eq!(request.host().unwrap().domain(), "Rocket.rs");
    assert_eq!(request.host().unwrap().port(), Some(8000));
    assert_eq!(request.headers().len(), 4);
    assert_eq!(request.headers().get_one("x-a"), Some("1"));
    assert_eq!(request.client_ip(), Some(IpAddr::V4([1, 2, 3, 4])));
    assert_eq!(request.format().unwrap().sub, "html");
    assert!(request.route().is_none());
    assert!(!request.context_is_likely_secure());
}

#[test]
fn versions_are_told_apart() {
    let rocket = rocket(None);
    let all = [
        (http::Version::HTTP_09, HttpVersion::Http09),
        (http::Version::HTTP_10, HttpVersion::Http10),
        (http::Version::HTTP_11, HttpVersion::Http11),
        (http::Version::HTTP_2, HttpVersion::Http2),
        (http::Version::HTTP_3, HttpVersion::Http3),
    ];
    for (wire, ours) in all {
        let head = head("GET", "/", wire, &[]);
        let request = Request::from_hyp(&rocket, &head, ConnectionMeta::default());
        assert_eq!(request.ok().unwrap().version(), Some(ours));
    }
}

#[test]
fn host_is_in_the_authority_from_version_two_on() {
    let rocket = rocket(None);
    let headers: [(&str, &[u8]); 1] = [("Host", b"header.rs")];
    let uri = "https://authority.rs:444/path";

    let new = head("GET", uri, http::Version::HTTP_2, &headers);
    let request = Request::from_hyp(&rocket, &new, ConnectionMeta::default()).ok().unwrap();
    assert_eq!(request.host().unwrap().domain(), "authority.rs");
    assert_eq!(request.host().unwrap().port(), Some(444));
    assert_eq!(request.uri().path(), "/path");

    let old = head("GET", uri, http::Version::HTTP_10, &headers);
    let request = Request::from_hyp(&rocket, &old, ConnectionMeta::default()).ok().unwrap();
    assert_eq!(request.host().unwrap().domain(), "header.rs");
    assert_eq!(request.host().unwrap().port(), None);

    let none = head("GET", "/path", http::Version::HTTP_3, &headers);
    let request = Request::from_hyp(&rocket, &none, ConnectionMeta::default()).ok().unwrap();
    assert!(request.host().is_none());

    let bad: [(&str, &[u8]); 1] = [("Host", b"no host at all")];
    let bad = head("GET", "/path", http::Version::HTTP_11, &bad);
    let request = Request::from_hyp(&rocket, &bad, ConnectionMeta::default()).ok().unwrap();
    assert!(request.host().is_none());
}

#[test]
fn cookies_are_read() {
    let rocket = rocket(None);
    let headers: [(&str, &[u8]); 3] = [
        ("Cookie", b"a=1; b=x%20y ;none; =empty;c=%ff"),
        ("Cookie", b"\xff=1"),
        ("cookie", b"a=2;d = 4"),
    ];
    let head = head("GET", "/", http::Version::HTTP_11, &headers);
    let request = Request::from_hyp(&rocket, &head, ConnectionMeta::default()).ok().unwrap();
    assert_eq!(request.cookies().get("a"), Some("2"));
    assert_eq!(request.cookies().get("b"), Some("x y"));
    assert_eq!(request.cookies().get("c"), None);
    assert_eq!(request.cookies().get("d"), Some("4"));
    assert_eq!(request.cookies().get("none"), None);
    assert_eq!(request.cookies().get(""), None);
    assert_eq!(request.cookies().get_pending("a"), Some("2"));
    // The value that is no text is not among the headers.
    assert_eq!(request.headers().len(), 2);
}

#[test]
fn headers_that_are_no_text_are_dropped() {
    let rocket = rocket(Some("x-proto"));
    let headers: [(&str, &[u8]); 4] =
        [("X-A", b"\xfe"), ("X-A", b"good"), ("X-B", b"\xfe"), ("X-Proto", b"HttpS")];
    let head = head("GET", "/", http::Version::HTTP_11, &headers);
    let request = Request::from_hyp(&rocket, &head, ConnectionMeta::default()).ok().unwrap();
    assert_eq!(request.headers().get_one("X-A"), Some("good"));
    assert!(!request.headers().contains("X-B"));
    assert_eq!(request.headers().len(), 2);
    assert!(request.context_is_likely_secure());
}

#[test]
fn unknown_method_is_an_error() {
    let rocket = rocket(None);
    let head = head("BREW", "/pot", http::Version::HTTP_11, &[]);
    let request = match Request::from_hyp(&rocket, &head, ConnectionMeta::default()) {
        Ok(_) => panic!("accepted"),
        Err(request) => request,
    };
    assert_eq!(request.method(), Method::Get);
    assert_eq!(request.uri().path(), "/pot");
    assert_eq!(request.errors().len(), 1);
    assert!(matches!(request.errors()[0], RequestError::BadMethod(_)));
    assert_eq!(request.errors()[0].message(), "invalid or unrecognized method: BREW");
}

#[test]
fn missing_path_is_an_error() {
    let rocket = rocket(None);
    let head = head("CONNECT", "rocket.rs:80", http::Version::HTTP_11, &[]);
    let request = match Request::from_hyp(&rocket, &head, ConnectionMeta::default()) {
        Ok(_) => panic!("accepted"),
        Err(request) => request,
    };
    assert_eq!(request.method(), Method::Connect);
    assert_eq!(request.uri().path(), "/");
    assert_eq!(request.uri().query(), None);
    assert_eq!(request.errors().len(), 1);
    assert!(matches!(request.errors()[0], RequestError::InvalidUri(_)));
    assert_eq!(request.errors()[0].message(), "invalid origin URI: rocket.rs:80");
}

#[test]
fn all_errors_are_noted_in_order() {
    let rocket = rocket(None);
    let bad = parts("???", None);
    let request = Request::from_parts(&rocket, &bad, ConnectionMeta::default()).err().unwrap();
    let messages: Vec<String> = request.errors().iter().map(|e| e.message()).collect();
    assert_eq!(
        messages,
        vec!["invalid or unrecognized method: ???", "invalid origin URI: host:80"]
    );
}

#[test]
fn registered_methods_are_known() {
    let rocket = rocket(None);
    for (name, method) in [
        ("GET", Method::Get),
        ("PUT", Method::Put),
        ("POST", Method::Post),
        ("DELETE", Method::Delete),
        ("OPTIONS", Method::Options),
        ("HEAD", Method::Head),
        ("TRACE", Method::Trace),
        ("CONNECT", Method::Connect),
        ("PATCH", Method::Patch),
        ("PROPFIND", Method::PropFind),
        ("VERSION-CONTROL", Method::VersionControl),
    ] {
        let good = parts(name, Some("/"));
        let request = Request::from_parts(&rocket, &good, ConnectionMeta::default()).ok().unwrap();
        assert_eq!(request.method(), method);
        assert_eq!(method.as_str(), name);
    }
}

#[test]
fn head_is_read_as_it_is() {
    let headers: [(&str, &[u8]); 3] = [("X-B", b"\xff\xfe"), ("X-A", b"1"), ("X-B", b"2")];
    let head = head("MERGE", "http://a.rs/p?q", http::Version::HTTP_10, &headers);
    let parts = read_head(&head);
    assert_eq!(parts.method, "MERGE");
    assert_eq!(parts.uri, "http://a.rs/p?q");
    let path_and_query = parts.path_and_query.unwrap();
    assert_eq!(path_and_query.path, "/p");
    assert_eq!(path_and_query.query, Some("q".to_string()));
    assert_eq!(parts.authority_host, Some("a.rs".to_string()));
    assert_eq!(parts.authority_port, None);
    assert_eq!(parts.version, Some(HttpVersion::Http10));
    let b: Vec<Vec<u8>> =
        parts.headers.iter().filter(|h| h.name == "x-b").map(|h| h.value.clone()).collect();
    assert_eq!(b, vec![vec![0xff, 0xfe], vec![b'2']]);
    assert_eq!(parts.headers.len(), 3);
}

#[test]
fn raw_headers_of_parts_are_added() {
    let rocket = rocket(None);
    let mut good = parts("GET", Some("/a"));
    good.headers.push(RawHeader { name: "X-A".to_string(), value: b"1".to_vec() });
    good.headers.push(RawHeader { name: "x-a".to_string(), value: b"2".to_vec() });
    let request = Request::from_parts(&rocket, &good, ConnectionMeta::default()).ok().unwrap();
    assert_eq!(request.headers().len(), 2);
    assert_eq!(request.headers().get_one("X-a"), Some("1"));
}
