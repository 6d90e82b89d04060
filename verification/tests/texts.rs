//! The texts that the parts of a request are read from.
use request::accept::parse_accept;
use request::encoding::{decode_form, decode_path, hex_digit, percent_decode};
use request::form::NameView;
use request::host::Host;
use request::ip::IpAddr;
use request::media_type::{parse_media_type, MediaType};
use request::method::Method;
use request::proxy::ProxyProto;
use request::text::{eq_ignore_case, eq_text, lower, split_text, trim, white_space};
use request::uri::Origin;

fn host(text: &str) -> Option<(String, Option<u16>)> {
    Host::parse(text).map(|h| (h.domain().to_string(), h.port()))
}

fn segments(path: &str) -> Vec<String> {
    let origin = Origin::new(path, None);
    let segments = origin.segments();
    (0..segments.len()).map(|i| segments.get(i).unwrap().to_string()).collect()
}

fn pairs(query: &str) -> Vec<(String, String)> {
    let origin = Origin::new("/", Some(query));
    (0..origin.pair_count())
        .map(|i| (origin.pair(i).0.to_string(), origin.pair(i).1.to_string()))
        .collect()
}

fn media_type(text: &str) -> Option<String> {
    parse_media_type(text).map(|m| {
        let mut out = format!("{}/{}", m.top, m.sub);
        for p in &m.params {
            out = format!("{};{}={}", out, p.name, p.value);
        }
        out
    })
}

#[test]
fn case_is_ignored_for_ascii_only() {
    assert!(eq_ignore_case("Content-Type", "cONTENT-tYPE"));
    assert!(!eq_ignore_case("a", "ab"));
    assert!(!eq_ignore_case("\u{e4}", "\u{c4}"));
    assert!(eq_text("aB", "aB"));
    assert!(!eq_text("aB", "ab"));
    assert_eq!(lower('Q'), 'q' as u32);
    assert_eq!(lower('['), '[' as u32);
}

#[test]
fn white_space_is_trimmed() {
    assert_eq!(trim(" \t a b\u{2003}\n"), "a b");
    assert_eq!(trim("  "), "");
    assert_eq!(trim("x"), "x");
    assert!(white_space('\u{a0}'));
    assert!(!white_space('\u{200b}'));
}

#[test]
fn texts_are_split() {
    assert_eq!(split_text("a;b;;c", ';'), vec!["a", "b", "", "c"]);
    assert_eq!(split_text("", ';'), vec![""]);
}

#[test]
fn split_pieces_join_to_the_text() {
    for text in ["", "a", ";", "a;b", ";;a;"] {
        assert_eq!(split_text(text, ';').join(";"), text);
    }
}

#[test]
fn percent_encoding_is_decoded() {
    assert_eq!(percent_decode(b"a%20b%2"), b"a b%2".to_vec());
    assert_eq!(percent_decode(b"%zz%41%6a"), b"%zzAj".to_vec());
    assert_eq!(hex_digit(b'f'), Some(15));
    assert_eq!(hex_digit(b'g'), None);
    assert_eq!(decode_path("a+b%20c"), "a+b c");
    assert_eq!(decode_form("a+b%20c%2B"), "a b c+");
    assert_eq!(decode_path("%c3%a4"), "\u{e4}");
}

#[test]
fn text_without_percent_signs_stays() {
    assert_eq!(percent_decode(b"plain text"), b"plain text".to_vec());
}

#[test]
fn bytes_that_are_no_text_are_replaced() {
    assert_eq!(decode_path("a%ffb"), "a\u{fffd}b");
}

#[test]
fn segments_drop_empty_pieces_but_the_last() {
    assert_eq!(segments("/"), vec![""]);
    assert_eq!(segments("/a/b"), vec!["a", "b"]);
    assert_eq!(segments("/a//b/"), vec!["a", "b", ""]);
    assert_eq!(segments("///"), vec![""]);
    assert_eq!(segments("/%2F/x%20y"), vec!["/", "x y"]);
    assert!(segments("").is_empty());
}

#[test]
fn pairs_drop_empty_pieces() {
    let pair = |a: &str, b: &str| (a.to_string(), b.to_string());
    assert_eq!(pairs("a=b&c=d=e&&f"), vec![pair("a", "b"), pair("c", "d=e"), pair("f", "")]);
    assert_eq!(pairs("a+b=%26"), vec![pair("a b", "&")]);
    assert!(pairs("").is_empty());
}

#[test]
fn name_keys_are_seen_one_after_the_other() {
    let mut name = NameView::new("a.b[c][d]e");
    for key in ["a", "b", "c", "d", "e", ""] {
        assert_eq!(name.key(), key);
        name.shift();
    }
    assert_eq!(NameView::new("[x]y").key(), "x");
    assert_eq!(NameView::new(".x").key(), "x");
}

#[test]
fn hosts_are_parsed() {
    assert_eq!(host("rocket.rs"), Some(("rocket.rs".to_string(), None)));
    assert_eq!(host("rocket.rs:2392"), Some(("rocket.rs".to_string(), Some(2392))));
    assert_eq!(host("[::1]:80"), Some(("[::1]".to_string(), Some(80))));
    assert_eq!(host("rocket.rs:65536"), None);
    assert_eq!(host("rocket.rs:"), None);
    assert_eq!(host("a b"), None);
    assert_eq!(host(""), None);
    assert!(Host::parse_bytes(b"\xff").is_none());
    assert_eq!(Host::parse_bytes(b"a.b").unwrap().domain(), "a.b");
}

#[test]
fn user_info_is_no_part_of_the_host() {
    assert_eq!(host("user@rocket.rs"), host("rocket.rs"));
    assert_eq!(host("user:pass@rocket.rs:1"), host("rocket.rs:1"));
}

#[test]
fn addresses_are_parsed() {
    assert_eq!(IpAddr::parse("127.0.0.1"), Some(IpAddr::V4([127, 0, 0, 1])));
    assert_eq!(IpAddr::parse("255.255.255.255"), Some(IpAddr::V4([255; 4])));
    for bad in ["256.0.0.1", "1.2.3", "1.2.3.4.5", "01.2.3.4", "1.2.3.4 ", "", "a.b.c.d"] {
        assert_eq!(IpAddr::parse(bad), None);
    }
    assert_eq!(IpAddr::parse("::"), Some(IpAddr::V6([0; 8])));
    let v6 = IpAddr::V6([0x2001, 0xdb8, 0, 0, 0, 0, 0, 1]);
    assert_eq!(IpAddr::parse("2001:DB8::1"), Some(v6));
    assert_eq!(IpAddr::parse("2001:db8:0:0:0:0:0:1"), Some(v6));
    let mapped = IpAddr::V6([0, 0, 0, 0, 0, 0xffff, 0x0102, 0x0304]);
    assert_eq!(IpAddr::parse("::ffff:1.2.3.4"), Some(mapped));
    for bad in ["1:2:3", "1::2::3", ":::", "12345::", "1:2:3:4:5:6:7:8:9", "[::1]"] {
        assert_eq!(IpAddr::parse(bad), None);
    }
}

#[test]
fn media_types_are_parsed() {
    assert_eq!(media_type("text/html"), Some("text/html".to_string()));
    assert_eq!(
        media_type("text/html; charset=utf-8;a=\"b c\""),
        Some("text/html;charset=utf-8;a=b c".to_string())
    );
    assert_eq!(media_type("*/*"), Some("*/*".to_string()));
    for bad in ["text", "text/", "/html", "text/html;", "te xt/html", ""] {
        assert_eq!(media_type(bad), None, "{}", bad);
    }
    assert!(MediaType::any().is_same(&parse_media_type("*/*").unwrap()));
    assert!(parse_media_type("TEXT/html").unwrap().is_same(&parse_media_type("text/HTML").unwrap()));
    assert_eq!(parse_media_type("text/*").unwrap().specificity(), 1);
}

#[test]
fn written_media_types_read_back() {
    for text in ["text/html", "a/b; c=d", "a/b; c=\"d e\"; f=\"\"", "*/*; q=0.3"] {
        assert_eq!(parse_media_type(text).unwrap().render(), text);
    }
    for text in ["text/html", "a/b; q=0.5, c/d; e=f", "a/*, b/*, */*; q=0"] {
        assert_eq!(parse_accept(text).unwrap().render(), text);
    }
}

#[test]
fn preferred_type_has_the_greatest_weight() {
    let preferred = |s: &str| {
        let m = parse_accept(s).unwrap().preferred();
        format!("{}/{}", m.top, m.sub)
    };
    assert_eq!(preferred("text/html"), "text/html");
    assert_eq!(preferred("a/b; q=0.2, c/d; q=0.9, e/f; q=0.9"), "c/d");
    assert_eq!(preferred("a/*, c/d"), "c/d");
    assert_eq!(preferred("a/b; q=1.0, c/d"), "c/d");
    assert!(parse_accept("text/html; q=2.5").is_none());
    assert!(parse_accept("text").is_none());
}

#[test]
fn methods_are_parsed() {
    assert_eq!(Method::parse("GET"), Some(Method::Get));
    assert_eq!(Method::parse("get"), Some(Method::Get));
    assert_eq!(Method::parse("BASELINE-CONTROL"), Some(Method::BaselineControl));
    assert_eq!(Method::parse("GETS"), None);
    assert_eq!(Method::Post.allows_request_body(), Some(true));
    assert_eq!(Method::Trace.allows_request_body(), Some(false));
    assert_eq!(Method::Get.allows_request_body(), None);
}

#[test]
fn method_names_stand_for_their_methods() {
    let all = [
        (Method::Get, "GET"),
        (Method::Head, "HEAD"),
        (Method::Post, "POST"),
        (Method::Put, "PUT"),
        (Method::Delete, "DELETE"),
        (Method::Connect, "CONNECT"),
        (Method::Options, "OPTIONS"),
        (Method::Trace, "TRACE"),
        (Method::Patch, "PATCH"),
        (Method::Acl, "ACL"),
        (Method::BaselineControl, "BASELINE-CONTROL"),
        (Method::Bind, "BIND"),
        (Method::CheckIn, "CHECKIN"),
        (Method::CheckOut, "CHECKOUT"),
        (Method::Copy, "COPY"),
        (Method::Label, "LABEL"),
        (Method::Link, "LINK"),
        (Method::Lock, "LOCK"),
        (Method::Merge, "MERGE"),
        (Method::MkActivity, "MKACTIVITY"),
        (Method::MkCalendar, "MKCALENDAR"),
        (Method::MkCol, "MKCOL"),
        (Method::MkRedirectRef, "MKREDIRECTREF"),
        (Method::MkWorkspace, "MKWORKSPACE"),
        (Method::Move, "MOVE"),
        (Method::OrderPatch, "ORDERPATCH"),
        (Method::PropFind, "PROPFIND"),
        (Method::PropPatch, "PROPPATCH"),
        (Method::Rebind, "REBIND"),
        (Method::Report, "REPORT"),
        (Method::Search, "SEARCH"),
        (Method::Unbind, "UNBIND"),
        (Method::UnCheckOut, "UNCHECKOUT"),
        (Method::Unlink, "UNLINK"),
        (Method::Unlock, "UNLOCK"),
        (Method::Update, "UPDATE"),
        (Method::UpdateRedirectRef, "UPDATEREDIRECTREF"),
        (Method::VersionControl, "VERSION-CONTROL"),
    ];
    for (method, name) in all {
        assert_eq!(method.as_str(), name);
        assert_eq!(Method::parse(name), Some(method));
        assert_eq!(Method::parse(&name.to_lowercase()), Some(method));
    }
}

#[test]
fn protocols_are_parsed_in_any_case() {
    assert!(matches!(ProxyProto::parse("http"), ProxyProto::Http));
    assert!(matches!(ProxyProto::parse("HttpS"), ProxyProto::Https));
    assert!(ProxyProto::parse("https").is_https());
    assert!(!ProxyProto::parse("http").is_https());
    assert!(!ProxyProto::parse("ws").is_https());
}
