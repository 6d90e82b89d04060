//! The protocol that a proxy says a client used.
use vstd::prelude::*;
use crate::text::{eq_ignore_case, law_same_text, same_text};

verus! {

/// The protocol between a client and a proxy, as the proxy reports it.
pub enum ProxyProto {
    Http,
    Https,
    Unknown(String),
}

/// A reported protocol as text.
#[verifier::ext_equal]
pub enum ProxyProtoView {
    Http,
    Https,
    Unknown(Seq<char>),
}

impl View for ProxyProto {
    type V = ProxyProtoView;

    open spec fn view(&self) -> ProxyProtoView {
        match self {
            ProxyProto::Http => ProxyProtoView::Http,
            ProxyProto::Https => ProxyProtoView::Https,
            ProxyProto::Unknown(s) => ProxyProtoView::Unknown(s@),
        }
    }
}

/// The protocol that a header value reports, in any case.
pub open spec fn proto_of(value: Seq<char>) -> ProxyProtoView {
    if same_text(value, "http"@) {
        ProxyProtoView::Http
    } else if same_text(value, "https"@) {
        ProxyProtoView::Https
    } else {
        ProxyProtoView::Unknown(value)
    }
}

impl ProxyProto {
    /// The protocol that a header value reports, in any case.
    pub fn parse(value: &str) -> (r: ProxyProto)
        ensures
            r@ == proto_of(value@),
    {
        if eq_ignore_case(value, "http") {
            ProxyProto::Http
        } else if eq_ignore_case(value, "https") {
            ProxyProto::Https
        } else {
            ProxyProto::Unknown(value.to_owned())
        }
    }

    /// Whether the reported protocol is HTTPS.
    pub fn is_https(&self) -> (r: bool)
        ensures
            r == (self@ is Https),
    {
        match self {
            ProxyProto::Https => true,
            _ => false,
        }
    }
}

/// The view of a protocol tells the same protocols apart.
pub proof fn law_proto_view(name: String)
    ensures
        ProxyProto::Http@ is Http,
        ProxyProto::Https@ is Https,
        ProxyProto::Unknown(name)@ == ProxyProtoView::Unknown(name@),
{
}

/// The two known protocols are known by their names in any case. Any other value is kept as it is.
pub proof fn law_proto(value: Seq<char>)
    ensures
        proto_of(value) is Http <==> same_text(value, "http"@),
        proto_of(value) is Https <==> same_text(value, "https"@),
        !same_text(value, "http"@) && !same_text(value, "https"@) ==> proto_of(value)
            == ProxyProtoView::Unknown(value),
{
    reveal_strlit("http");
    reveal_strlit("https");
    law_same_text(value, "http"@);
    law_same_text(value, "https"@);
}

} // verus!
