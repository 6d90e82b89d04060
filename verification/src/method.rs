//! Request methods and protocol versions.
use vstd::prelude::*;
use crate::text::{eq_ignore_case, folded, lower_code, same_text};

verus! {

/// The version of the protocol that a request came by.
#[derive(Clone, Copy, PartialEq, Eq, Structural, Debug)]
pub enum HttpVersion {
    Http09,
    Http10,
    Http11,
    Http2,
    Http3,
}

/// Whether the version is one in which the `Host` header names the host. From version 2 on, and
/// for a version that is not known, it is the authority of the URI that does.
pub open spec fn names_host_in_header(version: Option<HttpVersion>) -> bool {
    match version {
        Some(HttpVersion::Http09) | Some(HttpVersion::Http10) | Some(HttpVersion::Http11) => true,
        _ => false,
    }
}

/// `names_host_in_header`, computed.
pub fn host_in_header(version: Option<HttpVersion>) -> (r: bool)
    ensures
        r == names_host_in_header(version),
{
    match version {
        Some(HttpVersion::Http09) | Some(HttpVersion::Http10) | Some(HttpVersion::Http11) => true,
        _ => false,
    }
}

/// The registered request methods.
#[derive(Clone, Copy, PartialEq, Eq, Structural, Debug)]
pub enum Method {
    Get,
    Head,
    Post,
    Put,
    Delete,
    Connect,
    Options,
    Trace,
    Patch,
    Acl,
    BaselineControl,
    Bind,
    CheckIn,
    CheckOut,
    Copy,
    Label,
    Link,
    Lock,
    Merge,
    MkActivity,
    MkCalendar,
    MkCol,
    MkRedirectRef,
    MkWorkspace,
    Move,
    OrderPatch,
    PropFind,
    PropPatch,
    Rebind,
    Report,
    Search,
    Unbind,
    UnCheckOut,
    Unlink,
    Unlock,
    Update,
    UpdateRedirectRef,
    VersionControl,
}

/// The name of a method.
pub open spec fn method_name(m: Method) -> Seq<char> {
    match m {
        Method::Get => "GET"@,
        Method::Head => "HEAD"@,
        Method::Post => "POST"@,
        Method::Put => "PUT"@,
        Method::Delete => "DELETE"@,
        Method::Connect => "CONNECT"@,
        Method::Options => "OPTIONS"@,
        Method::Trace => "TRACE"@,
        Method::Patch => "PATCH"@,
        Method::Acl => "ACL"@,
        Method::BaselineControl => "BASELINE-CONTROL"@,
        Method::Bind => "BIND"@,
        Method::CheckIn => "CHECKIN"@,
        Method::CheckOut => "CHECKOUT"@,
        Method::Copy => "COPY"@,
        Method::Label => "LABEL"@,
        Method::Link => "LINK"@,
        Method::Lock => "LOCK"@,
        Method::Merge => "MERGE"@,
        Method::MkActivity => "MKACTIVITY"@,
        Method::MkCalendar => "MKCALENDAR"@,
        Method::MkCol => "MKCOL"@,
        Method::MkRedirectRef => "MKREDIRECTREF"@,
        Method::MkWorkspace => "MKWORKSPACE"@,
        Method::Move => "MOVE"@,
        Method::OrderPatch => "ORDERPATCH"@,
        Method::PropFind => "PROPFIND"@,
        Method::PropPatch => "PROPPATCH"@,
        Method::Rebind => "REBIND"@,
        Method::Report => "REPORT"@,
        Method::Search => "SEARCH"@,
        Method::Unbind => "UNBIND"@,
        Method::UnCheckOut => "UNCHECKOUT"@,
        Method::Unlink => "UNLINK"@,
        Method::Unlock => "UNLOCK"@,
        Method::Update => "UPDATE"@,
        Method::UpdateRedirectRef => "UPDATEREDIRECTREF"@,
        Method::VersionControl => "VERSION-CONTROL"@,
    }
}

/// The method that a name stands for, in any case.
pub open spec fn method_of(name: Seq<char>) -> Option<Method> {
    if same_text(name, "GET"@) {
        Some(Method::Get)
    } else if same_text(name, "HEAD"@) {
        Some(Method::Head)
    } else if same_text(name, "POST"@) {
        Some(Method::Post)
    } else if same_text(name, "PUT"@) {
        Some(Method::Put)
    } else if same_text(name, "DELETE"@) {
        Some(Method::Delete)
    } else if same_text(name, "CONNECT"@) {
        Some(Method::Connect)
    } else if same_text(name, "OPTIONS"@) {
        Some(Method::Options)
    } else if same_text(name, "TRACE"@) {
        Some(Method::Trace)
    } else if same_text(name, "PATCH"@) {
        Some(Method::Patch)
    } else if same_text(name, "ACL"@) {
        Some(Method::Acl)
    } else if same_text(name, "BASELINE-CONTROL"@) {
        Some(Method::BaselineControl)
    } else if same_text(name, "BIND"@) {
        Some(Method::Bind)
    } else if same_text(name, "CHECKIN"@) {
        Some(Method::CheckIn)
    } else if same_text(name, "CHECKOUT"@) {
        Some(Method::CheckOut)
    } else if same_text(name, "COPY"@) {
        Some(Method::Copy)
    } else if same_text(name, "LABEL"@) {
        Some(Method::Label)
    } else if same_text(name, "LINK"@) {
        Some(Method::Link)
    } else if same_text(name, "LOCK"@) {
        Some(Method::Lock)
    } else if same_text(name, "MERGE"@) {
        Some(Method::Merge)
    } else if same_text(name, "MKACTIVITY"@) {
        Some(Method::MkActivity)
    } else if same_text(name, "MKCALENDAR"@) {
        Some(Method::MkCalendar)
    } else if same_text(name, "MKCOL"@) {
        Some(Method::MkCol)
    } else if same_text(name, "MKREDIRECTREF"@) {
        Some(Method::MkRedirectRef)
    } else if same_text(name, "MKWORKSPACE"@) {
        Some(Method::MkWorkspace)
    } else if same_text(name, "MOVE"@) {
        Some(Method::Move)
    } else if same_text(name, "ORDERPATCH"@) {
        Some(Method::OrderPatch)
    } else if same_text(name, "PROPFIND"@) {
        Some(Method::PropFind)
    } else if same_text(name, "PROPPATCH"@) {
        Some(Method::PropPatch)
    } else if same_text(name, "REBIND"@) {
        Some(Method::Rebind)
    } else if same_text(name, "REPORT"@) {
        Some(Method::Report)
    } else if same_text(name, "SEARCH"@) {
        Some(Method::Search)
    } else if same_text(name, "UNBIND"@) {
        Some(Method::Unbind)
    } else if same_text(name, "UNCHECKOUT"@) {
        Some(Method::UnCheckOut)
    } else if same_text(name, "UNLINK"@) {
        Some(Method::Unlink)
    } else if same_text(name, "UNLOCK"@) {
        Some(Method::Unlock)
    } else if same_text(name, "UPDATE"@) {
        Some(Method::Update)
    } else if same_text(name, "UPDATEREDIRECTREF"@) {
        Some(Method::UpdateRedirectRef)
    } else if same_text(name, "VERSION-CONTROL"@) {
        Some(Method::VersionControl)
    } else {
        None
    }
}

/// The length of a text, its first character and its last two, without regard to case.
spec fn outline(s: Seq<char>) -> (int, u32, u32, u32) {
    (
        s.len() as int,
        lower_code(s[0]),
        lower_code(s[s.len() - 2]),
        lower_code(s[s.len() - 1]),
    )
}

/// Texts that are the same without regard to case have the same outline.
proof fn lemma_outline(a: Seq<char>, b: Seq<char>)
    requires
        same_text(a, b),
        a.len() >= 2,
    ensures
        outline(a) == outline(b),
{
    assert(folded(a).len() == a.len() && folded(b).len() == b.len());
    assert(folded(a)[0] == folded(b)[0]);
    assert(folded(a)[a.len() - 2] == folded(b)[a.len() - 2]);
    assert(folded(a)[a.len() - 1] == folded(b)[a.len() - 1]);
}

/// The name of a method stands for it.
pub proof fn law_name_stands_for_method(m: Method)
    ensures
        method_of(method_name(m)) == Some(m),
{
    reveal_strlit("GET");
    reveal_strlit("HEAD");
    reveal_strlit("POST");
    reveal_strlit("PUT");
    reveal_strlit("DELETE");
    reveal_strlit("CONNECT");
    reveal_strlit("OPTIONS");
    reveal_strlit("TRACE");
    reveal_strlit("PATCH");
    reveal_strlit("ACL");
    reveal_strlit("BASELINE-CONTROL");
    reveal_strlit("BIND");
    reveal_strlit("CHECKIN");
    reveal_strlit("CHECKOUT");
    reveal_strlit("COPY");
    reveal_strlit("LABEL");
    reveal_strlit("LINK");
    reveal_strlit("LOCK");
    reveal_strlit("MERGE");
    reveal_strlit("MKACTIVITY");
    reveal_strlit("MKCALENDAR");
    reveal_strlit("MKCOL");
    reveal_strlit("MKREDIRECTREF");
    reveal_strlit("MKWORKSPACE");
    reveal_strlit("MOVE");
    reveal_strlit("ORDERPATCH");
    reveal_strlit("PROPFIND");
    reveal_strlit("PROPPATCH");
    reveal_strlit("REBIND");
    reveal_strlit("REPORT");
    reveal_strlit("SEARCH");
    reveal_strlit("UNBIND");
    reveal_strlit("UNCHECKOUT");
    reveal_strlit("UNLINK");
    reveal_strlit("UNLOCK");
    reveal_strlit("UPDATE");
    reveal_strlit("UPDATEREDIRECTREF");
    reveal_strlit("VERSION-CONTROL");
    assert forall|a: Seq<char>, b: Seq<char>| #[trigger] same_text(a, b) && a.len() >= 2 implies outline(
        a,
    ) == outline(b) by {
        lemma_outline(a, b);
    }
}

/// Every method is known by its registered name, in any case, and by no other.
pub proof fn law_registered_names(name: Seq<char>)
    ensures
        method_of(name) == Some(Method::Get) <==> same_text(name, "GET"@),
        method_of(name) == Some(Method::Head) <==> same_text(name, "HEAD"@),
        method_of(name) == Some(Method::Post) <==> same_text(name, "POST"@),
        method_of(name) == Some(Method::Put) <==> same_text(name, "PUT"@),
        method_of(name) == Some(Method::Delete) <==> same_text(name, "DELETE"@),
        method_of(name) == Some(Method::Connect) <==> same_text(name, "CONNECT"@),
        method_of(name) == Some(Method::Options) <==> same_text(name, "OPTIONS"@),
        method_of(name) == Some(Method::Trace) <==> same_text(name, "TRACE"@),
        method_of(name) == Some(Method::Patch) <==> same_text(name, "PATCH"@),
        method_of(name) == Some(Method::Acl) <==> same_text(name, "ACL"@),
        method_of(name) == Some(Method::BaselineControl) <==> same_text(name, "BASELINE-CONTROL"@),
        method_of(name) == Some(Method::Bind) <==> same_text(name, "BIND"@),
        method_of(name) == Some(Method::CheckIn) <==> same_text(name, "CHECKIN"@),
        method_of(name) == Some(Method::CheckOut) <==> same_text(name, "CHECKOUT"@),
        method_of(name) == Some(Method::Copy) <==> same_text(name, "COPY"@),
        method_of(name) == Some(Method::Label) <==> same_text(name, "LABEL"@),
        method_of(name) == Some(Method::Link) <==> same_text(name, "LINK"@),
        method_of(name) == Some(Method::Lock) <==> same_text(name, "LOCK"@),
        method_of(name) == Some(Method::Merge) <==> same_text(name, "MERGE"@),
        method_of(name) == Some(Method::MkActivity) <==> same_text(name, "MKACTIVITY"@),
        method_of(name) == Some(Method::MkCalendar) <==> same_text(name, "MKCALENDAR"@),
        method_of(name) == Some(Method::MkCol) <==> same_text(name, "MKCOL"@),
        method_of(name) == Some(Method::MkRedirectRef) <==> same_text(name, "MKREDIRECTREF"@),
        method_of(name) == Some(Method::MkWorkspace) <==> same_text(name, "MKWORKSPACE"@),
        method_of(name) == Some(Method::Move) <==> same_text(name, "MOVE"@),
        method_of(name) == Some(Method::OrderPatch) <==> same_text(name, "ORDERPATCH"@),
        method_of(name) == Some(Method::PropFind) <==> same_text(name, "PROPFIND"@),
        method_of(name) == Some(Method::PropPatch) <==> same_text(name, "PROPPATCH"@),
        method_of(name) == Some(Method::Rebind) <==> same_text(name, "REBIND"@),
        method_of(name) == Some(Method::Report) <==> same_text(name, "REPORT"@),
        method_of(name) == Some(Method::Search) <==> same_text(name, "SEARCH"@),
        method_of(name) == Some(Method::Unbind) <==> same_text(name, "UNBIND"@),
        method_of(name) == Some(Method::UnCheckOut) <==> same_text(name, "UNCHECKOUT"@),
        method_of(name) == Some(Method::Unlink) <==> same_text(name, "UNLINK"@),
        method_of(name) == Some(Method::Unlock) <==> same_text(name, "UNLOCK"@),
        method_of(name) == Some(Method::Update) <==> same_text(name, "UPDATE"@),
        method_of(name) == Some(Method::UpdateRedirectRef) <==> same_text(name, "UPDATEREDIRECTREF"@),
        method_of(name) == Some(Method::VersionControl) <==> same_text(name, "VERSION-CONTROL"@),
{
    reveal_strlit("GET");
    reveal_strlit("HEAD");
    reveal_strlit("POST");
    reveal_strlit("PUT");
    reveal_strlit("DELETE");
    reveal_strlit("CONNECT");
    reveal_strlit("OPTIONS");
    reveal_strlit("TRACE");
    reveal_strlit("PATCH");
    reveal_strlit("ACL");
    reveal_strlit("BASELINE-CONTROL");
    reveal_strlit("BIND");
    reveal_strlit("CHECKIN");
    reveal_strlit("CHECKOUT");
    reveal_strlit("COPY");
    reveal_strlit("LABEL");
    reveal_strlit("LINK");
    reveal_strlit("LOCK");
    reveal_strlit("MERGE");
    reveal_strlit("MKACTIVITY");
    reveal_strlit("MKCALENDAR");
    reveal_strlit("MKCOL");
    reveal_strlit("MKREDIRECTREF");
    reveal_strlit("MKWORKSPACE");
    reveal_strlit("MOVE");
    reveal_strlit("ORDERPATCH");
    reveal_strlit("PROPFIND");
    reveal_strlit("PROPPATCH");
    reveal_strlit("REBIND");
    reveal_strlit("REPORT");
    reveal_strlit("SEARCH");
    reveal_strlit("UNBIND");
    reveal_strlit("UNCHECKOUT");
    reveal_strlit("UNLINK");
    reveal_strlit("UNLOCK");
    reveal_strlit("UPDATE");
    reveal_strlit("UPDATEREDIRECTREF");
    reveal_strlit("VERSION-CONTROL");
    assert forall|a: Seq<char>, b: Seq<char>| #[trigger] same_text(a, b) && b.len() >= 2 implies outline(
        a,
    ) == outline(b) by {
        lemma_outline(b, a);
    }
}

/// Which methods always have a body, which never, and which may have one.
pub proof fn law_bodies(m: Method)
    ensures
        body_allowed(m) == Some(true) <==> m is Post || m is Put || m is Patch || m is Acl || m is BaselineControl || m is Bind || m is CheckIn || m is Label || m is Lock || m is Merge || m is MkActivity || m is MkCalendar || m is MkCol || m is MkRedirectRef || m is MkWorkspace || m is OrderPatch || m is PropFind || m is PropPatch || m is Rebind || m is Report || m is Search || m is Unbind || m is Update || m is UpdateRedirectRef || m is VersionControl,
        body_allowed(m) == Some(false) <==> m is Trace,
        body_allowed(m) is None <==> m is Get || m is Head || m is Delete || m is Connect || m is Options || m is CheckOut || m is Copy || m is Link || m is Move || m is UnCheckOut || m is Unlink || m is Unlock,
{
}

/// A name stands for a method only if it is the method's name, in any case.
pub proof fn law_method_has_the_name(name: Seq<char>, m: Method)
    requires
        method_of(name) == Some(m),
    ensures
        same_text(name, method_name(m)),
{
}

/// Whether a request with the method has a body: `None` where it may have one.
pub open spec fn body_allowed(m: Method) -> Option<bool> {
    match m {
        Method::Post
        | Method::Put
        | Method::Patch
        | Method::Acl
        | Method::BaselineControl
        | Method::Bind
        | Method::CheckIn
        | Method::Label
        | Method::Lock
        | Method::Merge
        | Method::MkActivity
        | Method::MkCalendar
        | Method::MkCol
        | Method::MkRedirectRef
        | Method::MkWorkspace
        | Method::OrderPatch
        | Method::PropFind
        | Method::PropPatch
        | Method::Rebind
        | Method::Report
        | Method::Search
        | Method::Unbind
        | Method::Update
        | Method::UpdateRedirectRef
        | Method::VersionControl => Some(true),
        Method::Trace => Some(false),
        _ => None,
    }
}

impl Method {
    /// The method's name.
    pub fn as_str(&self) -> (r: &'static str)
        ensures
            r@ == method_name(*self),
    {
        match self {
            Method::Get => "GET",
            Method::Head => "HEAD",
            Method::Post => "POST",
            Method::Put => "PUT",
            Method::Delete => "DELETE",
            Method::Connect => "CONNECT",
            Method::Options => "OPTIONS",
            Method::Trace => "TRACE",
            Method::Patch => "PATCH",
            Method::Acl => "ACL",
            Method::BaselineControl => "BASELINE-CONTROL",
            Method::Bind => "BIND",
            Method::CheckIn => "CHECKIN",
            Method::CheckOut => "CHECKOUT",
            Method::Copy => "COPY",
            Method::Label => "LABEL",
            Method::Link => "LINK",
            Method::Lock => "LOCK",
            Method::Merge => "MERGE",
            Method::MkActivity => "MKACTIVITY",
            Method::MkCalendar => "MKCALENDAR",
            Method::MkCol => "MKCOL",
            Method::MkRedirectRef => "MKREDIRECTREF",
            Method::MkWorkspace => "MKWORKSPACE",
            Method::Move => "MOVE",
            Method::OrderPatch => "ORDERPATCH",
            Method::PropFind => "PROPFIND",
            Method::PropPatch => "PROPPATCH",
            Method::Rebind => "REBIND",
            Method::Report => "REPORT",
            Method::Search => "SEARCH",
            Method::Unbind => "UNBIND",
            Method::UnCheckOut => "UNCHECKOUT",
            Method::Unlink => "UNLINK",
            Method::Unlock => "UNLOCK",
            Method::Update => "UPDATE",
            Method::UpdateRedirectRef => "UPDATEREDIRECTREF",
            Method::VersionControl => "VERSION-CONTROL",
        }
    }

    /// The method with the name, in any case.
    pub fn parse(name: &str) -> (r: Option<Method>)
        ensures
            r == method_of(name@),
    {
        if eq_ignore_case(name, "GET") {
            Some(Method::Get)
        } else if eq_ignore_case(name, "HEAD") {
            Some(Method::Head)
        } else if eq_ignore_case(name, "POST") {
            Some(Method::Post)
        } else if eq_ignore_case(name, "PUT") {
            Some(Method::Put)
        } else if eq_ignore_case(name, "DELETE") {
            Some(Method::Delete)
        } else if eq_ignore_case(name, "CONNECT") {
            Some(Method::Connect)
        } else if eq_ignore_case(name, "OPTIONS") {
            Some(Method::Options)
        } else if eq_ignore_case(name, "TRACE") {
            Some(Method::Trace)
        } else if eq_ignore_case(name, "PATCH") {
            Some(Method::Patch)
        } else if eq_ignore_case(name, "ACL") {
            Some(Method::Acl)
        } else if eq_ignore_case(name, "BASELINE-CONTROL") {
            Some(Method::BaselineControl)
        } else if eq_ignore_case(name, "BIND") {
            Some(Method::Bind)
        } else if eq_ignore_case(name, "CHECKIN") {
            Some(Method::CheckIn)
        } else if eq_ignore_case(name, "CHECKOUT") {
            Some(Method::CheckOut)
        } else if eq_ignore_case(name, "COPY") {
            Some(Method::Copy)
        } else if eq_ignore_case(name, "LABEL") {
            Some(Method::Label)
        } else if eq_ignore_case(name, "LINK") {
            Some(Method::Link)
        } else if eq_ignore_case(name, "LOCK") {
            Some(Method::Lock)
        } else if eq_ignore_case(name, "MERGE") {
            Some(Method::Merge)
        } else if eq_ignore_case(name, "MKACTIVITY") {
            Some(Method::MkActivity)
        } else if eq_ignore_case(name, "MKCALENDAR") {
            Some(Method::MkCalendar)
        } else if eq_ignore_case(name, "MKCOL") {
            Some(Method::MkCol)
        } else if eq_ignore_case(name, "MKREDIRECTREF") {
            Some(Method::MkRedirectRef)
        } else if eq_ignore_case(name, "MKWORKSPACE") {
            Some(Method::MkWorkspace)
        } else if eq_ignore_case(name, "MOVE") {
            Some(Method::Move)
        } else if eq_ignore_case(name, "ORDERPATCH") {
            Some(Method::OrderPatch)
        } else if eq_ignore_case(name, "PROPFIND") {
            Some(Method::PropFind)
        } else if eq_ignore_case(name, "PROPPATCH") {
            Some(Method::PropPatch)
        } else if eq_ignore_case(name, "REBIND") {
            Some(Method::Rebind)
        } else if eq_ignore_case(name, "REPORT") {
            Some(Method::Report)
        } else if eq_ignore_case(name, "SEARCH") {
            Some(Method::Search)
        } else if eq_ignore_case(name, "UNBIND") {
            Some(Method::Unbind)
        } else if eq_ignore_case(name, "UNCHECKOUT") {
            Some(Method::UnCheckOut)
        } else if eq_ignore_case(name, "UNLINK") {
            Some(Method::Unlink)
        } else if eq_ignore_case(name, "UNLOCK") {
            Some(Method::Unlock)
        } else if eq_ignore_case(name, "UPDATE") {
            Some(Method::Update)
        } else if eq_ignore_case(name, "UPDATEREDIRECTREF") {
            Some(Method::UpdateRedirectRef)
        } else if eq_ignore_case(name, "VERSION-CONTROL") {
            Some(Method::VersionControl)
        } else {
            None
        }
    }

    /// Whether a request with the method has a body: `None` where it may have one.
    pub fn allows_request_body(&self) -> (r: Option<bool>)
        ensures
            r == body_allowed(*self),
    {
        match self {
            Method::Post
            | Method::Put
            | Method::Patch
            | Method::Acl
            | Method::BaselineControl
            | Method::Bind
            | Method::CheckIn
            | Method::Label
            | Method::Lock
            | Method::Merge
            | Method::MkActivity
            | Method::MkCalendar
            | Method::MkCol
            | Method::MkRedirectRef
            | Method::MkWorkspace
            | Method::OrderPatch
            | Method::PropFind
            | Method::PropPatch
            | Method::Rebind
            | Method::Report
            | Method::Search
            | Method::Unbind
            | Method::Update
            | Method::UpdateRedirectRef
            | Method::VersionControl => Some(true),
            Method::Trace => Some(false),
            _ => None,
        }
    }
}

} // verus!
