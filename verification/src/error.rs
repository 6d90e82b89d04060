//! What can be wrong with the head of a request.
use vstd::prelude::*;

verus! {

/// What is wrong with the head of a request.
#[derive(Debug)]
pub enum RequestError {
    /// The URI has no path.
    InvalidUri(String),
    /// The method is not known.
    BadMethod(String),
}

/// An error as text.
#[verifier::ext_equal]
pub enum ErrorView {
    InvalidUri(Seq<char>),
    BadMethod(Seq<char>),
}

impl View for RequestError {
    type V = ErrorView;

    open spec fn view(&self) -> ErrorView {
        match self {
            RequestError::InvalidUri(uri) => ErrorView::InvalidUri(uri@),
            RequestError::BadMethod(method) => ErrorView::BadMethod(method@),
        }
    }
}

/// The views of errors.
pub open spec fn error_views(v: Seq<RequestError>) -> Seq<ErrorView> {
    Seq::new(v.len(), |i: int| v[i]@)
}

impl Clone for RequestError {
    fn clone(&self) -> (r: RequestError)
        ensures
            r == *self,
    {
        match self {
            RequestError::InvalidUri(uri) => RequestError::InvalidUri(uri.clone()),
            RequestError::BadMethod(method) => RequestError::BadMethod(method.clone()),
        }
    }
}

/// The message of an error.
pub open spec fn error_message(e: ErrorView) -> Seq<char> {
    match e {
        ErrorView::InvalidUri(uri) => "invalid origin URI: "@ + uri,
        ErrorView::BadMethod(method) => "invalid or unrecognized method: "@ + method,
    }
}

/// The view of an error says the same of the same text.
pub proof fn law_error_view(text: String, v: Seq<RequestError>, i: int)
    requires
        0 <= i < v.len(),
    ensures
        RequestError::InvalidUri(text)@ == ErrorView::InvalidUri(text@),
        RequestError::BadMethod(text)@ == ErrorView::BadMethod(text@),
        error_views(v).len() == v.len(),
        error_views(v)[i] == v[i]@,
{
}

/// A message says what is wrong and ends in the text that it is wrong with.
pub proof fn law_message(text: Seq<char>)
    ensures
        error_message(ErrorView::InvalidUri(text)) == "invalid origin URI: "@ + text,
        error_message(ErrorView::BadMethod(text)) == "invalid or unrecognized method: "@ + text,
{
}

impl RequestError {
    /// The message of the error.
    pub fn message(&self) -> (r: String)
        ensures
            r@ == error_message(self@),
    {
        match self {
            RequestError::InvalidUri(uri) => {
                let mut text = "invalid origin URI: ".to_owned();
                text.append(uri.as_str());
                text
            },
            RequestError::BadMethod(method) => {
                let mut text = "invalid or unrecognized method: ".to_owned();
                text.append(method.as_str());
                text
            },
        }
    }
}

} // verus!
