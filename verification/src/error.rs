//! What a request can fail with.
use vstd::prelude::*;

verus! {

/// Why a request was not served.
#[derive(Debug, PartialEq, Eq)]
pub enum AdapterError {
    /// The request lacks the adapter's key.
    Unauthorized,
    /// The request asks for a stream where none is offered.
    StreamUnsupported,
    /// The request cannot be read, or the reply does not fit it.
    InvalidRequest(String),
    /// The thing asked for is not there.
    NotFound(String),
    /// The upstream, or something local that it needs, failed.
    Upstream(String),
}

/// The mathematical model of an error.
pub enum ErrorView {
    Unauthorized,
    StreamUnsupported,
    InvalidRequest(Seq<char>),
    NotFound(Seq<char>),
    Upstream(Seq<char>),
}

impl View for AdapterError {
    type V = ErrorView;

    open spec fn view(&self) -> ErrorView {
        match *self {
            AdapterError::Unauthorized => ErrorView::Unauthorized,
            AdapterError::StreamUnsupported => ErrorView::StreamUnsupported,
            AdapterError::InvalidRequest(m) => ErrorView::InvalidRequest(m@),
            AdapterError::NotFound(m) => ErrorView::NotFound(m@),
            AdapterError::Upstream(m) => ErrorView::Upstream(m@),
        }
    }
}

impl ErrorView {
    /// What the error says.
    pub open spec fn said(self) -> Seq<char> {
        match self {
            ErrorView::Unauthorized => "unauthorized"@,
            ErrorView::StreamUnsupported => "streaming is not supported for this endpoint"@,
            ErrorView::InvalidRequest(m) => m,
            ErrorView::NotFound(m) => m,
            ErrorView::Upstream(m) => m,
        }
    }
}

impl AdapterError {
    /// What the error says.
    pub fn message(&self) -> (r: String)
        ensures
            r@ == self@.said(),
    {
        match self {
            AdapterError::Unauthorized => "unauthorized".to_owned(),
            AdapterError::StreamUnsupported => {
                "streaming is not supported for this endpoint".to_owned()
            },
            AdapterError::InvalidRequest(m) => m.clone(),
            AdapterError::NotFound(m) => m.clone(),
            AdapterError::Upstream(m) => m.clone(),
        }
    }

    /// The failure of something upstream, as what failed and why.
    pub fn upstream_failure(what: &str, why: &str) -> (r: AdapterError)
        ensures
            r@ == ErrorView::Upstream(what@ + ": "@ + why@),
    {
        let mut message = what.to_owned();
        message.append(": ");
        message.append(why);
        AdapterError::Upstream(message)
    }
}

/// An error with a message says that message, and the two without say what they are.
pub proof fn lemma_said(m: Seq<char>)
    ensures
        ErrorView::Unauthorized.said() == "unauthorized"@,
        ErrorView::StreamUnsupported.said() == "streaming is not supported for this endpoint"@,
        ErrorView::InvalidRequest(m).said() == m,
        ErrorView::NotFound(m).said() == m,
        ErrorView::Upstream(m).said() == m,
{
}

} // verus!
