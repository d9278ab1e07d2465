//! The errors that an HTTP server answers with.

use vstd::prelude::*;

verus! {

/// An error that an HTTP server answers with.
#[derive(Debug, PartialEq, Eq)]
pub struct HttpReply {
    pub status_code: u16,
    pub error_code: Option<String>,
    /// What the client is told.
    pub external_message: String,
    /// What is logged.
    pub internal_message: String,
}

/// An error that an HTTP server answers with.
#[verifier::ext_equal]
pub ghost struct HttpReplyView {
    pub status_code: u16,
    pub error_code: Option<Seq<char>>,
    pub external_message: Seq<char>,
    pub internal_message: Seq<char>,
}

impl View for HttpReply {
    type V = HttpReplyView;

    open spec fn view(&self) -> HttpReplyView {
        HttpReplyView {
            status_code: self.status_code,
            error_code: match self.error_code {
                Some(code) => Some(code@),
                None => None,
            },
            external_message: self.external_message@,
            internal_message: self.internal_message@,
        }
    }
}

impl Clone for HttpReply {
    fn clone(&self) -> (r: Self)
        ensures
            r == *self,
    {
        HttpReply {
            status_code: self.status_code,
            error_code: match &self.error_code {
                Some(code) => Some(code.clone()),
                None => None,
            },
            external_message: self.external_message.clone(),
            internal_message: self.internal_message.clone(),
        }
    }
}

/// The answer where the server failed.
pub open spec fn internal_error(message: Seq<char>) -> HttpReplyView {
    HttpReplyView {
        status_code: 500,
        error_code: Some("Internal"@),
        external_message: "Internal Server Error"@,
        internal_message: message,
    }
}

/// The answer where the server cannot serve at the moment.
pub open spec fn unavailable(message: Seq<char>) -> HttpReplyView {
    HttpReplyView {
        status_code: 503,
        error_code: None,
        external_message: "Service Unavailable"@,
        internal_message: message,
    }
}

/// The answer where something does not exist.
pub open spec fn not_found(message: Seq<char>) -> HttpReplyView {
    HttpReplyView {
        status_code: 404,
        error_code: None,
        external_message: "Not Found"@,
        internal_message: message,
    }
}

/// The answer to a request that cannot be served as it is.
pub open spec fn bad_request(message: Seq<char>) -> HttpReplyView {
    HttpReplyView {
        status_code: 400,
        error_code: None,
        external_message: message,
        internal_message: message,
    }
}

/// The status codes of client errors that have a standard label.
pub open spec fn labelled(code: u16) -> bool {
    400 <= code <= 418 || 421 <= code <= 424 || code == 426 || code == 428 || code == 429 || code
        == 431 || code == 451
}

/// The standard label of a status code.
pub uninterp spec fn label_of(code: u16) -> Seq<char>;

/// The answer that has only a status, with its standard label.
pub open spec fn client_error(code: u16) -> HttpReplyView {
    HttpReplyView {
        status_code: code,
        error_code: None,
        external_message: label_of(code),
        internal_message: label_of(code),
    }
}

/// Answers with `dropshot::HttpError::for_internal_error`: the status is 500, with the error code
/// `Internal`, and the client is told no more than the label of the status.
#[verifier::external_body]
pub(crate) fn for_internal_error(message: String) -> (reply: HttpReply)
    ensures
        reply@ == internal_error(message@),
{
    let e = dropshot::HttpError::for_internal_error(message);
    HttpReply {
        status_code: e.status_code.as_u16(),
        error_code: e.error_code,
        external_message: e.external_message,
        internal_message: e.internal_message,
    }
}

/// Answers with `dropshot::HttpError::for_unavail` without an error code: the status is 503, and the
/// client is told no more than its label.
#[verifier::external_body]
pub(crate) fn for_unavail(message: String) -> (reply: HttpReply)
    ensures
        reply@ == unavailable(message@),
{
    let e = dropshot::HttpError::for_unavail(None, message);
    HttpReply {
        status_code: e.status_code.as_u16(),
        error_code: e.error_code,
        external_message: e.external_message,
        internal_message: e.internal_message,
    }
}

/// Answers with `dropshot::HttpError::for_not_found` without an error code: the status is 404, and
/// the client is told no more than its label.
#[verifier::external_body]
pub(crate) fn for_not_found(message: String) -> (reply: HttpReply)
    ensures
        reply@ == not_found(message@),
{
    let e = dropshot::HttpError::for_not_found(None, message);
    HttpReply {
        status_code: e.status_code.as_u16(),
        error_code: e.error_code,
        external_message: e.external_message,
        internal_message: e.internal_message,
    }
}

/// Answers with `dropshot::HttpError::for_bad_request` without an error code: the status is 400, and
/// the client is told the message.
#[verifier::external_body]
pub(crate) fn for_bad_request(message: String) -> (reply: HttpReply)
    ensures
        reply@ == bad_request(message@),
{
    let e = dropshot::HttpError::for_bad_request(None, message);
    HttpReply {
        status_code: e.status_code.as_u16(),
        error_code: e.error_code,
        external_message: e.external_message,
        internal_message: e.internal_message,
    }
}

/// Answers with `dropshot::HttpError::for_status` without an error code: the messages are the label
/// of the status, which depends on the status alone. The status has to be that of a client error,
/// and one that has a label.
#[verifier::external_body]
pub(crate) fn for_status(code: u16) -> (reply: HttpReply)
    requires
        labelled(code),
    ensures
        reply.status_code == code,
        reply.error_code is None,
        reply.external_message@ == label_of(code),
        reply.internal_message@ == label_of(code),
{
    let e = dropshot::HttpError::for_status(None, http::StatusCode::from_u16(code).unwrap());
    HttpReply {
        status_code: e.status_code.as_u16(),
        error_code: e.error_code,
        external_message: e.external_message,
        internal_message: e.internal_message,
    }
}

} // verus!
