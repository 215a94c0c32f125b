//! Errors that clients of the proxy get to see.

use serde_json::Value;
use vstd::prelude::*;

use crate::json;
use crate::json::JsonView;
use crate::text::joined;

verus! {

#[derive(Debug)]
pub enum ProxyError {
    BackendUnavailable(String),
    BadRequest(String),
    Internal(String),
}

/// An error as contracts see it.
pub enum ErrorView {
    BackendUnavailable(Seq<char>),
    BadRequest(Seq<char>),
    Internal(Seq<char>),
}

impl View for ProxyError {
    type V = ErrorView;

    open spec fn view(&self) -> ErrorView {
        match self {
            ProxyError::BackendUnavailable(message) => ErrorView::BackendUnavailable(message@),
            ProxyError::BadRequest(message) => ErrorView::BadRequest(message@),
            ProxyError::Internal(message) => ErrorView::Internal(message@),
        }
    }
}

/// The HTTP status of an error.
pub open spec fn status_of(e: ErrorView) -> u16 {
    match e {
        ErrorView::BackendUnavailable(_) => 502,
        ErrorView::BadRequest(_) => 400,
        ErrorView::Internal(_) => 500,
    }
}

/// The word for an error that programs go by.
pub open spec fn code_of(e: ErrorView) -> Seq<char> {
    match e {
        ErrorView::BackendUnavailable(_) => "backend_unavailable"@,
        ErrorView::BadRequest(_) => "bad_request"@,
        ErrorView::Internal(_) => "internal_error"@,
    }
}

pub open spec fn message_of(e: ErrorView) -> Seq<char> {
    match e {
        ErrorView::BackendUnavailable(message) => message,
        ErrorView::BadRequest(message) => message,
        ErrorView::Internal(message) => message,
    }
}

/// The document that tells a client of an error.
pub open spec fn error_document(e: ErrorView) -> JsonView {
    JsonView::Object(
        Map::empty().insert(
            "error"@,
            JsonView::Object(
                Map::empty().insert("message"@, JsonView::Text(message_of(e))).insert(
                    "type"@,
                    JsonView::Text("proxy_error"@),
                ).insert("code"@, JsonView::Text(code_of(e))),
            ),
        ),
    )
}

/// A status and a JSON document to answer a client with.
pub struct JsonReply {
    pub status: u16,
    pub body: Value,
}

/// How a request to a backend failed.
pub struct RequestFailure {
    /// The connection could not be made.
    pub connect: bool,
    pub timeout: bool,
    /// The error in words.
    pub text: String,
}

/// What a failed request to a backend is to a client.
pub open spec fn request_error(connect: bool, timeout: bool, text: Seq<char>) -> ErrorView {
    if connect {
        ErrorView::BackendUnavailable("backend connection failed: "@ + text)
    } else if timeout {
        ErrorView::BackendUnavailable("backend timed out: "@ + text)
    } else {
        ErrorView::Internal("request error: "@ + text)
    }
}

impl ProxyError {
    /// The answer that a client gets.
    pub fn into_response(self) -> (r: JsonReply)
        ensures
            r.status == status_of(self@),
            json::json_of(r.body) == error_document(self@),
    {
        let (status, code, message): (u16, &str, String) = match self {
            ProxyError::BackendUnavailable(msg) => (502, "backend_unavailable", msg),
            ProxyError::BadRequest(msg) => (400, "bad_request", msg),
            ProxyError::Internal(msg) => (500, "internal_error", msg),
        };
        let mut error: Value = json::json_object();
        json::json_set(&mut error, "message", json::json_text(message));
        json::json_set(&mut error, "type", json::json_text("proxy_error".to_owned()));
        json::json_set(&mut error, "code", json::json_text(code.to_owned()));
        let mut body: Value = json::json_object();
        json::json_set(&mut body, "error", error);
        JsonReply { status, body }
    }

    /// The error for a request to a backend that failed.
    pub fn from_request_failure(failure: RequestFailure) -> (r: Self)
        ensures
            r@ == request_error(failure.connect, failure.timeout, failure.text@),
    {
        if failure.connect {
            ProxyError::BackendUnavailable(
                joined("backend connection failed: ", failure.text.as_str()),
            )
        } else if failure.timeout {
            ProxyError::BackendUnavailable(joined("backend timed out: ", failure.text.as_str()))
        } else {
            ProxyError::Internal(joined("request error: ", failure.text.as_str()))
        }
    }

    /// The error for a request body that could not be read; `text` says why.
    pub fn from_body_failure(text: &str) -> (r: Self)
        ensures
            r@ == ErrorView::BadRequest("failed to read request body: "@ + text@),
    {
        ProxyError::BadRequest(joined("failed to read request body: ", text))
    }

    /// The error for a response that could not be put together; `text` says why.
    pub fn from_response_failure(text: &str) -> (r: Self)
        ensures
            r@ == ErrorView::Internal("failed to build response: "@ + text@),
    {
        ProxyError::Internal(joined("failed to build response: ", text))
    }
}

/// A client can read all of an error from the answer: the status is that of the kind
/// of error, and the document has, under `error` and nowhere else, the whole message,
/// the type `proxy_error` and the code of the kind.
pub proof fn errors_are_told_whole(message: Seq<char>, key: Seq<char>)
    ensures
        status_of(ErrorView::BackendUnavailable(message)) == 502,
        status_of(ErrorView::BadRequest(message)) == 400,
        status_of(ErrorView::Internal(message)) == 500,
        told(ErrorView::BackendUnavailable(message), message, "backend_unavailable"@, key),
        told(ErrorView::BadRequest(message), message, "bad_request"@, key),
        told(ErrorView::Internal(message), message, "internal_error"@, key),
{
    reveal_strlit("message");
    reveal_strlit("type");
    reveal_strlit("code");
    assert("message"@.len() != "type"@.len());
    assert("message"@.len() != "code"@.len());
    assert("type"@[0] != "code"@[0]);
}

/// Whether the answer to an error has this message and this code, and of the members
/// at `key` only those that it should have.
pub open spec fn told(e: ErrorView, message: Seq<char>, code: Seq<char>, key: Seq<char>) -> bool {
    &&& json::member(error_document(e), key) is Some <==> key == "error"@
    &&& json::member(error_document(e), "error"@) matches Some(error) && {
        &&& json::text_member(error, "message"@) == Some(message)
        &&& json::text_member(error, "type"@) == Some("proxy_error"@)
        &&& json::text_member(error, "code"@) == Some(code)
        &&& json::member(error, key) is Some <==> key == "message"@ || key == "type"@ || key
            == "code"@
    }
}

/// What is seen of an error is its kind and its whole message.
pub proof fn errors_are_seen_whole(message: String)
    ensures
        ProxyError::BackendUnavailable(message)@ == ErrorView::BackendUnavailable(message@),
        ProxyError::BadRequest(message)@ == ErrorView::BadRequest(message@),
        ProxyError::Internal(message)@ == ErrorView::Internal(message@),
{
}

/// A backend that cannot be connected to or that takes too long is unavailable, and
/// any other failure is internal; the client is told in words which it was, and then
/// all that is known of it.
pub proof fn failures_are_told_apart(timeout: bool, text: Seq<char>)
    ensures
        request_error(true, timeout, text) == ErrorView::BackendUnavailable(
            "backend connection failed: "@ + text,
        ),
        request_error(false, true, text) == ErrorView::BackendUnavailable(
            "backend timed out: "@ + text,
        ),
        request_error(false, false, text) == ErrorView::Internal("request error: "@ + text),
{
}

} // verus!
