//! Errors of calls to a language model backend, and how an HTTP error
//! response is classified into them.

use vstd::prelude::*;
use crate::text::{seq_contains, spec_lowercase};
use crate::voting::opt_view;
use crate::json::{get_member, jget, JsonValue, JsonView};
use crate::responses::{parse_json_text, spec_parse_json};

verus! {

/// An error from a language model backend.
#[derive(Debug, Clone, PartialEq, Eq)]
pub enum LmClientError {
    RateLimit { message: String, status: u16 },
    Authentication { message: String, status: u16 },
    ContextLength { message: String },
    BadRequest { message: String },
    ServerError { message: String, status: u16 },
    Connection(String),
}

/// The mathematical value of an [`LmClientError`].
pub enum ErrorView {
    RateLimit { message: Seq<char>, status: u16 },
    Authentication { message: Seq<char>, status: u16 },
    ContextLength { message: Seq<char> },
    BadRequest { message: Seq<char> },
    ServerError { message: Seq<char>, status: u16 },
    Connection(Seq<char>),
}

impl View for LmClientError {
    type V = ErrorView;

    open spec fn view(&self) -> ErrorView {
        match self {
            LmClientError::RateLimit { message, status } => ErrorView::RateLimit { message: message@, status: *status },
            LmClientError::Authentication { message, status } => ErrorView::Authentication {
                message: message@,
                status: *status,
            },
            LmClientError::ContextLength { message } => ErrorView::ContextLength { message: message@ },
            LmClientError::BadRequest { message } => ErrorView::BadRequest { message: message@ },
            LmClientError::ServerError { message, status } => ErrorView::ServerError { message: message@, status: *status },
            LmClientError::Connection(m) => ErrorView::Connection(m@),
        }
    }
}

/// The lower-cased message names an exceeded context window.
pub open spec fn mentions_context_limit(lower: Seq<char>) -> bool {
    ||| seq_contains(lower, "context length"@)
    ||| seq_contains(lower, "maximum context"@)
    ||| seq_contains(lower, "too long"@)
    ||| seq_contains(lower, "token limit"@)
    ||| seq_contains(lower, "context_length_exceeded"@)
    ||| seq_contains(lower, "max_tokens"@)
}

/// The error an HTTP status and a message (with its lower-case form) are
/// classified as: rate limiting first, then an exceeded context window on a
/// 400, then authentication, other 400s, server errors, and otherwise a
/// connection error.
pub open spec fn classify(status: u16, message: Seq<char>, lower: Seq<char>) -> ErrorView {
    if status == 429 || seq_contains(lower, "rate limit"@) {
        ErrorView::RateLimit { message, status }
    } else if status == 400 && mentions_context_limit(lower) {
        ErrorView::ContextLength { message }
    } else if status == 401 || status == 403 || seq_contains(lower, "authentication"@) || seq_contains(
        lower,
        "unauthorized"@,
    ) {
        ErrorView::Authentication { message, status }
    } else if status == 400 {
        ErrorView::BadRequest { message }
    } else if status >= 500 {
        ErrorView::ServerError { message, status }
    } else {
        ErrorView::Connection(message)
    }
}

/// The `error.message` string of a JSON error body, if it has one.
pub open spec fn body_error_message_of(body: Seq<char>) -> Option<Seq<char>> {
    match spec_parse_json(body) {
        Some(v) => match jget(v, "error"@) {
            Some(e) => match jget(e, "message"@) {
                Some(JsonView::Str(m)) => Some(m),
                _ => None,
            },
            None => None,
        },
        None => None,
    }
}

/// The message of an error response: `error.message` of a JSON body, or
/// the whole body.
pub open spec fn response_message(body: Seq<char>) -> Seq<char> {
    match body_error_message_of(body) {
        Some(m) => m,
        None => body,
    }
}

/// Reads `error.message` from a JSON error body (see
/// [`body_error_message_of`]).
fn body_error_message(body: &str) -> (r: Option<String>)
    ensures
        opt_view(r) == body_error_message_of(body@),
{
    match parse_json_text(body) {
        Some(v) => match get_member(&v, "error") {
            Some(e) => match get_member(e, "message") {
                Some(JsonValue::Str(m)) => Some(m.clone()),
                _ => None,
            },
            None => None,
        },
        None => None,
    }
}

fn contains_lit(hay: &str, needle: &str) -> (r: bool)
    ensures
        r == seq_contains(hay@, needle@),
{
    crate::text::text_contains(hay, needle)
}

impl LmClientError {
    /// Classifies an error response given its message and the message's
    /// lower-case form.
    pub fn classify_message(status: u16, message: String, lower: &str) -> (r: LmClientError)
        ensures
            r@ == classify(status, message@, lower@),
    {
        if status == 429 || contains_lit(lower, "rate limit") {
            return LmClientError::RateLimit { message, status };
        }
        let context = contains_lit(lower, "context length") || contains_lit(lower, "maximum context")
            || contains_lit(lower, "too long") || contains_lit(lower, "token limit") || contains_lit(
            lower,
            "context_length_exceeded",
        ) || contains_lit(lower, "max_tokens");
        if status == 400 && context {
            return LmClientError::ContextLength { message };
        }
        if status == 401 || status == 403 || contains_lit(lower, "authentication") || contains_lit(
            lower,
            "unauthorized",
        ) {
            return LmClientError::Authentication { message, status };
        }
        if status == 400 {
            return LmClientError::BadRequest { message };
        }
        if status >= 500 {
            return LmClientError::ServerError { message, status };
        }
        LmClientError::Connection(message)
    }

    /// Classifies an HTTP error response from its status and body.
    pub fn from_response(status: u16, body: &str) -> (r: LmClientError)
        ensures
            r@ == classify(status, response_message(body@), spec_lowercase(response_message(body@))),
    {
        let message = match body_error_message(body) {
            Some(m) => m,
            None => crate::text::owned(body),
        };
        let lower = crate::text::lowercase_text(message.as_str());
        Self::classify_message(status, message, lower.as_str())
    }

    /// Whether the request may succeed when retried: rate limits, server
    /// errors and connection errors.
    pub fn is_retryable(&self) -> (r: bool)
        ensures
            r == (self@ is RateLimit || self@ is ServerError || self@ is Connection),
    {
        match self {
            LmClientError::RateLimit { .. } => true,
            LmClientError::ServerError { .. } => true,
            LmClientError::Connection(_) => true,
            _ => false,
        }
    }

    /// The HTTP status the error carries, if any.
    pub fn status_code(&self) -> (r: Option<u16>)
        ensures
            r == match self@ {
                ErrorView::RateLimit { status, .. } => Some(status),
                ErrorView::Authentication { status, .. } => Some(status),
                ErrorView::ServerError { status, .. } => Some(status),
                _ => None,
            },
    {
        match self {
            LmClientError::RateLimit { status, .. } => Some(*status),
            LmClientError::Authentication { status, .. } => Some(*status),
            LmClientError::ServerError { status, .. } => Some(*status),
            LmClientError::ContextLength { .. } => None,
            LmClientError::BadRequest { .. } => None,
            LmClientError::Connection(_) => None,
        }
    }

    /// The error's message text.
    pub fn message(&self) -> (r: &String)
        ensures
            r@ == error_message(self@),
    {
        match self {
            LmClientError::RateLimit { message, .. } => message,
            LmClientError::Authentication { message, .. } => message,
            LmClientError::ContextLength { message } => message,
            LmClientError::BadRequest { message } => message,
            LmClientError::ServerError { message, .. } => message,
            LmClientError::Connection(m) => m,
        }
    }

    /// The human-readable description: a prefix naming the kind, then the message.
    pub fn describe(&self) -> (r: String)
        ensures
            r@ == error_prefix(self@) + error_message(self@),
    {
        let prefix = match self {
            LmClientError::RateLimit { .. } => "rate limit exceeded: ",
            LmClientError::Authentication { .. } => "authentication failed: ",
            LmClientError::ContextLength { .. } => "context length exceeded: ",
            LmClientError::BadRequest { .. } => "bad request: ",
            LmClientError::ServerError { .. } => "server error: ",
            LmClientError::Connection(_) => "connection error: ",
        };
        let mut r = crate::text::owned(prefix);
        r.append(self.message().as_str());
        r
    }
}

/// The message an error carries.
pub open spec fn error_message(e: ErrorView) -> Seq<char> {
    match e {
        ErrorView::RateLimit { message, .. } => message,
        ErrorView::Authentication { message, .. } => message,
        ErrorView::ContextLength { message } => message,
        ErrorView::BadRequest { message } => message,
        ErrorView::ServerError { message, .. } => message,
        ErrorView::Connection(m) => m,
    }
}

/// The prefix naming an error's kind in its description.
pub open spec fn error_prefix(e: ErrorView) -> Seq<char> {
    match e {
        ErrorView::RateLimit { .. } => "rate limit exceeded: "@,
        ErrorView::Authentication { .. } => "authentication failed: "@,
        ErrorView::ContextLength { .. } => "context length exceeded: "@,
        ErrorView::BadRequest { .. } => "bad request: "@,
        ErrorView::ServerError { .. } => "server error: "@,
        ErrorView::Connection(_) => "connection error: "@,
    }
}

} // verus!
