//! What a request handler ends with, and the response each outcome is
//! answered with.

use vstd::prelude::*;
use vstd::string::StringExecFns;

verus! {

/// The status of a response that carries a result.
pub const STATUS_SUCCESS: u16 = 200;

/// The status of a response to a request without the shared secret.
pub const STATUS_UNAUTHORIZED: u16 = 401;

/// The status of a response to a request that failed.
pub const STATUS_INTERNAL_ERROR: u16 = 500;

/// A failure of a request handler, with its message.
#[derive(Debug, Clone, PartialEq, Eq)]
pub enum AppError {
    /// A failure of the handler's own logic or of a collaborator.
    AnyHow(String),
    /// A failure of the file system.
    Io(String),
}

/// A failure of a request handler over sequences.
pub enum AppErrorView {
    AnyHow(Seq<char>),
    Io(Seq<char>),
}

impl View for AppError {
    type V = AppErrorView;

    open spec fn view(&self) -> AppErrorView {
        match self {
            AppError::AnyHow(message) => AppErrorView::AnyHow(message@),
            AppError::Io(message) => AppErrorView::Io(message@),
        }
    }
}

/// A response: a status and a text that is sent as a JSON string.
#[derive(Clone, Debug, PartialEq, Eq)]
pub struct Rendered {
    pub status: u16,
    pub body: String,
}

impl View for Rendered {
    type V = (u16, Seq<char>);

    open spec fn view(&self) -> (u16, Seq<char>) {
        (self.status, self.body@)
    }
}

/// The text of a failure: its kind, then its message between backticks.
pub open spec fn error_text(e: AppErrorView) -> Seq<char> {
    match e {
        AppErrorView::AnyHow(message) => "error:`"@ + message + "`"@,
        AppErrorView::Io(message) => "io error:`"@ + message + "`"@,
    }
}

/// The body of the response to a failure.
pub open spec fn error_body(e: AppErrorView) -> Seq<char> {
    match e {
        AppErrorView::AnyHow(message) => "Internal Server Error: "@ + message,
        AppErrorView::Io(message) => "IO Error: "@ + message,
    }
}

impl AppError {
    /// A failure of the handler's own logic with the message `message`.
    pub fn anyhow(message: &str) -> (e: AppError)
        ensures
            e@ == AppErrorView::AnyHow(message@),
    {
        AppError::AnyHow(String::from_str(message))
    }

    /// The text of the failure.
    pub fn to_text(&self) -> (text: String)
        ensures
            text@ == error_text(self@),
    {
        match self {
            AppError::AnyHow(message) => String::from_str("error:`").concat(
                message.as_str(),
            ).concat("`"),
            AppError::Io(message) => String::from_str("io error:`").concat(
                message.as_str(),
            ).concat("`"),
        }
    }

    /// The response to the failure: an internal error with the message.
    pub fn render(&self) -> (response: Rendered)
        ensures
            response@ == (STATUS_INTERNAL_ERROR, error_body(self@)),
    {
        let body = match self {
            AppError::AnyHow(message) => String::from_str("Internal Server Error: ").concat(
                message.as_str(),
            ),
            AppError::Io(message) => String::from_str("IO Error: ").concat(message.as_str()),
        };
        Rendered { status: STATUS_INTERNAL_ERROR, body }
    }
}

/// What a handler that did not fail hands back.
#[derive(Debug, Clone, PartialEq, Eq)]
pub enum Success {
    /// The handler has written the response itself: nothing is added.
    Nothing,
    /// This JSON text is the body of the response.
    Json(String),
}

impl Success {
    /// The response that a success is answered with, if the handler has not
    /// written one itself.
    pub fn render(&self) -> (response: Option<Rendered>)
        ensures
            match self {
                Success::Nothing => response is None,
                Success::Json(text) => response matches Some(r) && r@ == (STATUS_SUCCESS, text@),
            },
    {
        match self {
            Success::Nothing => None,
            Success::Json(text) => Some(Rendered { status: STATUS_SUCCESS, body: text.clone() }),
        }
    }
}

} // verus!
