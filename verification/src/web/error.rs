//! Route errors and the pages they are answered with.

use vstd::prelude::*;
use crate::consts::{NAME, VERSION};
use crate::text::{append_str, string_from_chars};

verus! {

broadcast use vstd::string::group_string_axioms;

/// The kinds of answer a route gives, with their status codes.
#[derive(Debug, Clone, Copy, PartialEq, Eq, Structural)]
pub enum ErrorCode {
    /// 200.
    Normal,
    /// 500.
    InternalError,
    /// 404.
    NotFound,
    /// 400.
    BadRequest,
}

/// An error page: its title, then the server's name and version, then a
/// signature, each on a line of its own.
pub open spec fn error_page(title: Seq<char>) -> Seq<char> {
    title + "\n"@ + NAME@ + " v"@ + VERSION@ + "\nPowered by RUA\n"@
}

/// The page text of a code; none for a normal answer.
pub open spec fn spec_error_text(code: ErrorCode) -> Seq<char> {
    match code {
        ErrorCode::Normal => Seq::empty(),
        ErrorCode::InternalError => error_page("Internal Server Error"@),
        ErrorCode::NotFound => error_page("Resource Not Found"@),
        ErrorCode::BadRequest => error_page("Bad Request"@),
    }
}

fn error_page_text(title: &str) -> (r: String)
    ensures
        r@ == error_page(title@),
{
    let mut out: Vec<char> = Vec::new();
    append_str(&mut out, title);
    append_str(&mut out, "\n");
    append_str(&mut out, NAME);
    append_str(&mut out, " v");
    append_str(&mut out, VERSION);
    append_str(&mut out, "\nPowered by RUA\n");
    string_from_chars(&out)
}

impl ErrorCode {
    /// The status code.
    pub fn code(&self) -> (r: u16)
        ensures
            r == match self {
                ErrorCode::Normal => 200u16,
                ErrorCode::InternalError => 500u16,
                ErrorCode::NotFound => 404u16,
                ErrorCode::BadRequest => 400u16,
            },
    {
        match self {
            ErrorCode::Normal => 200,
            ErrorCode::InternalError => 500,
            ErrorCode::NotFound => 404,
            ErrorCode::BadRequest => 400,
        }
    }

    /// The page text.
    pub fn to_string(&self) -> (r: String)
        ensures
            r@ == spec_error_text(*self),
    {
        match self {
            ErrorCode::Normal => String::new(),
            ErrorCode::InternalError => error_page_text("Internal Server Error"),
            ErrorCode::NotFound => error_page_text("Resource Not Found"),
            ErrorCode::BadRequest => error_page_text("Bad Request"),
        }
    }
}

/// Why a route could not answer.
#[derive(Debug, Clone)]
pub enum RouteError {
    /// Any other failure, with its message.
    Any(String),
    /// No route serves the request.
    RouteNotFound,
    /// The server failed.
    InternalError,
    /// The request is malformed.
    BadRequest,
}

impl RouteError {
    /// The error's message.
    pub fn to_string(&self) -> (r: String)
        ensures
            r@ == match self {
                RouteError::Any(m) => m@,
                RouteError::RouteNotFound => "route not found"@,
                RouteError::InternalError => "internal error"@,
                RouteError::BadRequest => "bad request"@,
            },
    {
        match self {
            RouteError::Any(m) => m.clone(),
            RouteError::RouteNotFound => "route not found".to_owned(),
            RouteError::InternalError => "internal error".to_owned(),
            RouteError::BadRequest => "bad request".to_owned(),
        }
    }

    /// The status and page an error is answered with: any other failure is
    /// a 500 with the internal error page; the named errors are all
    /// answered 404, each with its own page.
    pub fn into_response(&self) -> (r: (u16, String))
        ensures
            r.0 == match self {
                RouteError::Any(_) => 500u16,
                _ => 404u16,
            },
            r.1@ == match self {
                RouteError::Any(_) => spec_error_text(ErrorCode::InternalError),
                RouteError::RouteNotFound => spec_error_text(ErrorCode::NotFound),
                RouteError::InternalError => spec_error_text(ErrorCode::InternalError),
                RouteError::BadRequest => spec_error_text(ErrorCode::BadRequest),
            },
    {
        match self {
            RouteError::Any(_) => (500, ErrorCode::InternalError.to_string()),
            RouteError::RouteNotFound => (404, ErrorCode::NotFound.to_string()),
            RouteError::InternalError => (404, ErrorCode::InternalError.to_string()),
            RouteError::BadRequest => (404, ErrorCode::BadRequest.to_string()),
        }
    }
}

} // verus!
