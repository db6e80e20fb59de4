//! Method identifiers that scripts pass to `set_method`.

use vstd::prelude::*;

verus! {

pub const HTTP_GET: u16 = 0;
pub const HTTP_HEAD: u16 = 1;
pub const HTTP_PUT: u16 = 2;
pub const HTTP_POST: u16 = 3;
pub const HTTP_DELETE: u16 = 4;
pub const HTTP_OPTIONS: u16 = 5;
pub const HTTP_MKCOL: u16 = 6;
pub const HTTP_COPY: u16 = 7;
pub const HTTP_MOVE: u16 = 8;
pub const HTTP_PROPFIND: u16 = 9;
pub const HTTP_PROPPATCH: u16 = 10;
pub const HTTP_LOCK: u16 = 11;
pub const HTTP_UNLOCK: u16 = 12;
pub const HTTP_PATCH: u16 = 13;
pub const HTTP_TRACE: u16 = 14;

/// The method named by an identifier.
pub open spec fn spec_method_name(id: u16) -> Option<Seq<char>> {
    if id == HTTP_GET {
        Some("GET"@)
    } else if id == HTTP_HEAD {
        Some("HEAD"@)
    } else if id == HTTP_PUT {
        Some("PUT"@)
    } else if id == HTTP_POST {
        Some("POST"@)
    } else if id == HTTP_DELETE {
        Some("DELETE"@)
    } else if id == HTTP_OPTIONS {
        Some("OPTIONS"@)
    } else if id == HTTP_MKCOL {
        Some("MKCOL"@)
    } else if id == HTTP_COPY {
        Some("COPY"@)
    } else if id == HTTP_MOVE {
        Some("MOVE"@)
    } else if id == HTTP_PROPFIND {
        Some("PROPFIND"@)
    } else if id == HTTP_PROPPATCH {
        Some("PROPPATCH"@)
    } else if id == HTTP_LOCK {
        Some("LOCK"@)
    } else if id == HTTP_UNLOCK {
        Some("UNLOCK"@)
    } else if id == HTTP_PATCH {
        Some("PATCH"@)
    } else if id == HTTP_TRACE {
        Some("TRACE"@)
    } else {
        None
    }
}

/// The method name for an identifier, as `set_method` uses it; `None` for
/// an identifier it refuses.
pub fn method_id_to_string(method_id: u16) -> (r: Option<&'static str>)
    ensures
        match r {
            Some(s) => spec_method_name(method_id) == Some(s@),
            None => spec_method_name(method_id) is None,
        },
{
    match method_id {
        HTTP_GET => Some("GET"),
        HTTP_HEAD => Some("HEAD"),
        HTTP_PUT => Some("PUT"),
        HTTP_POST => Some("POST"),
        HTTP_DELETE => Some("DELETE"),
        HTTP_OPTIONS => Some("OPTIONS"),
        HTTP_MKCOL => Some("MKCOL"),
        HTTP_COPY => Some("COPY"),
        HTTP_MOVE => Some("MOVE"),
        HTTP_PROPFIND => Some("PROPFIND"),
        HTTP_PROPPATCH => Some("PROPPATCH"),
        HTTP_LOCK => Some("LOCK"),
        HTTP_UNLOCK => Some("UNLOCK"),
        HTTP_PATCH => Some("PATCH"),
        HTTP_TRACE => Some("TRACE"),
        _ => None,
    }
}

} // verus!
