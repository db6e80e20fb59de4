//! Service helpers, and the path a static route serves.

use vstd::prelude::*;
use vstd::string::StringSliceAdditionalSpecFns;
use vstd::utf8::{encode_utf8, is_char_boundary};
use crate::web::parser::bytes_equal;

pub mod service;
pub mod compress;
pub mod config_watcher;

verus! {

broadcast use vstd::string::group_string_axioms;

/// The inputs on which locating a static path would cut a character:
/// when the request path is long enough, the location's length must fall on
/// a character boundary of it, and when the location matches, so must the
/// position of its last byte (which needs a non-empty location).
pub open spec fn static_path_cuts(req: Seq<u8>, loc: Seq<u8>) -> bool {
    req.len() >= loc.len() && (!is_char_boundary(req, loc.len() as int) || (req.subrange(
        0,
        loc.len() as int,
    ) == loc && (loc.len() == 0 || !is_char_boundary(req, loc.len() - 1))))
}

/// The part of a request path a static route serves: when the path starts
/// with the route's location, the rest of it from the location's last byte
/// on (so the location's final `/` is kept); else nothing.
pub fn find_static_path<'a>(req_path: &'a str, location: &str) -> (r: Option<&'a str>)
    requires
        !static_path_cuts(encode_utf8(req_path@), encode_utf8(location@)),
    ensures
        ({
            let req = encode_utf8(req_path@);
            let loc = encode_utf8(location@);
            if req.len() >= loc.len() && req.subrange(0, loc.len() as int) == loc {
                r matches Some(t) && t.spec_bytes() == req.subrange(loc.len() - 1, req.len() as int)
            } else {
                r is None
            }
        }),
{
    let rb = req_path.as_bytes();
    let lb = location.as_bytes();
    let location_len = lb.len();
    if rb.len() < location_len {
        return None;
    }
    let (path, _) = req_path.split_at(location_len);
    if bytes_equal(path.as_bytes(), lb) {
        let (_, tail) = req_path.split_at(location_len - 1);
        Some(tail)
    } else {
        None
    }
}

} // verus!
