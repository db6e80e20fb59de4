//! Which configured site a request is for, by its `Host` header.

use vstd::prelude::*;
use crate::text::{chars_of, chars_equal, find_chars, chars_slice, string_from_chars, spec_find, visible_ascii, is_visible_ascii};
use crate::unicode::{to_lowercase, lowercase, ascii_lowercase, ascii_chars, ascii_string, all_ascii_chars};

verus! {

broadcast use vstd::string::group_string_axioms;

/// The text before the first `:`, or all of it.
pub open spec fn before_colon(s: Seq<char>) -> Seq<char> {
    match spec_find(s, seq![':']) {
        Some(i) => s.take(i),
        None => s,
    }
}

/// The host a request names: its `Host` value without a port, in
/// lowercase; none when the header is absent or is not visible ASCII.
pub open spec fn request_host(host: Option<Seq<u8>>) -> Option<Seq<char>> {
    match host {
        Some(h) => if visible_ascii(h) {
            Some(ascii_lowercase(before_colon(ascii_chars(h))))
        } else {
            None
        },
        None => None,
    }
}

/// A site configured for `expected` (any host when `None`) serves a
/// request whose `Host` header is `host` when the host, without its port,
/// equals the configured name, both in lowercase.
pub open spec fn spec_check_domain(expected: Option<Seq<char>>, host: Option<Seq<u8>>) -> bool {
    match expected {
        None => true,
        Some(e) => match request_host(host) {
            Some(a) => a == lowercase(e),
            None => false,
        },
    }
}

pub open spec fn opt_str(s: Option<&str>) -> Option<Seq<char>> {
    match s {
        Some(s) => Some(s@),
        None => None,
    }
}

pub open spec fn opt_bytes(b: Option<&[u8]>) -> Option<Seq<u8>> {
    match b {
        Some(b) => Some(b@),
        None => None,
    }
}

/// Whether the request goes on to the site configured for `expected`;
/// `false` is answered with 404 Not Found.
pub fn check_domain(expected: Option<&str>, host: Option<&[u8]>) -> (r: bool)
    ensures
        r == spec_check_domain(opt_str(expected), opt_bytes(host)),
{
    let e = match expected {
        None => return true,
        Some(e) => e,
    };
    let h = match host {
        None => return false,
        Some(h) => h,
    };
    if !is_visible_ascii(h) {
        return false;
    }
    let text = ascii_string(h);
    let cs = chars_of(text.as_str());
    let colon: [char; 1] = [':'];
    let end = match find_chars(&cs, &colon) {
        Some(i) => i,
        None => cs.len(),
    };
    proof {
        assert(colon@ == seq![':']);
    }
    let name_chars = chars_slice(&cs, 0, end);
    let name = string_from_chars(&name_chars);
    proof {
        assert(name@ =~= before_colon(ascii_chars(h@)));
        assert forall|i: int| 0 <= i < name@.len() implies (#[trigger] name@[i] as u32) < 128 by {
            let i0 = i;
            assert(name@[i0] == ascii_chars(h@)[i0]);
            assert(h@[i0] == 9 || 32 <= h@[i0] <= 126);
        }
        assert(all_ascii_chars(name@));
    }
    let actual = to_lowercase(name.as_str());
    let wanted = to_lowercase(e);
    let a = chars_of(actual.as_str());
    let w = chars_of(wanted.as_str());
    chars_equal(&a, &w)
}

} // verus!
