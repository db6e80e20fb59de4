//! Reading the port a request was addressed to.

use vstd::prelude::*;
use crate::text::{
    chars_of, chars_slice, split_spec, split_chars, deep_chars, spec_find, find_chars, has_prefix,
    contains_seq, chars_start_with, chars_contain, chars_equal, spec_parse_unsigned_chars,
    parse_unsigned_chars,
};

verus! {

broadcast use vstd::string::group_string_axioms;

pub open spec fn parse_port(s: Seq<char>) -> Option<nat> {
    spec_parse_unsigned_chars(s, 65535)
}

/// The default port of a scheme: 80 for `http`, 443 for `https`, none for
/// others.
pub open spec fn default_port(scheme: Seq<char>) -> Option<nat> {
    if scheme == "http"@ {
        Some(80)
    } else if scheme == "https"@ {
        Some(443)
    } else {
        None
    }
}

/// The port of a `Host` value: after `]:` for a bracketed IPv6 address,
/// whose port is the scheme's default when no `]:` follows; else the part
/// after the first `:`; without one, the scheme's default.
pub open spec fn spec_port_from_host(host: Seq<char>, scheme: Seq<char>) -> Option<nat> {
    if host.len() == 0 {
        None
    } else if has_prefix(host, seq!['[']) && contains_seq(host, seq![']']) {
        match spec_find(host, seq![']', ':']) {
            Some(i) => parse_port(host.subrange(i + 2, host.len() as int)),
            None => default_port(scheme),
        }
    } else {
        let parts = split_spec(host, ':');
        if parts.len() == 1 {
            default_port(scheme)
        } else {
            parse_port(parts[1])
        }
    }
}

/// The default port of `scheme`.
fn scheme_default_port(scheme: &str) -> (r: Option<u16>)
    ensures
        match r {
            Some(p) => default_port(scheme@) == Some(p as nat),
            None => default_port(scheme@) is None,
        },
{
    if str_eq(scheme, "http") {
        Some(80)
    } else if str_eq(scheme, "https") {
        Some(443)
    } else {
        None
    }
}

fn str_eq(a: &str, b: &str) -> (r: bool)
    ensures
        r == (a@ == b@),
{
    let x = chars_of(a);
    let y = chars_of(b);
    chars_equal(&x, &y)
}

/// The port a request addressed to `host` over `scheme` went to.
pub fn parse_port_from_host(host: &str, scheme: &str) -> (r: Option<u16>)
    ensures
        match r {
            Some(p) => spec_port_from_host(host@, scheme@) == Some(p as nat),
            None => spec_port_from_host(host@, scheme@) is None,
        },
{
    let cs = chars_of(host);
    if cs.len() == 0 {
        return None;
    }
    let open: [char; 1] = ['['];
    let close: [char; 1] = [']'];
    let close_colon: [char; 2] = [']', ':'];
    assert(open@ == seq!['[']);
    assert(close@ == seq![']']);
    assert(close_colon@ == seq![']', ':']);
    if chars_start_with(&cs, open.as_slice()) && chars_contain(&cs, close.as_slice()) {
        match find_chars(&cs, close_colon.as_slice()) {
            Some(i) => {
                let rest = chars_slice(&cs, i + 2, cs.len());
                match parse_unsigned_chars(&rest, 65535) {
                    Some(p) => Some(p as u16),
                    None => None,
                }
            },
            None => scheme_default_port(scheme),
        }
    } else {
        let parts = split_chars(&cs, ':');
        proof {
            crate::text::lemma_split_nonempty(cs@, ':');
        }
        if parts.len() == 1 {
            scheme_default_port(scheme)
        } else {
            assert(parts@[1]@ == deep_chars(parts@)[1]);
            match parse_unsigned_chars(&parts[1], 65535) {
                Some(p) => Some(p as u16),
                None => None,
            }
        }
    }
}

} // verus!
