//! How a request is presented to a script: its protocol version, its
//! request line, its raw headers, and its path split from its arguments.

use vstd::prelude::*;
use crate::text::{visible_ascii, chars_of, string_from_chars, split_spec, spec_find, find_chars, chars_slice, append_str};
use crate::web::lua::utils::{UriArgs, spec_parse_query};
use crate::web::header_map::{header_groups, flatten_groups, header_map_items, item_pairs};
use http::HeaderMap;

verus! {

broadcast use vstd::string::group_string_axioms;

/// The protocol versions a request can arrive in.
#[derive(Debug, Clone, Copy, PartialEq, Eq, Structural)]
pub enum ProtocolVersion {
    Http09,
    Http10,
    Http11,
    Http2,
    Http3,
}

pub open spec fn spec_version_string(v: ProtocolVersion) -> Seq<char> {
    match v {
        ProtocolVersion::Http09 => "HTTP/0.9"@,
        ProtocolVersion::Http10 => "HTTP/1.0"@,
        ProtocolVersion::Http11 => "HTTP/1.1"@,
        ProtocolVersion::Http2 => "HTTP/2.0"@,
        ProtocolVersion::Http3 => "HTTP/3.0"@,
    }
}

/// The version as the request line writes it.
pub fn http_version_to_string(v: ProtocolVersion) -> (r: &'static str)
    ensures
        r@ == spec_version_string(v),
{
    match v {
        ProtocolVersion::Http09 => "HTTP/0.9",
        ProtocolVersion::Http10 => "HTTP/1.0",
        ProtocolVersion::Http11 => "HTTP/1.1",
        ProtocolVersion::Http2 => "HTTP/2.0",
        ProtocolVersion::Http3 => "HTTP/3.0",
    }
}

pub open spec fn spec_version_number(v: ProtocolVersion) -> (u8, u8) {
    match v {
        ProtocolVersion::Http09 => (0, 9),
        ProtocolVersion::Http10 => (1, 0),
        ProtocolVersion::Http11 => (1, 1),
        ProtocolVersion::Http2 => (2, 0),
        ProtocolVersion::Http3 => (3, 0),
    }
}

/// The version as a number, major and tenths (a script sees `major.minor`).
pub fn http_version_number(v: ProtocolVersion) -> (r: (u8, u8))
    ensures
        r == spec_version_number(v),
{
    match v {
        ProtocolVersion::Http09 => (0, 9),
        ProtocolVersion::Http10 => (1, 0),
        ProtocolVersion::Http11 => (1, 1),
        ProtocolVersion::Http2 => (2, 0),
        ProtocolVersion::Http3 => (3, 0),
    }
}

/// The version string is `HTTP/` followed by the version number's digits:
/// the two ways a script sees the version agree.
pub proof fn lemma_version_forms_agree(v: ProtocolVersion)
    ensures
        spec_version_string(v) == "HTTP/"@ + seq![
            ((spec_version_number(v).0 + 48) as u32) as char,
            '.',
            ((spec_version_number(v).1 + 48) as u32) as char,
        ],
{
    reveal_strlit("HTTP/");
    reveal_strlit("HTTP/0.9");
    reveal_strlit("HTTP/1.0");
    reveal_strlit("HTTP/1.1");
    reveal_strlit("HTTP/2.0");
    reveal_strlit("HTTP/3.0");
    assert(spec_version_string(v) =~= "HTTP/"@ + seq![
        ((spec_version_number(v).0 + 48) as u32) as char,
        '.',
        ((spec_version_number(v).1 + 48) as u32) as char,
    ]);
}

/// `method path-and-query version`, with `/` for a missing path.
pub open spec fn spec_request_line(method: Seq<char>, pq: Option<Seq<char>>, version: Seq<char>) -> Seq<
    char,
> {
    method + seq![' '] + match pq {
        Some(p) => p,
        None => seq!['/'],
    } + seq![' '] + version
}

/// The request line a script sees.
pub fn build_request_line(method: &str, path_and_query: Option<&str>, version: &str) -> (r: String)
    ensures
        r@ == spec_request_line(
            method@,
            match path_and_query {
                Some(p) => Some(p@),
                None => None,
            },
            version@,
        ),
{
    let mut out: Vec<char> = Vec::new();
    append_str(&mut out, method);
    out.push(' ');
    match path_and_query {
        Some(p) => append_str(&mut out, p),
        None => out.push('/'),
    }
    out.push(' ');
    append_str(&mut out, version);
    let ghost pq = match path_and_query {
        Some(p) => Some(p@),
        None => None,
    };
    assert(out@ =~= spec_request_line(method@, pq, version@));
    string_from_chars(&out)
}

/// `name: value\r\n` for every header whose value is readable, in order.
pub open spec fn spec_raw_header(hs: Seq<(Seq<char>, Seq<u8>)>) -> Seq<char>
    decreases hs.len(),
{
    if hs.len() == 0 {
        Seq::empty()
    } else {
        spec_raw_header(hs.drop_last()) + if visible_ascii(hs.last().1) {
            hs.last().0 + seq![':', ' '] + hs.last().1.map_values(|b: u8| (b as u32) as char)
                + seq!['\r', '\n']
        } else {
            Seq::empty()
        }
    }
}

/// The raw header block a script sees; values that are not readable text
/// are left out.
pub fn build_raw_header(map: &HeaderMap) -> (r: String)
    ensures
        r@ == spec_raw_header(flatten_groups(header_groups(*map))),
{
    let headers = header_map_items(map);
    let ghost hs = item_pairs(headers@);
    let mut out: Vec<char> = Vec::new();
    let mut i: usize = 0;
    assert(hs.take(0) =~= Seq::<(Seq<char>, Seq<u8>)>::empty());
    while i < headers.len()
        invariant
            i <= headers.len(),
            hs == item_pairs(headers@),
            out@ == spec_raw_header(hs.take(i as int)),
        decreases headers.len() - i,
    {
        let ghost before = out@;
        assert(hs.take(i + 1).drop_last() == hs.take(i as int));
        assert(hs.take(i + 1).last() == hs[i as int]);
        let v = &headers[i].1;
        let mut ok = true;
        let mut k: usize = 0;
        while k < v.len()
            invariant
                k <= v.len(),
                ok == (forall|j: int| 0 <= j < k ==> (#[trigger] v@[j] == 9 || 32 <= v@[j] <= 126)),
            decreases v.len() - k,
        {
            if !(v[k] == 9 || (32 <= v[k] && v[k] <= 126)) {
                ok = false;
            }
            k = k + 1;
        }
        if ok {
            append_str(&mut out, headers[i].0.as_str());
            out.push(':');
            out.push(' ');
            let ghost mid = out@;
            let mut k: usize = 0;
            while k < v.len()
                invariant
                    k <= v.len(),
                    out@ == mid + v@.take(k as int).map_values(|b: u8| (b as u32) as char),
                decreases v.len() - k,
            {
                out.push(v[k] as char);
                k = k + 1;
                assert(out@ =~= mid + v@.take(k as int).map_values(|b: u8| (b as u32) as char));
            }
            assert(v@.take(v@.len() as int) == v@);
            out.push('\r');
            out.push('\n');
        }
        assert(out@ =~= spec_raw_header(hs.take(i + 1)));
        i = i + 1;
    }
    assert(hs.take(hs.len() as int) == hs);
    string_from_chars(&out)
}

/// The path and the arguments of a request target: split at the first
/// `?`; a missing target is `/` with no arguments.
pub open spec fn spec_uri_args(pq: Option<Seq<char>>) -> (Seq<char>, Seq<(Seq<char>, Seq<char>)>) {
    match pq {
        Some(p) => match spec_find(p, seq!['?']) {
            Some(i) => (p.take(i), spec_parse_query(p.subrange(i + 1, p.len() as int))),
            None => (p, spec_parse_query(Seq::empty())),
        },
        None => (seq!['/'], Seq::empty()),
    }
}

/// Splits a request target into its path and its arguments.
pub fn parse_uri_args(path_and_query: Option<&str>) -> (r: (String, UriArgs))
    ensures
        (r.0@, r.1@) == spec_uri_args(
            match path_and_query {
                Some(p) => Some(p@),
                None => None,
            },
        ),
{
    match path_and_query {
        Some(p) => {
            let cs = chars_of(p);
            let q: [char; 1] = ['?'];
            assert(q@ == seq!['?']);
            match find_chars(&cs, q.as_slice()) {
                Some(i) => {
                    let path = chars_slice(&cs, 0, i);
                    let query = chars_slice(&cs, i + 1, cs.len());
                    assert(path@ == p@.take(i as int));
                    let qs = string_from_chars(&query);
                    (string_from_chars(&path), UriArgs::from_query(qs.as_str()))
                },
                None => {
                    let empty = String::new();
                    (string_from_chars(&cs), UriArgs::from_query(empty.as_str()))
                },
            }
        },
        None => {
            let mut out: Vec<char> = Vec::new();
            out.push('/');
            assert(out@ =~= seq!['/']);
            (string_from_chars(&out), UriArgs::new())
        },
    }
}

} // verus!
