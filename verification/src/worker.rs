//! The decisions a worker makes about a request: byte ranges, keep-alive,
//! resources to push, and the response for a file that was looked up.

use vstd::prelude::*;
use vstd::string::StringExecFns;
use vstd::slice::{slice_to_vec, slice_subrange};
use vstd::utf8::{valid_utf8, decode_utf8, encode_utf8};
use crate::text::{
    split_spec, trim_spec, has_prefix, has_suffix, contains_seq, deep_chars, spec_find,
    lines_spec, spec_parse_unsigned_chars, eq_ignore_case, decimal, chars_of, chars_slice,
    split_chars, trim_chars, chars_start_with, chars_end_with, chars_contain, find_chars,
    lines_chars, parse_unsigned_chars, bytes_eq_ignore_case, string_from_chars, u64_to_decimal,
    append_str, append_bytes,
};
use crate::unicode::{str_from_utf8, decode_utf8_lossy, utf8_lossy, lowercase, lossy_text, opt_view};
use crate::logging::AccessLog;
use crate::web::parser::{Request, RequestView, Method, HttpVersion, deep_headers, opt_bytes};
use crate::web::response::{Response, ResponseView, spec_status_text, spec_response_bytes};
use crate::compress::{
    CompressionType, spec_should_compress, spec_select_encoding, should_compress,
    parse_accept_encoding, gzip_compress, deflate_compress, gzip_fast, deflate_fast,
};
use crate::router::{ResolveResult, ResolveView, get_mime_type, spec_mime_for, spec_extension};
use crate::http2::{
    Connection, HpackDecoder, HpackEncoder, H2Error, Stream, new_stream, max_client_id,
    size_update_unfinished, hpack_block, header_table, encoded_block, header_bytes,
    frame_header_bytes, build_headers_frame, build_data_frame,
};
use crate::web::response::{first_header_value, content_type_name};

verus! {

broadcast use vstd::string::group_string_axioms;

// ---------------------------------------------------------------------------
// Byte ranges.

pub open spec fn bytes_unit() -> Seq<char> {
    seq!['b', 'y', 't', 'e', 's', '=']
}

/// The two sides of the `-` in a range header, if it starts with `bytes=`.
pub open spec fn range_sides(s: Seq<char>) -> Seq<Seq<char>> {
    split_spec(s.subrange(6, s.len() as int), '-')
}

/// A position in a range: trimmed, then read as a `usize`.
pub open spec fn range_pos(s: Seq<char>) -> Option<nat> {
    spec_parse_unsigned_chars(trim_spec(s), usize::MAX as nat)
}

/// The byte range a `Range` header asks of a file of `file_size` bytes, as
/// inclusive positions: `bytes=a-b` (the end capped at the last byte),
/// `bytes=a-` (to the end) and `bytes=-n` (the last `n` bytes). Anything
/// else, a start past the end, or a start after the end, gives none.
pub open spec fn spec_range(s: Seq<char>, file_size: nat) -> Option<(nat, nat)> {
    if !has_prefix(s, bytes_unit()) {
        None
    } else {
        let sides = range_sides(s);
        if sides.len() != 2 {
            None
        } else if sides[0].len() == 0 {
            match range_pos(sides[1]) {
                Some(n) => if n > file_size || file_size == 0 {
                    None
                } else {
                    Some(((file_size - n) as nat, (file_size - 1) as nat))
                },
                None => None,
            }
        } else {
            match range_pos(sides[0]) {
                None => None,
                Some(start) => {
                    let end: Option<int> = if sides[1].len() == 0 {
                        Some(file_size - 1)
                    } else {
                        match range_pos(sides[1]) {
                            Some(e) => Some(
                                if e <= file_size - 1 {
                                    e as int
                                } else {
                                    file_size - 1
                                },
                            ),
                            None => None,
                        }
                    };
                    match end {
                        Some(e) => if start > e || start >= file_size {
                            None
                        } else {
                            Some((start, e as nat))
                        },
                        None => None,
                    }
                },
            }
        }
    }
}

/// The inputs on which reading a range of an empty file would compute the
/// position before the first byte.
pub open spec fn range_underflows(s: Seq<char>, file_size: nat) -> bool {
    &&& file_size == 0
    &&& has_prefix(s, bytes_unit())
    &&& range_sides(s).len() == 2
    &&& if range_sides(s)[0].len() == 0 {
        range_pos(range_sides(s)[1]) == Some(0nat)
    } else {
        range_pos(range_sides(s)[0]) is Some && (range_sides(s)[1].len() == 0 || range_pos(
            range_sides(s)[1],
        ) is Some)
    }
}

/// The range a header's bytes ask for: none unless they are UTF-8.
pub open spec fn spec_range_header(h: Seq<u8>, file_size: nat) -> Option<(nat, nat)> {
    if valid_utf8(h) {
        spec_range(decode_utf8(h), file_size)
    } else {
        None
    }
}

pub open spec fn header_underflows(h: Seq<u8>, file_size: nat) -> bool {
    valid_utf8(h) && range_underflows(decode_utf8(h), file_size)
}

pub open spec fn pair_view(r: Option<(usize, usize)>) -> Option<(nat, nat)> {
    match r {
        Some((a, b)) => Some((a as nat, b as nat)),
        None => None,
    }
}

/// `bytes=a-b` with `a <= b` inside a file is read as exactly the bytes
/// `a` to `b` (a single byte when `a == b`); `bytes=a-` runs from `a` to
/// the last byte; `bytes=-n` with `0 < n <= file_size` is the last `n`
/// bytes. An end past the file is capped at its last byte; a start after
/// the end or past the file, or a suffix longer than the file, is refused.
/// Positions are written in decimal.
pub proof fn lemma_range_reads_back(a: nat, b: nat, n: nat, file_size: nat)
    requires
        file_size <= usize::MAX,
    ensures
        a <= b < file_size ==> spec_range(
            bytes_unit() + decimal(a) + seq!['-'] + decimal(b),
            file_size,
        ) == Some((a, b)),
        a <= b && a < file_size <= b && b <= usize::MAX ==> spec_range(
            bytes_unit() + decimal(a) + seq!['-'] + decimal(b),
            file_size,
        ) == Some((a, (file_size - 1) as nat)),
        (a > b || a >= file_size) && a <= usize::MAX && b <= usize::MAX ==> spec_range(
            bytes_unit() + decimal(a) + seq!['-'] + decimal(b),
            file_size,
        ) is None,
        n > file_size && n <= usize::MAX ==> spec_range(bytes_unit() + seq!['-'] + decimal(n), file_size) is None,
        a < file_size ==> spec_range(bytes_unit() + decimal(a) + seq!['-'], file_size) == Some(
            (a, (file_size - 1) as nat),
        ),
        0 < n <= file_size ==> spec_range(bytes_unit() + seq!['-'] + decimal(n), file_size) == Some(
            ((file_size - n) as nat, (file_size - 1) as nat),
        ),
{
    crate::text::lemma_decimal_reads_back(a, usize::MAX as nat);
    crate::text::lemma_decimal_reads_back(b, usize::MAX as nat);
    crate::text::lemma_decimal_reads_back(n, usize::MAX as nat);
    crate::text::lemma_split_no_sep(decimal(a), '-');
    crate::text::lemma_split_no_sep(Seq::<char>::empty(), '-');
    assert forall|i: int| 0 <= i < decimal(b).len() implies #[trigger] decimal(b)[i] != '-' by {
        if decimal(b)[i] == '-' {
            assert(decimal(b).contains('-'));
        }
    }
    assert forall|i: int| 0 <= i < decimal(n).len() implies #[trigger] decimal(n)[i] != '-' by {
        if decimal(n)[i] == '-' {
            assert(decimal(n).contains('-'));
        }
    }
    crate::web::lua::utils::lemma_split_append(decimal(a), '-', decimal(b));
    crate::web::lua::utils::lemma_split_append(decimal(a), '-', Seq::<char>::empty());
    crate::web::lua::utils::lemma_split_append(Seq::<char>::empty(), '-', decimal(n));
    crate::text::lemma_decimal_digits(a);
    let s1 = bytes_unit() + decimal(a) + seq!['-'] + decimal(b);
    assert(s1.subrange(0, 6) =~= bytes_unit());
    assert(s1.subrange(6, s1.len() as int) =~= decimal(a) + seq!['-'] + decimal(b));
    assert(range_sides(s1) == seq![decimal(a), decimal(b)]);
    let s2 = bytes_unit() + decimal(a) + seq!['-'];
    assert(s2.subrange(0, 6) =~= bytes_unit());
    assert(s2.subrange(6, s2.len() as int) =~= decimal(a) + seq!['-'] + Seq::<char>::empty());
    assert(range_sides(s2) == seq![decimal(a), Seq::<char>::empty()]);
    let s3 = bytes_unit() + seq!['-'] + decimal(n);
    assert(s3.subrange(0, 6) =~= bytes_unit());
    assert(s3.subrange(6, s3.len() as int) =~= Seq::<char>::empty() + seq!['-'] + decimal(n));
    assert(range_sides(s3) == seq![Seq::<char>::empty(), decimal(n)]);
}

/// A `Range` header is read from its bytes as from its text.
pub proof fn lemma_range_header_text(s: Seq<char>, file_size: nat)
    ensures
        spec_range_header(encode_utf8(s), file_size) == spec_range(s, file_size),
{
    vstd::utf8::encode_utf8_valid_utf8(s);
    vstd::utf8::encode_utf8_decode_utf8(s);
}

/// A range is within the file and in order.
pub proof fn lemma_range_in_file(s: Seq<char>, file_size: nat)
    ensures
        spec_range(s, file_size) matches Some((a, b)) ==> a <= b + 1 && b < file_size,
{
}

/// Reads a `Range` header given as characters.
pub fn parse_range_chars(s: &[char], file_size: usize) -> (r: Option<(usize, usize)>)
    requires
        !range_underflows(s@, file_size as nat),
    ensures
        pair_view(r) == spec_range(s@, file_size as nat),
{
    let unit: [char; 6] = ['b', 'y', 't', 'e', 's', '='];
    assert(unit@ == bytes_unit());
    if !chars_start_with(s, unit.as_slice()) {
        return None;
    }
    let rest = chars_slice(s, 6, s.len());
    let parts = split_chars(&rest, '-');
    let ghost ps = deep_chars(parts@);
    assert(ps == range_sides(s@));
    if parts.len() != 2 {
        return None;
    }
    assert(parts@[0]@ == ps[0]);
    assert(parts@[1]@ == ps[1]);
    if parts[0].len() == 0 {
        let t = trim_chars(&parts[1]);
        match parse_unsigned_chars(&t, usize::MAX as u64) {
            Some(n) => {
                if n > file_size as u64 {
                    None
                } else {
                    Some((file_size - n as usize, file_size - 1))
                }
            },
            None => None,
        }
    } else {
        let t0 = trim_chars(&parts[0]);
        let start = match parse_unsigned_chars(&t0, usize::MAX as u64) {
            Some(v) => v as usize,
            None => {
                return None;
            },
        };
        let end: usize = if parts[1].len() == 0 {
            file_size - 1
        } else {
            let t1 = trim_chars(&parts[1]);
            match parse_unsigned_chars(&t1, usize::MAX as u64) {
                Some(e) => {
                    let e = e as usize;
                    if e <= file_size - 1 {
                        e
                    } else {
                        file_size - 1
                    }
                },
                None => {
                    return None;
                },
            }
        };
        if start > end || start >= file_size {
            None
        } else {
            Some((start, end))
        }
    }
}

/// Reads a `Range` header: `bytes=start-end`, `bytes=start-` or
/// `bytes=-suffix`, as inclusive byte positions of a file of `file_size`
/// bytes.
pub fn parse_range_header(range_header: &[u8], file_size: usize) -> (r: Option<(usize, usize)>)
    requires
        !header_underflows(range_header@, file_size as nat),
    ensures
        pair_view(r) == spec_range_header(range_header@, file_size as nat),
{
    match str_from_utf8(range_header) {
        Some(text) => {
            let cs = chars_of(text.as_str());
            parse_range_chars(&cs, file_size)
        },
        None => None,
    }
}

/// `bytes a-b/size`.
pub open spec fn content_range(a: nat, b: nat, size: nat) -> Seq<char> {
    "bytes "@ + decimal(a) + "-"@ + decimal(b) + "/"@ + decimal(size)
}

/// The answer to a range request: `206` with the part asked for (only its
/// length for `HEAD`), or `416` naming the size.
pub open spec fn spec_range_response(
    h: Seq<u8>,
    content: Seq<u8>,
    mime: Seq<char>,
    file_size: nat,
    method: Method,
) -> ResponseView {
    match spec_range_header(h, file_size) {
        Some((a, b)) => ResponseView {
            status: 206,
            status_text: spec_status_text(206),
            headers: seq![
                ("Content-Type"@, mime),
                ("Content-Range"@, content_range(a, b, file_size)),
                ("Accept-Ranges"@, "bytes"@),
            ] + if method == Method::HEAD {
                seq![("Content-Length"@, decimal((b - a + 1) as nat))]
            } else {
                Seq::empty()
            },
            body: if method == Method::HEAD {
                None
            } else {
                Some(content.subrange(a as int, (b + 1) as int))
            },
        },
        None => ResponseView {
            status: 416,
            status_text: spec_status_text(416),
            headers: seq![("Content-Range"@, "bytes */"@ + decimal(file_size))],
            body: Some("Range Not Satisfiable"@.map_values(|c: char| c as u8)),
        },
    }
}

/// Answers a request for part of a file.
pub fn handle_range_request(
    range_header: &[u8],
    content: &[u8],
    mime_type: &str,
    file_size: usize,
    method: Method,
) -> (r: Response)
    requires
        !header_underflows(range_header@, file_size as nat),
        spec_range_header(range_header@, file_size as nat) matches Some((a, b)) ==> a <= b,
        method != Method::HEAD ==> (spec_range_header(range_header@, file_size as nat) matches Some(
            (a, b),
        ) ==> b < content@.len()),
    ensures
        r@ == spec_range_response(range_header@, content@, mime_type@, file_size as nat, method),
{
    match parse_range_header(range_header, file_size) {
        Some((start, end)) => {
            let mut cr = "bytes ".to_owned();
            cr.append(u64_to_decimal(start as u64).as_str());
            cr.append("-");
            cr.append(u64_to_decimal(end as u64).as_str());
            cr.append("/");
            cr.append(u64_to_decimal(file_size as u64).as_str());
            let mut response = Response::partial_content().header("Content-Type", mime_type).header(
                "Content-Range",
                cr.as_str(),
            ).header("Accept-Ranges", "bytes");
            if method == Method::HEAD {
                let len = u64_to_decimal((end - start + 1) as u64);
                response = response.header("Content-Length", len.as_str());
            } else {
                let part = slice_to_vec(slice_subrange(content, start, end + 1));
                response = response.body(part);
            }
            assert(response@.headers =~= spec_range_response(
                range_header@,
                content@,
                mime_type@,
                file_size as nat,
                method,
            ).headers);
            response
        },
        None => {
            let mut cr = "bytes */".to_owned();
            cr.append(u64_to_decimal(file_size as u64).as_str());
            Response::range_not_satisfiable(cr.as_str())
        },
    }
}

// ---------------------------------------------------------------------------
// Headers of a request.

/// The value of the first header named `name`, ignoring ASCII case.
pub open spec fn first_header_bytes(hs: Seq<(Seq<u8>, Seq<u8>)>, name: Seq<u8>) -> Option<Seq<u8>>
    decreases hs.len(),
{
    if hs.len() == 0 {
        None
    } else if eq_ignore_case(hs[0].0, name) {
        Some(hs[0].1)
    } else {
        first_header_bytes(hs.drop_first(), name)
    }
}

/// The value of the first header named `name` (any ASCII case).
pub fn find_header(headers: &[(Vec<u8>, Vec<u8>)], name: &[u8]) -> (r: Option<Vec<u8>>)
    ensures
        opt_bytes(r) == first_header_bytes(deep_headers(headers@), name@),
{
    let ghost hs = deep_headers(headers@);
    let mut i: usize = 0;
    assert(hs.subrange(0, hs.len() as int) == hs);
    while i < headers.len()
        invariant
            i <= headers.len(),
            hs == deep_headers(headers@),
            first_header_bytes(hs, name@) == first_header_bytes(
                hs.subrange(i as int, hs.len() as int),
                name@,
            ),
        decreases headers.len() - i,
    {
        assert(hs.subrange(i as int, hs.len() as int)[0] == hs[i as int]);
        assert(hs.subrange(i as int, hs.len() as int).drop_first() == hs.subrange(
            i + 1,
            hs.len() as int,
        ));
        if bytes_eq_ignore_case(headers[i].0.as_slice(), name) {
            return Some(slice_to_vec(headers[i].1.as_slice()));
        }
        i = i + 1;
    }
    None
}

pub open spec fn connection_name() -> Seq<u8> {
    seq![67u8, 111, 110, 110, 101, 99, 116, 105, 111, 110]
}

pub open spec fn keep_alive_token() -> Seq<u8> {
    seq![107u8, 101, 101, 112, 45, 97, 108, 105, 118, 101]
}

pub open spec fn close_token() -> Seq<u8> {
    seq![99u8, 108, 111, 115, 101]
}

/// The first `Connection` header saying `keep-alive` or `close` decides;
/// without one, the default.
pub open spec fn keep_alive_from(hs: Seq<(Seq<u8>, Seq<u8>)>, default: bool) -> bool
    decreases hs.len(),
{
    if hs.len() == 0 {
        default
    } else if eq_ignore_case(hs[0].0, connection_name()) && eq_ignore_case(
        hs[0].1,
        keep_alive_token(),
    ) {
        true
    } else if eq_ignore_case(hs[0].0, connection_name()) && eq_ignore_case(
        hs[0].1,
        close_token(),
    ) {
        false
    } else {
        keep_alive_from(hs.drop_first(), default)
    }
}

/// HTTP/1.1 keeps the connection open unless told otherwise; HTTP/1.0 closes
/// it unless told otherwise.
pub open spec fn spec_keep_alive(r: RequestView) -> bool {
    keep_alive_from(r.headers, r.version == HttpVersion::Http11)
}

/// Whether to keep the connection open after answering.
pub fn is_keep_alive(request: &Request) -> (r: bool)
    ensures
        r == spec_keep_alive(request@),
{
    let default = request.version == HttpVersion::Http11;
    let conn: [u8; 10] = [67, 111, 110, 110, 101, 99, 116, 105, 111, 110];
    let ka: [u8; 10] = [107, 101, 101, 112, 45, 97, 108, 105, 118, 101];
    let cl: [u8; 5] = [99, 108, 111, 115, 101];
    assert(conn@ == connection_name());
    assert(ka@ == keep_alive_token());
    assert(cl@ == close_token());
    let ghost hs = request@.headers;
    let mut i: usize = 0;
    assert(hs.subrange(0, hs.len() as int) == hs);
    while i < request.headers.len()
        invariant
            i <= request.headers.len(),
            hs == deep_headers(request.headers@),
            conn@ == connection_name(),
            ka@ == keep_alive_token(),
            cl@ == close_token(),
            default == (request.version == HttpVersion::Http11),
            keep_alive_from(hs, default) == keep_alive_from(
                hs.subrange(i as int, hs.len() as int),
                default,
            ),
        decreases request.headers.len() - i,
    {
        assert(hs.subrange(i as int, hs.len() as int)[0] == hs[i as int]);
        assert(hs.subrange(i as int, hs.len() as int).drop_first() == hs.subrange(
            i + 1,
            hs.len() as int,
        ));
        let name = request.headers[i].0.as_slice();
        let value = request.headers[i].1.as_slice();
        if bytes_eq_ignore_case(name, conn.as_slice()) {
            if bytes_eq_ignore_case(value, ka.as_slice()) {
                return true;
            }
            if bytes_eq_ignore_case(value, cl.as_slice()) {
                return false;
            }
        }
        i = i + 1;
    }
    default
}

// ---------------------------------------------------------------------------
// Resources to push with an HTML page.

/// What follows `pat` up to the next `q`, at the first place `pat` occurs.
pub open spec fn quoted_after(tag: Seq<char>, pat: Seq<char>, q: char) -> Option<Seq<char>> {
    match spec_find(tag, pat) {
        Some(i) => {
            let rest = tag.subrange(i + pat.len(), tag.len() as int);
            match spec_find(rest, seq![q]) {
                Some(j) => Some(rest.take(j)),
                None => None,
            }
        },
        None => None,
    }
}

/// The value of `attr` in a tag: `attr="..."`, else `attr='...'`.
pub open spec fn spec_extract_attr(tag: Seq<char>, attr: Seq<char>) -> Option<Seq<char>> {
    match quoted_after(tag, attr + seq!['=', '"'], '"') {
        Some(v) => Some(v),
        None => quoted_after(tag, attr + seq!['=', '\''], '\''),
    }
}

fn quoted_after_chars(tag: &[char], pat: &[char], q: char) -> (r: Option<Vec<char>>)
    ensures
        match r {
            Some(v) => quoted_after(tag@, pat@, q) == Some(v@),
            None => quoted_after(tag@, pat@, q) is None,
        },
{
    match find_chars(tag, pat) {
        Some(i) => {
            let tl = tag.len();
            let pl = pat.len();
            assert(i + pl <= tl);
            let rest = chars_slice(tag, i + pl, tl);
            let qs: [char; 1] = [q];
            assert(qs@ == seq![q]);
            match find_chars(&rest, qs.as_slice()) {
                Some(j) => {
                    let v = chars_slice(&rest, 0, j);
                    assert(v@ == rest@.take(j as int));
                    Some(v)
                },
                None => None,
            }
        },
        None => None,
    }
}

/// The value of an attribute in a tag, given as characters.
pub fn extract_attr_chars(tag: &[char], attr: &[char]) -> (r: Option<Vec<char>>)
    ensures
        match r {
            Some(v) => spec_extract_attr(tag@, attr@) == Some(v@),
            None => spec_extract_attr(tag@, attr@) is None,
        },
{
    let mut dq: Vec<char> = slice_to_vec(attr);
    dq.push('=');
    dq.push('"');
    assert(dq@ =~= attr@ + seq!['=', '"']);
    match quoted_after_chars(tag, &dq, '"') {
        Some(v) => Some(v),
        None => {
            let mut sq: Vec<char> = slice_to_vec(attr);
            sq.push('=');
            sq.push('\'');
            assert(sq@ =~= attr@ + seq!['=', '\'']);
            quoted_after_chars(tag, &sq, '\'')
        },
    }
}

/// The value of an attribute in an HTML tag, quoted with `"` or `'`.
pub fn extract_attr_value(tag: &str, attr: &str) -> (r: Option<String>)
    ensures
        match r {
            Some(v) => spec_extract_attr(tag@, attr@) == Some(v@),
            None => spec_extract_attr(tag@, attr@) is None,
        },
{
    let t = chars_of(tag);
    let a = chars_of(attr);
    match extract_attr_chars(&t, &a) {
        Some(v) => Some(string_from_chars(&v)),
        None => None,
    }
}

/// A local path worth pushing: absolute and without `..`.
pub open spec fn pushable(p: Seq<char>) -> bool {
    has_prefix(p, seq!['/']) && !contains_seq(p, seq!['.', '.'])
}

/// What one line of HTML names for pushing: a stylesheet's `href`, then a
/// script's `src` ending in `.js`.
pub open spec fn line_resources(line: Seq<char>) -> Seq<Seq<char>> {
    let css: Seq<Seq<char>> = if contains_seq(line, "rel=\"stylesheet\""@) || contains_seq(
        line,
        "rel='stylesheet'"@,
    ) {
        match spec_extract_attr(line, "href"@) {
            Some(h) => if pushable(h) {
                seq![h]
            } else {
                Seq::empty()
            },
            None => Seq::empty(),
        }
    } else {
        Seq::empty()
    };
    let js: Seq<Seq<char>> = if contains_seq(line, "<script"@) && contains_seq(line, "src="@) {
        match spec_extract_attr(line, "src"@) {
            Some(s) => if pushable(s) && has_suffix(s, ".js"@) {
                seq![s]
            } else {
                Seq::empty()
            },
            None => Seq::empty(),
        }
    } else {
        Seq::empty()
    };
    css + js
}

/// The resources of each line, in order.
pub open spec fn lines_resources(lines: Seq<Seq<char>>) -> Seq<Seq<char>>
    decreases lines.len(),
{
    if lines.len() == 0 {
        Seq::empty()
    } else {
        lines_resources(lines.drop_last()) + line_resources(lines.last())
    }
}

/// The resources an HTML page names for pushing.
pub open spec fn spec_push_resources(html: Seq<u8>) -> Seq<Seq<char>> {
    lines_resources(lines_spec(utf8_lossy(html)))
}

pub open spec fn strings_view(v: Seq<String>) -> Seq<Seq<char>> {
    v.map_values(|s: String| s@)
}

fn lit_chars(s: &str) -> (r: Vec<char>)
    ensures
        r@ == s@,
{
    chars_of(s)
}

fn line_resources_exec(line: &[char]) -> (r: Vec<String>)
    ensures
        strings_view(r@) == line_resources(line@),
{
    let mut out: Vec<String> = Vec::new();
    let rel_dq = lit_chars("rel=\"stylesheet\"");
    let rel_sq = lit_chars("rel='stylesheet'");
    let href = lit_chars("href");
    let script = lit_chars("<script");
    let src_eq = lit_chars("src=");
    let src = lit_chars("src");
    let slash: [char; 1] = ['/'];
    let dots: [char; 2] = ['.', '.'];
    let js = lit_chars(".js");
    assert(slash@ == seq!['/']);
    assert(dots@ == seq!['.', '.']);
    if chars_contain(line, &rel_dq) || chars_contain(line, &rel_sq) {
        match extract_attr_chars(line, &href) {
            Some(h) => {
                if chars_start_with(&h, slash.as_slice()) && !chars_contain(&h, dots.as_slice()) {
                    out.push(string_from_chars(&h));
                }
            },
            None => {},
        }
    }
    let ghost mid = strings_view(out@);
    if chars_contain(line, &script) && chars_contain(line, &src_eq) {
        match extract_attr_chars(line, &src) {
            Some(s) => {
                if chars_start_with(&s, slash.as_slice()) && !chars_contain(&s, dots.as_slice())
                    && chars_end_with(&s, &js) {
                    out.push(string_from_chars(&s));
                }
            },
            None => {},
        }
    }
    assert(strings_view(out@) =~= line_resources(line@));
    out
}

/// The stylesheets and scripts an HTML page links by absolute local path,
/// in the order they appear.
pub fn extract_push_resources(html: &[u8]) -> (r: Vec<String>)
    ensures
        strings_view(r@) == spec_push_resources(html@),
{
    let text = decode_utf8_lossy(html);
    let cs = chars_of(text.as_str());
    let lines = lines_chars(&cs);
    let ghost ls = deep_chars(lines@);
    let mut out: Vec<String> = Vec::new();
    let mut i: usize = 0;
    assert(ls.take(0) =~= Seq::<Seq<char>>::empty());
    while i < lines.len()
        invariant
            i <= lines.len(),
            ls == deep_chars(lines@),
            ls == lines_spec(utf8_lossy(html@)),
            strings_view(out@) == lines_resources(ls.take(i as int)),
        decreases lines.len() - i,
    {
        assert(lines@[i as int]@ == ls[i as int]);
        let found = line_resources_exec(&lines[i]);
        let ghost before = strings_view(out@);
        let mut k: usize = 0;
        while k < found.len()
            invariant
                k <= found.len(),
                strings_view(out@) == before + strings_view(found@).take(k as int),
            decreases found.len() - k,
        {
            let item = found[k].clone();
            assert(item@ == strings_view(found@)[k as int]);
            let ghost old_out = out@;
            out.push(item);
            assert(strings_view(out@) =~= strings_view(old_out).push(strings_view(found@)[k as int]));
            assert(strings_view(found@).take(k + 1) =~= strings_view(found@).take(k as int).push(
                strings_view(found@)[k as int],
            ));
            k = k + 1;
            assert(strings_view(out@) =~= before + strings_view(found@).take(k as int));
        }
        assert(strings_view(found@).take(found.len() as int) == strings_view(found@));
        assert(ls.take(i + 1).drop_last() == ls.take(i as int));
        assert(ls.take(i + 1).last() == ls[i as int]);
        i = i + 1;
    }
    assert(ls.take(ls.len() as int) == ls);
    out
}

// ---------------------------------------------------------------------------
// The response for a file.

pub open spec fn accept_encoding_name() -> Seq<u8> {
    seq![65u8, 99, 99, 101, 112, 116, 45, 69, 110, 99, 111, 100, 105, 110, 103]
}

pub open spec fn range_name() -> Seq<u8> {
    seq![82u8, 97, 110, 103, 101]
}

/// The coding to send a file of this media type in: only text-like types
/// are compressed, and only as the request's `Accept-Encoding` allows.
pub open spec fn spec_negotiate(headers: Seq<(Seq<u8>, Seq<u8>)>, mime: Seq<char>) -> CompressionType {
    if spec_should_compress(lowercase(mime)) {
        match first_header_bytes(headers, accept_encoding_name()) {
            Some(v) => spec_select_encoding(lowercase(utf8_lossy(v))),
            None => CompressionType::Identity,
        }
    } else {
        CompressionType::Identity
    }
}

/// Chooses the coding for a file of the given media type.
pub fn negotiate_encoding(headers: &[(Vec<u8>, Vec<u8>)], mime: &str) -> (r: CompressionType)
    ensures
        r == spec_negotiate(deep_headers(headers@), mime@),
{
    if should_compress(mime) {
        let ae: [u8; 15] = [65, 99, 99, 101, 112, 116, 45, 69, 110, 99, 111, 100, 105, 110, 103];
        assert(ae@ == accept_encoding_name());
        match find_header(headers, ae.as_slice()) {
            Some(v) => parse_accept_encoding(&v),
            None => CompressionType::Identity,
        }
    } else {
        CompressionType::Identity
    }
}

/// The `Content-Encoding` header a coding needs.
pub open spec fn encoding_headers(enc: CompressionType) -> Seq<(Seq<char>, Seq<char>)> {
    match enc {
        CompressionType::Gzip => seq![("Content-Encoding"@, "gzip"@)],
        CompressionType::Deflate => seq![("Content-Encoding"@, "deflate"@)],
        CompressionType::Identity => Seq::empty(),
    }
}

/// `200 OK` for a file: its type, byte ranges offered, the coding; then the
/// body, or for `HEAD` only its length.
pub open spec fn spec_file_response(
    method: Method,
    mime: Seq<char>,
    enc: CompressionType,
    body: Seq<u8>,
) -> ResponseView {
    ResponseView {
        status: 200,
        status_text: spec_status_text(200),
        headers: seq![
            ("Content-Type"@, mime),
            ("Accept-Ranges"@, "bytes"@),
            ("Vary"@, "Accept-Encoding"@),
        ] + encoding_headers(enc) + if method == Method::HEAD {
            seq![("Content-Length"@, decimal(body.len()))]
        } else {
            Seq::empty()
        },
        body: if method == Method::HEAD {
            None
        } else {
            Some(body)
        },
    }
}

/// Builds the `200 OK` response for a file.
pub fn build_file_response(method: Method, mime: &str, enc: CompressionType, body: Vec<u8>) -> (r:
    Response)
    ensures
        r@ == spec_file_response(method, mime@, enc, body@),
{
    let mut response = Response::ok().header("Content-Type", mime).header(
        "Accept-Ranges",
        "bytes",
    ).header("Vary", "Accept-Encoding");
    match enc {
        CompressionType::Gzip => {
            response = response.header("Content-Encoding", "gzip");
        },
        CompressionType::Deflate => {
            response = response.header("Content-Encoding", "deflate");
        },
        CompressionType::Identity => {},
    }
    if method == Method::HEAD {
        let len = u64_to_decimal(body.len() as u64);
        response = response.header("Content-Length", len.as_str());
    } else {
        response = response.body(body);
    }
    assert(response@.headers =~= spec_file_response(method, mime@, enc, body@).headers);
    response
}

/// The coding and body actually sent: the compressor's output when it
/// succeeded (`ok`), else the content as it is.
pub open spec fn coded_body(enc: CompressionType, content: Seq<u8>, ok: bool) -> (
    CompressionType,
    Seq<u8>,
) {
    match enc {
        CompressionType::Gzip => if ok {
            (CompressionType::Gzip, gzip_fast(content))
        } else {
            (CompressionType::Identity, content)
        },
        CompressionType::Deflate => if ok {
            (CompressionType::Deflate, deflate_fast(content))
        } else {
            (CompressionType::Identity, content)
        },
        CompressionType::Identity => (CompressionType::Identity, content),
    }
}

pub open spec fn ascii_body(s: Seq<char>) -> Option<Seq<u8>> {
    Some(s.map_values(|c: char| c as u8))
}

/// The answer to a request, given what its path resolved to and, for a
/// file, its content (`None` when it could not be read): only `GET` and
/// `HEAD` are served; a file answers a `Range` header with a part, else the
/// whole file in the negotiated coding; a directory without an index and a
/// path outside the root are forbidden; a missing path is not found.
pub open spec fn spec_handle_request(
    req: RequestView,
    resolved: ResolveView,
    content: Option<Seq<u8>>,
    ok: bool,
) -> ResponseView {
    if req.method != Method::GET && req.method != Method::HEAD {
        ResponseView {
            status: 405,
            status_text: spec_status_text(405),
            headers: seq![("Content-Type"@, "text/plain"@)],
            body: ascii_body("Method Not Allowed"@),
        }
    } else {
        match resolved {
            ResolveView::File(path) => match content {
                Some(c) => {
                    let mime = spec_mime_for(spec_extension(path));
                    match first_header_bytes(req.headers, range_name()) {
                        Some(h) => spec_range_response(h, c, mime, c.len(), req.method),
                        None => {
                            let (e, b) = coded_body(spec_negotiate(req.headers, mime), c, ok);
                            spec_file_response(req.method, mime, e, b)
                        },
                    }
                },
                None => Response::new_view(500, ascii_body("Internal Server Error"@)),
            },
            ResolveView::Directory(_) => Response::new_view(403, ascii_body("Forbidden"@)),
            ResolveView::NotFound => Response::new_view(404, ascii_body("Not Found"@)),
            ResolveView::Forbidden => Response::new_view(403, ascii_body("Forbidden"@)),
        }
    }
}

/// The requests on which answering a range would go below zero: a range of
/// an empty file, or the empty suffix `bytes=-0`.
pub open spec fn handle_underflows(
    req: RequestView,
    resolved: ResolveView,
    content: Option<Seq<u8>>,
) -> bool {
    &&& req.method == Method::GET || req.method == Method::HEAD
    &&& resolved is File
    &&& content matches Some(c)
    &&& first_header_bytes(req.headers, range_name()) matches Some(h)
    &&& range_goes_below_zero(h, c.len())
}

/// A range header that would make the answer compute a position below zero.
pub open spec fn range_goes_below_zero(h: Seq<u8>, file_size: nat) -> bool {
    header_underflows(h, file_size) || (spec_range_header(h, file_size) matches Some((a, b)) && a
        > b)
}

pub open spec fn content_view(c: Option<Vec<u8>>) -> Option<Seq<u8>> {
    match c {
        Some(v) => Some(v@),
        None => None,
    }
}

/// Whether the range text `s` is one that makes a range position go below
/// zero for a file of `file_size` bytes (see `range_underflows`).
pub fn range_underflows_chars(s: &[char], file_size: usize) -> (r: bool)
    ensures
        r == range_underflows(s@, file_size as nat),
{
    if file_size != 0 {
        return false;
    }
    let unit: [char; 6] = ['b', 'y', 't', 'e', 's', '='];
    assert(unit@ == bytes_unit());
    if !chars_start_with(s, unit.as_slice()) {
        return false;
    }
    let rest = chars_slice(s, 6, s.len());
    let parts = split_chars(&rest, '-');
    let ghost ps = deep_chars(parts@);
    assert(ps == range_sides(s@));
    if parts.len() != 2 {
        return false;
    }
    assert(parts@[0]@ == ps[0]);
    assert(parts@[1]@ == ps[1]);
    if parts[0].len() == 0 {
        let t = trim_chars(&parts[1]);
        match parse_unsigned_chars(&t, usize::MAX as u64) {
            Some(n) => n == 0,
            None => false,
        }
    } else {
        let t0 = trim_chars(&parts[0]);
        match parse_unsigned_chars(&t0, usize::MAX as u64) {
            Some(_) => {
                if parts[1].len() == 0 {
                    true
                } else {
                    let t1 = trim_chars(&parts[1]);
                    parse_unsigned_chars(&t1, usize::MAX as u64).is_some()
                }
            },
            None => false,
        }
    }
}

/// Whether the `Range` header `h` makes a position go below zero for a file
/// of `file_size` bytes (see `range_goes_below_zero`).
pub fn range_header_underflows(h: &[u8], file_size: usize) -> (r: bool)
    ensures
        r == range_goes_below_zero(h@, file_size as nat),
{
    match str_from_utf8(h) {
        Some(text) => {
            let cs = chars_of(text.as_str());
            if range_underflows_chars(&cs, file_size) {
                true
            } else {
                match parse_range_chars(&cs, file_size) {
                    Some((a, b)) => a > b,
                    None => false,
                }
            }
        },
        None => false,
    }
}

/// Whether answering `request` as `handle_request` does would take a
/// position below zero (a suffix range of zero bytes, or any range on an
/// empty file): the inputs `handle_request` does not take.
pub fn request_underflows(request: &Request, resolved: &ResolveResult, content: &Option<Vec<u8>>) -> (r: bool)
    ensures
        r == handle_underflows(request@, resolved@, content_view(*content)),
{
    if request.method != Method::GET && request.method != Method::HEAD {
        return false;
    }
    match resolved {
        ResolveResult::File(_) => {
            match content {
                Some(c) => {
                    let rn: [u8; 5] = [82, 97, 110, 103, 101];
                    assert(rn@ == range_name());
                    match find_header(&request.headers, rn.as_slice()) {
                        Some(h) => range_header_underflows(&h, c.len()),
                        None => false,
                    }
                },
                None => false,
            }
        },
        _ => false,
    }
}

/// Answers a request for a static file, given what its path resolved to and
/// the file's content if it could be read.
pub fn handle_request(request: &Request, resolved: &ResolveResult, content: Option<Vec<u8>>) -> (r:
    Response)
    requires
        !handle_underflows(request@, resolved@, content_view(content)),
    ensures
        r@ == spec_handle_request(request@, resolved@, content_view(content), true),
{
    if request.method != Method::GET && request.method != Method::HEAD {
        let body = "Method Not Allowed".as_bytes();
        let r = Response::new(405).header("Content-Type", "text/plain").body(slice_to_vec(body));
        proof {
            reveal_strlit("Method Not Allowed");
            lemma_ascii_literal_bytes("Method Not Allowed"@);
        }
        assert(r@.headers =~= seq![("Content-Type"@, "text/plain"@)]);
        return r;
    }
    match resolved {
        ResolveResult::File(path) => {
            match content {
                Some(c) => {
                    let mime = get_mime_type(path.as_str());
                    let rn: [u8; 5] = [82, 97, 110, 103, 101];
                    assert(rn@ == range_name());
                    match find_header(&request.headers, rn.as_slice()) {
                        Some(h) => {
                            proof {
                                lemma_range_in_file(decode_utf8(h@), c@.len());
                            }
                            return handle_range_request(&h, &c, mime, c.len(), request.method);
                        },
                        None => {},
                    }
                    let enc = negotiate_encoding(&request.headers, mime);
                    match enc {
                        CompressionType::Gzip => match gzip_compress(&c) {
                            Ok(z) => build_file_response(request.method, mime, CompressionType::Gzip, z),
                            Err(_) => build_file_response(
                                request.method,
                                mime,
                                CompressionType::Identity,
                                c,
                            ),
                        },
                        CompressionType::Deflate => match deflate_compress(&c) {
                            Ok(z) => build_file_response(
                                request.method,
                                mime,
                                CompressionType::Deflate,
                                z,
                            ),
                            Err(_) => build_file_response(
                                request.method,
                                mime,
                                CompressionType::Identity,
                                c,
                            ),
                        },
                        CompressionType::Identity => build_file_response(
                            request.method,
                            mime,
                            CompressionType::Identity,
                            c,
                        ),
                    }
                },
                None => Response::internal_error(),
            }
        },
        ResolveResult::Directory(_) => Response::forbidden(),
        ResolveResult::NotFound => Response::not_found(),
        ResolveResult::Forbidden => Response::forbidden(),
    }
}

// ---------------------------------------------------------------------------
// Serving with `sendfile`: what is written around the file.

/// The `Connection` header's value.
pub open spec fn connection_value(keep_alive: bool) -> Seq<char> {
    if keep_alive {
        "keep-alive"@
    } else {
        "close"@
    }
}

/// `405 Method Not Allowed`, naming whether the connection stays open.
pub open spec fn spec_method_not_allowed(keep_alive: bool) -> ResponseView {
    ResponseView {
        status: 405,
        status_text: spec_status_text(405),
        headers: seq![("Content-Type"@, "text/plain"@), ("Connection"@, connection_value(keep_alive))],
        body: ascii_body("Method Not Allowed"@),
    }
}

/// The `405` answer to a method other than `GET` and `HEAD`.
pub fn method_not_allowed(keep_alive: bool) -> (r: Response)
    ensures
        r@ == spec_method_not_allowed(keep_alive),
{
    let conn = if keep_alive {
        "keep-alive"
    } else {
        "close"
    };
    let body = "Method Not Allowed".as_bytes();
    let r = Response::new(405).header("Content-Type", "text/plain").header("Connection", conn).body(
        slice_to_vec(body),
    );
    proof {
        reveal_strlit("Method Not Allowed");
        lemma_ascii_literal_bytes("Method Not Allowed"@);
    }
    assert(r@.headers =~= seq![("Content-Type"@, "text/plain"@), ("Connection"@, connection_value(keep_alive))]);
    r
}

/// A file can be sent as it is on disk: its type is not compressed, and a
/// `GET` asks for no range and names no coding.
pub open spec fn can_sendfile(req: RequestView, mime: Seq<char>) -> bool {
    &&& !spec_should_compress(lowercase(mime))
    &&& first_header_bytes(req.headers, range_name()) is None
    &&& req.method == Method::GET
    &&& first_header_bytes(req.headers, accept_encoding_name()) is None
}

/// The head written before a file sent as it is on disk.
pub open spec fn sendfile_head_text(mime: Seq<char>, size: nat, keep_alive: bool) -> Seq<char> {
    "HTTP/1.1 200 OK\r\nContent-Type: "@ + mime + "\r\nContent-Length: "@ + decimal(size)
        + "\r\nAccept-Ranges: bytes\r\nConnection: "@ + connection_value(keep_alive) + "\r\n\r\n"@
}

/// The head to write before sending the file at `path` of `file_size`
/// bytes as it is, or `None` when it must be read and answered otherwise.
pub fn sendfile_head(request: &Request, path: &str, file_size: usize, keep_alive: bool) -> (r: Option<
    Vec<u8>,
>)
    ensures
        r is Some <==> can_sendfile(request@, spec_mime_for(spec_extension(path@))),
        r matches Some(h) ==> h@ == vstd::utf8::encode_utf8(
            sendfile_head_text(spec_mime_for(spec_extension(path@)), file_size as nat, keep_alive),
        ),
{
    let mime = get_mime_type(path);
    let rn: [u8; 5] = [82, 97, 110, 103, 101];
    assert(rn@ == range_name());
    let ae: [u8; 15] = [65, 99, 99, 101, 112, 116, 45, 69, 110, 99, 111, 100, 105, 110, 103];
    assert(ae@ == accept_encoding_name());
    let can = !should_compress(mime) && find_header(&request.headers, rn.as_slice()).is_none()
        && request.method == Method::GET && find_header(&request.headers, ae.as_slice()).is_none();
    if !can {
        return None;
    }
    let mut out: Vec<char> = Vec::new();
    append_str(&mut out, "HTTP/1.1 200 OK\r\nContent-Type: ");
    append_str(&mut out, mime);
    append_str(&mut out, "\r\nContent-Length: ");
    let size = u64_to_decimal(file_size as u64);
    append_str(&mut out, size.as_str());
    append_str(&mut out, "\r\nAccept-Ranges: bytes\r\nConnection: ");
    if keep_alive {
        append_str(&mut out, "keep-alive");
    } else {
        append_str(&mut out, "close");
    }
    append_str(&mut out, "\r\n\r\n");
    let text = string_from_chars(&out);
    Some(slice_to_vec(text.as_str().as_bytes()))
}

/// `200 OK` for a file read into memory, as the `sendfile` path writes it:
/// like `spec_file_response`, with the `Connection` header after the
/// coding.
pub open spec fn spec_read_file_response(
    method: Method,
    mime: Seq<char>,
    enc: CompressionType,
    body: Seq<u8>,
    keep_alive: bool,
) -> ResponseView {
    ResponseView {
        status: 200,
        status_text: spec_status_text(200),
        headers: seq![
            ("Content-Type"@, mime),
            ("Accept-Ranges"@, "bytes"@),
            ("Vary"@, "Accept-Encoding"@),
        ] + encoding_headers(enc) + seq![("Connection"@, connection_value(keep_alive))] + if method
            == Method::HEAD {
            seq![("Content-Length"@, decimal(body.len()))]
        } else {
            Seq::empty()
        },
        body: if method == Method::HEAD {
            None
        } else {
            Some(body)
        },
    }
}

/// The bytes written for a file read into memory (`content`, the file
/// being `file_size` bytes by its metadata): a range answer followed, on a
/// kept connection, by a `Connection: keep-alive` line; else the whole file
/// in the negotiated coding (`ok`: whether the compressor succeeded).
pub open spec fn spec_content_bytes(
    req: RequestView,
    mime: Seq<char>,
    content: Seq<u8>,
    file_size: nat,
    keep_alive: bool,
    ok: bool,
) -> Seq<u8> {
    match first_header_bytes(req.headers, range_name()) {
        Some(h) => spec_response_bytes(spec_range_response(h, content, mime, file_size, req.method)) + if keep_alive {
            vstd::utf8::encode_utf8("Connection: keep-alive\r\n"@)
        } else {
            Seq::empty()
        },
        None => {
            let (e, b) = coded_body(spec_negotiate(req.headers, mime), content, ok);
            spec_response_bytes(spec_read_file_response(req.method, mime, e, b, keep_alive))
        },
    }
}

/// The inputs on which answering from memory would take a range position
/// below zero or past the content read.
pub open spec fn content_answer_fails(req: RequestView, content: Seq<u8>, file_size: nat) -> bool {
    first_header_bytes(req.headers, range_name()) matches Some(h) && (range_goes_below_zero(h, file_size)
        || (req.method != Method::HEAD && (spec_range_header(h, file_size) matches Some((a, b)) && b
        >= content.len())))
}

/// Whether answering from memory would fail (see `content_answer_fails`).
pub fn content_answer_would_fail(request: &Request, content: &[u8], file_size: usize) -> (r: bool)
    ensures
        r == content_answer_fails(request@, content@, file_size as nat),
{
    let rn: [u8; 5] = [82, 97, 110, 103, 101];
    assert(rn@ == range_name());
    match find_header(&request.headers, rn.as_slice()) {
        Some(h) => {
            if range_header_underflows(&h, file_size) {
                return true;
            }
            if request.method == Method::HEAD {
                return false;
            }
            match parse_range_header(&h, file_size) {
                Some((_, b)) => b >= content.len(),
                None => false,
            }
        },
        None => false,
    }
}

/// The bytes to write for the file at `path` read into memory, as
/// `spec_content_bytes` describes.
pub fn respond_with_content(
    request: &Request,
    path: &str,
    content: Vec<u8>,
    file_size: usize,
    keep_alive: bool,
) -> (r: Vec<u8>)
    requires
        !content_answer_fails(request@, content@, file_size as nat),
    ensures
        ({
            let mime = spec_mime_for(spec_extension(path@));
            r@ == spec_content_bytes(request@, mime, content@, file_size as nat, keep_alive, true)
        }),
{
    let mime = get_mime_type(path);
    let rn: [u8; 5] = [82, 97, 110, 103, 101];
    assert(rn@ == range_name());
    match find_header(&request.headers, rn.as_slice()) {
        Some(h) => {
            proof {
                lemma_range_in_file(decode_utf8(h@), file_size as nat);
            }
            let response = handle_range_request(&h, &content, mime, file_size, request.method);
            let mut out = response.to_bytes();
            if keep_alive {
                let tail = "Connection: keep-alive\r\n".as_bytes();
                let ghost before = out@;
                append_bytes(&mut out, tail);
            }
            return out;
        },
        None => {},
    }
    let enc = negotiate_encoding(&request.headers, mime);
    let (e, body): (CompressionType, Vec<u8>) = match enc {
        CompressionType::Gzip => match gzip_compress(&content) {
            Ok(z) => (CompressionType::Gzip, z),
            Err(_) => (CompressionType::Identity, content),
        },
        CompressionType::Deflate => match deflate_compress(&content) {
            Ok(z) => (CompressionType::Deflate, z),
            Err(_) => (CompressionType::Identity, content),
        },
        CompressionType::Identity => (CompressionType::Identity, content),
    };
    let mut response = Response::ok().header("Content-Type", mime).header("Accept-Ranges", "bytes").header(
        "Vary",
        "Accept-Encoding",
    );
    match e {
        CompressionType::Gzip => {
            response = response.header("Content-Encoding", "gzip");
        },
        CompressionType::Deflate => {
            response = response.header("Content-Encoding", "deflate");
        },
        CompressionType::Identity => {},
    }
    if keep_alive {
        response = response.header("Connection", "keep-alive");
    } else {
        response = response.header("Connection", "close");
    }
    let ghost blen = body@.len();
    let ghost bview = body@;
    if request.method == Method::HEAD {
        let len = u64_to_decimal(body.len() as u64);
        response = response.header("Content-Length", len.as_str());
    } else {
        response = response.body(body);
    }
    assert(response@.headers =~= spec_read_file_response(request.method, mime@, e, bview, keep_alive).headers);
    response.to_bytes()
}

// ---------------------------------------------------------------------------
// Access records and the redirect to HTTPS.

/// The name of a method.
pub open spec fn method_text(m: Method) -> Seq<char> {
    match m {
        Method::GET => "GET"@,
        Method::HEAD => "HEAD"@,
        Method::POST => "POST"@,
        Method::PUT => "PUT"@,
        Method::DELETE => "DELETE"@,
        Method::OPTIONS => "OPTIONS"@,
        Method::CONNECT => "CONNECT"@,
        Method::TRACE => "TRACE"@,
        Method::PATCH => "PATCH"@,
    }
}

pub fn method_name(m: Method) -> (r: &'static str)
    ensures
        r@ == method_text(m),
{
    match m {
        Method::GET => "GET",
        Method::HEAD => "HEAD",
        Method::POST => "POST",
        Method::PUT => "PUT",
        Method::DELETE => "DELETE",
        Method::OPTIONS => "OPTIONS",
        Method::CONNECT => "CONNECT",
        Method::TRACE => "TRACE",
        Method::PATCH => "PATCH",
    }
}

/// The name of a version.
pub open spec fn version_text(v: HttpVersion) -> Seq<char> {
    match v {
        HttpVersion::Http10 => "HTTP/1.0"@,
        HttpVersion::Http11 => "HTTP/1.1"@,
    }
}

pub fn version_name(v: HttpVersion) -> (r: &'static str)
    ensures
        r@ == version_text(v),
{
    match v {
        HttpVersion::Http10 => "HTTP/1.0",
        HttpVersion::Http11 => "HTTP/1.1",
    }
}

pub open spec fn referer_name() -> Seq<u8> {
    seq![82u8, 101, 102, 101, 114, 101, 114]
}

pub open spec fn user_agent_name() -> Seq<u8> {
    seq![85u8, 115, 101, 114, 45, 65, 103, 101, 110, 116]
}

pub open spec fn host_name() -> Seq<u8> {
    seq![72u8, 111, 115, 116]
}

/// An optional header value read as text.
pub open spec fn opt_text(b: Option<Seq<u8>>) -> Option<Seq<char>> {
    match b {
        Some(v) => Some(lossy_text(v)),
        None => None,
    }
}

fn header_text(headers: &[(Vec<u8>, Vec<u8>)], name: &[u8]) -> (r: Option<String>)
    ensures
        opt_view(r) == opt_text(first_header_bytes(deep_headers(headers@), name@)),
{
    match find_header(headers, name) {
        Some(v) => Some(decode_utf8_lossy(v.as_slice())),
        None => None,
    }
}

/// The access record of a connection that lasted `duration_ms`: status 200
/// when it succeeded, else 500; the request's method, path, version,
/// `Referer` and `User-Agent` when there is one, else the protocol's name
/// for the path `/` over HTTP/1.1. The time is the clock's.
pub fn log_record(client_addr: String, protocol: &str, duration_ms: u64, success: bool, request: Option<
    &Request,
>) -> (r: AccessLog)
    ensures
        r.client_addr@ == client_addr@,
        r.status == (if success {
            200u16
        } else {
            500u16
        }),
        r.response_size == 0,
        r.response_time_ms == duration_ms,
        match request {
            Some(q) => {
                &&& r.method@ == method_text(q.method)
                &&& r.path@ == lossy_text(q.path@)
                &&& r.version@ == version_text(q.version)
                &&& opt_view(r.referer) == opt_text(first_header_bytes(deep_headers(q.headers@), referer_name()))
                &&& opt_view(r.user_agent) == opt_text(
                    first_header_bytes(deep_headers(q.headers@), user_agent_name()),
                )
            },
            None => {
                &&& r.method@ == protocol@
                &&& r.path@ == "/"@
                &&& r.version@ == "HTTP/1.1"@
                &&& r.referer is None
                &&& r.user_agent is None
            },
        },
{
    let status: u16 = if success {
        200
    } else {
        500
    };
    match request {
        Some(q) => {
            let method = method_name(q.method).to_owned();
            let path = decode_utf8_lossy(q.path.as_slice());
            let version = version_name(q.version).to_owned();
            let rf: [u8; 7] = [82, 101, 102, 101, 114, 101, 114];
            assert(rf@ == referer_name());
            let ua: [u8; 10] = [85, 115, 101, 114, 45, 65, 103, 101, 110, 116];
            assert(ua@ == user_agent_name());
            let referer = header_text(&q.headers, rf.as_slice());
            let user_agent = header_text(&q.headers, ua.as_slice());
            AccessLog::new(client_addr, method, path, version, status, 0, duration_ms).with_referer(
                referer,
            ).with_user_agent(user_agent)
        },
        None => {
            AccessLog::new(
                client_addr,
                protocol.to_owned(),
                "/".to_owned(),
                "HTTP/1.1".to_owned(),
                status,
                0,
                duration_ms,
            )
        },
    }
}

/// Where a plain request is sent on HTTPS: the `Host` header (when it is
/// UTF-8, else the HTTPS address), the port unless it is 443, then the
/// path.
pub open spec fn redirect_url(host: Seq<char>, port: u16, path: Seq<char>) -> Seq<char> {
    if port == 443 {
        "https://"@ + host + path
    } else {
        "https://"@ + host + ":"@ + decimal(port as nat) + path
    }
}

pub open spec fn redirect_host(req: RequestView, https_addr: Seq<char>) -> Seq<char> {
    match first_header_bytes(req.headers, host_name()) {
        Some(h) => if valid_utf8(h) {
            decode_utf8(h)
        } else {
            https_addr
        },
        None => https_addr,
    }
}

/// `301 Moved Permanently` to the same path on HTTPS, closing the
/// connection.
pub fn https_redirect(request: &Request, https_addr: &str, https_port: u16) -> (r: Response)
    ensures
        r@ == (ResponseView {
            status: 301,
            status_text: spec_status_text(301),
            headers: seq![
                ("Location"@, redirect_url(redirect_host(request@, https_addr@), https_port, lossy_text(request.path@))),
                ("Connection"@, "close"@),
            ],
            body: ascii_body("Moved Permanently"@),
        }),
{
    let hn: [u8; 4] = [72, 111, 115, 116];
    assert(hn@ == host_name());
    let host: String = match find_header(&request.headers, hn.as_slice()) {
        Some(h) => match str_from_utf8(h.as_slice()) {
            Some(t) => t,
            None => https_addr.to_owned(),
        },
        None => https_addr.to_owned(),
    };
    let path = decode_utf8_lossy(request.path.as_slice());
    let mut url: Vec<char> = Vec::new();
    append_str(&mut url, "https://");
    append_str(&mut url, host.as_str());
    if https_port != 443 {
        append_str(&mut url, ":");
        let p = u64_to_decimal(https_port as u64);
        append_str(&mut url, p.as_str());
    }
    append_str(&mut url, path.as_str());
    let location = string_from_chars(&url);
    let body = "Moved Permanently".as_bytes();
    let r = Response::new(301).header("Location", location.as_str()).header("Connection", "close").body(
        slice_to_vec(body),
    );
    proof {
        reveal_strlit("Moved Permanently");
        lemma_ascii_literal_bytes("Moved Permanently"@);
    }
    assert(r@.headers =~= seq![
        ("Location"@, redirect_url(redirect_host(request@, https_addr@), https_port, lossy_text(request.path@))),
        ("Connection"@, "close"@),
    ]);
    r
}

// ---------------------------------------------------------------------------
// Requests over HTTP/2.

/// The value of the first entry named `name` in a decoded header table.
pub open spec fn table_value(t: Seq<(Seq<char>, Seq<char>)>, name: Seq<char>) -> Option<Seq<char>>
    decreases t.len(),
{
    if t.len() == 0 {
        None
    } else if t[0].0 == name {
        Some(t[0].1)
    } else {
        table_value(t.drop_first(), name)
    }
}

/// The method a `:method` value asks for: `GET` when absent, `GET` and
/// `HEAD` by name, anything else taken as `POST`.
pub open spec fn h2_method(v: Option<Seq<char>>) -> Method {
    match v {
        None => Method::GET,
        Some(m) => if m == "GET"@ {
            Method::GET
        } else if m == "HEAD"@ {
            Method::HEAD
        } else {
            Method::POST
        },
    }
}

/// The headers that are not pseudo-headers (those whose name starts with
/// `:`), as bytes, in order.
pub open spec fn h2_plain_headers(t: Seq<(Seq<char>, Seq<char>)>) -> Seq<(Seq<u8>, Seq<u8>)>
    decreases t.len(),
{
    if t.len() == 0 {
        Seq::empty()
    } else {
        let rest = h2_plain_headers(t.drop_last());
        if t.last().0.len() > 0 && t.last().0[0] == ':' {
            rest
        } else {
            rest.push((encode_utf8(t.last().0), encode_utf8(t.last().1)))
        }
    }
}

pub open spec fn pair_views(t: Seq<(String, String)>) -> Seq<(Seq<char>, Seq<char>)> {
    t.map_values(|p: (String, String)| (p.0@, p.1@))
}

fn table_lookup(headers: &[(String, String)], name: &str) -> (r: Option<String>)
    ensures
        opt_view(r) == table_value(pair_views(headers@), name@),
{
    let ghost t = pair_views(headers@);
    let want = chars_of(name);
    let mut i: usize = 0;
    assert(t.subrange(0, t.len() as int) =~= t);
    while i < headers.len()
        invariant
            i <= headers.len(),
            t == pair_views(headers@),
            want@ == name@,
            table_value(t, name@) == table_value(t.subrange(i as int, t.len() as int), name@),
        decreases headers.len() - i,
    {
        let k = chars_of(headers[i].0.as_str());
        let ghost rest = t.subrange(i as int, t.len() as int);
        assert(rest[0] == t[i as int]);
        assert(rest.drop_first() =~= t.subrange(i + 1, t.len() as int));
        if crate::text::chars_equal(&k, &want) {
            return Some(headers[i].1.clone());
        }
        i = i + 1;
    }
    assert(t.subrange(i as int, t.len() as int) =~= Seq::<(Seq<char>, Seq<char>)>::empty());
    None
}

/// The request an HTTP/2 header table describes, as the server answers it
/// (HTTP/1.1 semantics, no body).
pub fn h2_request(headers: &[(String, String)]) -> (r: Request)
    ensures
        r@ == (RequestView {
            method: h2_method(table_value(pair_views(headers@), ":method"@)),
            path: encode_utf8(
                match table_value(pair_views(headers@), ":path"@) {
                    Some(p) => p,
                    None => "/"@,
                },
            ),
            version: HttpVersion::Http11,
            headers: h2_plain_headers(pair_views(headers@)),
            body: None,
        }),
{
    let method = match table_lookup(headers, ":method") {
        None => Method::GET,
        Some(m) => {
            let mc = chars_of(m.as_str());
            let get: [char; 3] = ['G', 'E', 'T'];
            let head: [char; 4] = ['H', 'E', 'A', 'D'];
            proof {
                reveal_strlit("GET");
                reveal_strlit("HEAD");
            }
            assert(get@ == "GET"@);
            assert(head@ == "HEAD"@);
            if crate::text::chars_equal(&mc, get.as_slice()) {
                Method::GET
            } else if crate::text::chars_equal(&mc, head.as_slice()) {
                Method::HEAD
            } else {
                Method::POST
            }
        },
    };
    let path_text = match table_lookup(headers, ":path") {
        Some(p) => p,
        None => "/".to_owned(),
    };
    let path = slice_to_vec(path_text.as_str().as_bytes());
    let ghost t = pair_views(headers@);
    let mut hs: Vec<(Vec<u8>, Vec<u8>)> = Vec::new();
    let mut i: usize = 0;
    while i < headers.len()
        invariant
            i <= headers.len(),
            t == pair_views(headers@),
            deep_headers(hs@) == h2_plain_headers(t.take(i as int)),
        decreases headers.len() - i,
    {
        let name = headers[i].0.as_str();
        let nc = chars_of(name);
        proof {
            assert(t.take(i + 1).drop_last() =~= t.take(i as int));
            assert(t.take(i + 1).last() == t[i as int]);
            assert(t[i as int] == (headers@[i as int].0@, headers@[i as int].1@));
        }
        if nc.len() > 0 && nc[0] == ':' {
        } else {
            let ghost before = hs@;
            hs.push((slice_to_vec(name.as_bytes()), slice_to_vec(headers[i].1.as_str().as_bytes())));
            assert(deep_headers(hs@) =~= deep_headers(before).push(
                (encode_utf8(t[i as int].0), encode_utf8(t[i as int].1)),
            ));
        }
        i = i + 1;
    }
    assert(t.take(headers@.len() as int) =~= t);
    Request { method, path, version: HttpVersion::Http11, headers: hs, body: None }
}

/// The response header table for HTTP/2: status, type and length.
pub fn h2_response_headers(status: u16, content_type: &str, body_len: usize) -> (r: Vec<(String, String)>)
    ensures
        pair_views(r@) == seq![
            (":status"@, decimal(status as nat)),
            ("content-type"@, content_type@),
            ("content-length"@, decimal(body_len as nat)),
        ],
{
    let mut r: Vec<(String, String)> = Vec::new();
    r.push((":status".to_owned(), u64_to_decimal(status as u64)));
    r.push(("content-type".to_owned(), content_type.to_owned()));
    r.push(("content-length".to_owned(), u64_to_decimal(body_len as u64)));
    assert(pair_views(r@) =~= seq![
        (":status"@, decimal(status as nat)),
        ("content-type"@, content_type@),
        ("content-length"@, decimal(body_len as nat)),
    ]);
    r
}

/// Whether a response header table announces HTML.
pub open spec fn announces_html(t: Seq<(Seq<char>, Seq<char>)>) -> bool {
    exists|i: int| 0 <= i < t.len() && t[i].0 == "content-type"@ && contains_seq(t[i].1, "text/html"@)
}

/// The paths pushed with a response: when pushing is on and the response
/// is non-empty HTML, the first five resources it links; else none.
pub open spec fn spec_push_paths(push: bool, t: Seq<(Seq<char>, Seq<char>)>, body: Seq<u8>) -> Seq<Seq<char>> {
    if push && body.len() > 0 && announces_html(t) {
        let all = spec_push_resources(body);
        if all.len() > 5 {
            all.take(5)
        } else {
            all
        }
    } else {
        Seq::empty()
    }
}

pub fn h2_push_paths(push: bool, response_headers: &[(String, String)], body: &[u8]) -> (r: Vec<String>)
    ensures
        strings_view(r@) == spec_push_paths(push, pair_views(response_headers@), body@),
{
    if !push || body.len() == 0 {
        return Vec::new();
    }
    let ghost t = pair_views(response_headers@);
    let ct = chars_of("content-type");
    let html = chars_of("text/html");
    let mut found = false;
    let mut i: usize = 0;
    while i < response_headers.len()
        invariant
            i <= response_headers.len(),
            t == pair_views(response_headers@),
            ct@ == "content-type"@,
            html@ == "text/html"@,
            found <==> exists|j: int| 0 <= j < i && t[j].0 == "content-type"@ && contains_seq(t[j].1, "text/html"@),
        decreases response_headers.len() - i,
    {
        let k = chars_of(response_headers[i].0.as_str());
        let v = chars_of(response_headers[i].1.as_str());
        assert(t[i as int] == (response_headers@[i as int].0@, response_headers@[i as int].1@));
        if crate::text::chars_equal(&k, &ct) && chars_contain(&v, &html) {
            found = true;
        }
        i = i + 1;
    }
    if !found {
        return Vec::new();
    }
    let all = extract_push_resources(body);
    if all.len() <= 5 {
        return all;
    }
    let mut out: Vec<String> = Vec::new();
    let mut j: usize = 0;
    while j < 5
        invariant
            j <= 5,
            5 < all.len(),
            out.len() == j,
            forall|x: int| 0 <= x < j ==> out@[x]@ == all@[x]@,
        decreases 5 - j,
    {
        out.push(all[j].clone());
        j = j + 1;
    }
    assert(strings_view(out@) =~= strings_view(all@).take(5));
    out
}

/// The request headers of a pushed resource.
pub fn h2_push_request_headers(path: &str) -> (r: Vec<(String, String)>)
    ensures
        pair_views(r@) == seq![
            (":method"@, "GET"@),
            (":path"@, path@),
            (":scheme"@, "https"@),
            (":authority"@, "localhost"@),
        ],
{
    let mut r: Vec<(String, String)> = Vec::new();
    r.push((":method".to_owned(), "GET".to_owned()));
    r.push((":path".to_owned(), path.to_owned()));
    r.push((":scheme".to_owned(), "https".to_owned()));
    r.push((":authority".to_owned(), "localhost".to_owned()));
    assert(pair_views(r@) =~= seq![
        (":method"@, "GET"@),
        (":path"@, path@),
        (":scheme"@, "https"@),
        (":authority"@, "localhost"@),
    ]);
    r
}

/// The bytes of an ASCII literal are its characters' numbers.
proof fn lemma_ascii_literal_bytes(s: Seq<char>)
    requires
        vstd::utf8::is_ascii_chars(s),
    ensures
        vstd::utf8::encode_utf8(s) == s.map_values(|c: char| c as u8),
{
    vstd::utf8::is_ascii_chars_encode_utf8(s);
    assert(vstd::utf8::encode_utf8(s) =~= s.map_values(|c: char| c as u8));
}

// ---------------------------------------------------------------------------
// Answering a HEADERS frame.

/// The request an HTTP/2 header table describes (as `h2_request` builds it).
pub open spec fn spec_h2_request(t: Seq<(Seq<char>, Seq<char>)>) -> RequestView {
    RequestView {
        method: h2_method(table_value(t, ":method"@)),
        path: encode_utf8(
            match table_value(t, ":path"@) {
                Some(p) => p,
                None => "/"@,
            },
        ),
        version: HttpVersion::Http11,
        headers: h2_plain_headers(t),
        body: None,
    }
}

/// A client stream `id` may be opened: odd, above every client stream kept.
pub open spec fn opens_client_stream(c: Connection, id: u32) -> bool {
    id % 2 == 1 && id > max_client_id(c.streams@)
}

/// The first half of answering a HEADERS frame on `stream_id`: the stream
/// is accepted (else `InvalidStreamId`, nothing changed), its header block
/// decoded (else `InvalidSettings`), and the request it carries built. The
/// file lookup that follows is the caller's; `h2_reply` takes its answer.
pub fn h2_headers_request(
    conn: &mut Connection,
    decoder: &mut HpackDecoder,
    stream_id: u32,
    block: &[u8],
) -> (r: Result<Request, H2Error>)
    requires
        !size_update_unfinished(block@),
    ensures
        !opens_client_stream(*old(conn), stream_id) ==> r == Err::<Request, H2Error>(
            H2Error::InvalidStreamId,
        ) && *final(conn) == *old(conn) && *final(decoder) == *old(decoder),
        opens_client_stream(*old(conn), stream_id) ==> (forall|k: u32| #[trigger]
            final(conn).stream(k) == if k == stream_id {
                Some(new_stream(stream_id))
            } else {
                old(conn).stream(k)
            }) && final(conn).local_settings == old(conn).local_settings
            && final(conn).peer_settings == old(conn).peer_settings
            && final(conn).next_server_id() == old(conn).next_server_id()
            && final(conn).connection_send_window == old(conn).connection_send_window
            && final(conn).connection_recv_window == old(conn).connection_recv_window,
        opens_client_stream(*old(conn), stream_id) ==> match hpack_block(
            old(decoder).table(),
            old(decoder).max_size(),
            block@,
        ) {
            Some((l, t2, m2)) => r matches Ok(req) && req@ == spec_h2_request(header_table(l))
                && final(decoder).table() == t2 && final(decoder).max_size() == m2,
            None => r == Err::<Request, H2Error>(H2Error::InvalidSettings),
        },
{
    match conn.accept_client_stream(stream_id) {
        None => {
            return Err(H2Error::InvalidStreamId);
        },
        Some(_s) => {},
    }
    let headers = decoder.decode_headers(block)?;
    Ok(h2_request(headers.as_slice()))
}

/// The headers an answer goes out with over HTTP/2.
pub open spec fn reply_header_pairs(status: u16, content_type: Seq<char>, len: nat) -> Seq<
    (Seq<char>, Seq<char>),
> {
    seq![
        (":status"@, decimal(status as nat)),
        ("content-type"@, content_type),
        ("content-length"@, decimal(len)),
    ]
}

/// Names and values as bytes.
pub open spec fn pairs_bytes(t: Seq<(Seq<char>, Seq<char>)>) -> Seq<(Seq<u8>, Seq<u8>)> {
    t.map_values(|p: (Seq<char>, Seq<char>)| (encode_utf8(p.0), encode_utf8(p.1)))
}

/// The content type a response announces.
pub open spec fn response_content_type(r: ResponseView) -> Seq<char> {
    match first_header_value(r.headers, content_type_name()) {
        Some(v) => v,
        None => "application/octet-stream"@,
    }
}

pub open spec fn response_body(r: ResponseView) -> Seq<u8> {
    match r.body {
        Some(b) => b,
        None => Seq::empty(),
    }
}

/// The frames answering on `stream_id` with a header block `block` and
/// `body`: HEADERS (END_STREAM when the body is empty), then one DATA frame
/// with the body when there is one.
pub open spec fn reply_frames(stream_id: u32, block: Seq<u8>, body: Seq<u8>) -> Seq<u8> {
    if body.len() == 0 {
        frame_header_bytes(block.len() as u32, 1, 5, stream_id) + block
    } else {
        frame_header_bytes(block.len() as u32, 1, 4, stream_id) + block + frame_header_bytes(
            body.len() as u32,
            0,
            1,
            stream_id,
        ) + body
    }
}

/// The second half of answering a HEADERS frame: the frames that carry
/// `response` on `stream_id`, its `:status`, `content-type` and
/// `content-length` encoded by `encoder`, and the paths to push with it.
pub fn h2_reply(encoder: &mut HpackEncoder, stream_id: u32, push: bool, response: Response) -> (r: (
    Vec<u8>,
    Vec<String>,
))
    ensures
        ({
            let t = reply_header_pairs(
                response@.status,
                response_content_type(response@),
                response_body(response@).len(),
            );
            let (block, t2) = encoded_block(
                old(encoder).table(),
                old(encoder).max_size(),
                pairs_bytes(t),
            );
            &&& r.0@ == reply_frames(stream_id, block, response_body(response@))
            &&& final(encoder).table() == t2
            &&& final(encoder).max_size() == old(encoder).max_size()
            &&& strings_view(r.1@) == spec_push_paths(push, t, response_body(response@))
        }),
{
    let status = response.status_code();
    let ct = response.content_type().to_owned();
    let len = response.body_len();
    let hs = h2_response_headers(status, ct.as_str(), len);
    let ghost t = pair_views(hs@);
    assert(header_bytes(hs@) =~= pairs_bytes(t));
    let block = encoder.encode_headers(hs.as_slice());
    let body = response.into_body();
    let headers_frame = build_headers_frame(stream_id, block.as_slice(), body.len() == 0);
    let mut frames = headers_frame;
    if body.len() > 0 {
        let data_frame = build_data_frame(stream_id, body.as_slice(), true);
        append_bytes(&mut frames, data_frame.as_slice());
    }
    let paths = h2_push_paths(push, hs.as_slice(), body.as_slice());
    (frames, paths)
}

/// The frames that carry a pushed resource read from `file_path` on the
/// promised stream `push_id`: status 200, the file's content type and
/// length encoded by `encoder`, then the content.
pub fn h2_push_reply(encoder: &mut HpackEncoder, push_id: u32, file_path: &str, content: &[u8]) -> (r:
    Vec<u8>)
    ensures
        ({
            let t = reply_header_pairs(
                200,
                spec_mime_for(spec_extension(file_path@)),
                content@.len(),
            );
            let (block, t2) = encoded_block(
                old(encoder).table(),
                old(encoder).max_size(),
                pairs_bytes(t),
            );
            &&& r@ == reply_frames(push_id, block, content@)
            &&& final(encoder).table() == t2
            &&& final(encoder).max_size() == old(encoder).max_size()
        }),
{
    let mime = get_mime_type(file_path);
    let hs = h2_response_headers(200, mime, content.len());
    let ghost t = pair_views(hs@);
    assert(header_bytes(hs@) =~= pairs_bytes(t));
    let block = encoder.encode_headers(hs.as_slice());
    let mut frames = build_headers_frame(push_id, block.as_slice(), content.len() == 0);
    if content.len() > 0 {
        let data_frame = build_data_frame(push_id, content, true);
        append_bytes(&mut frames, data_frame.as_slice());
    }
    frames
}

} // verus!
