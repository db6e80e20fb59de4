//! A parser for HTTP/1.0 and HTTP/1.1 requests held in a byte buffer.

use vstd::prelude::*;
use vstd::slice::slice_to_vec;
use crate::text::{split_spec, split_bytes, deep_bytes, eq_ignore_case, bytes_eq_ignore_case, spec_parse_unsigned, parse_unsigned_bytes};

verus! {

/// HTTP request method.
#[derive(Debug, Clone, Copy, PartialEq, Eq, Structural)]
#[allow(clippy::upper_case_acronyms)]
pub enum Method {
    GET,
    HEAD,
    POST,
    PUT,
    DELETE,
    OPTIONS,
    CONNECT,
    TRACE,
    PATCH,
}

/// The token that names a method on the request line.
pub open spec fn method_token(m: Method) -> Seq<u8> {
    match m {
        Method::GET => seq![71u8, 69, 84],
        Method::HEAD => seq![72u8, 69, 65, 68],
        Method::POST => seq![80u8, 79, 83, 84],
        Method::PUT => seq![80u8, 85, 84],
        Method::DELETE => seq![68u8, 69, 76, 69, 84, 69],
        Method::OPTIONS => seq![79u8, 80, 84, 73, 79, 78, 83],
        Method::CONNECT => seq![67u8, 79, 78, 78, 69, 67, 84],
        Method::TRACE => seq![84u8, 82, 65, 67, 69],
        Method::PATCH => seq![80u8, 65, 84, 67, 72],
    }
}

/// The method that a token names, if any (the match is case-sensitive).
pub open spec fn spec_method(b: Seq<u8>) -> Option<Method> {
    if b == method_token(Method::GET) {
        Some(Method::GET)
    } else if b == method_token(Method::HEAD) {
        Some(Method::HEAD)
    } else if b == method_token(Method::POST) {
        Some(Method::POST)
    } else if b == method_token(Method::PUT) {
        Some(Method::PUT)
    } else if b == method_token(Method::DELETE) {
        Some(Method::DELETE)
    } else if b == method_token(Method::OPTIONS) {
        Some(Method::OPTIONS)
    } else if b == method_token(Method::CONNECT) {
        Some(Method::CONNECT)
    } else if b == method_token(Method::TRACE) {
        Some(Method::TRACE)
    } else if b == method_token(Method::PATCH) {
        Some(Method::PATCH)
    } else {
        None
    }
}

/// Whether two byte sequences are equal.
pub fn bytes_equal(a: &[u8], b: &[u8]) -> (r: bool)
    ensures
        r == (a@ == b@),
{
    if a.len() != b.len() {
        return false;
    }
    let mut i: usize = 0;
    while i < a.len()
        invariant
            i <= a.len(),
            a.len() == b.len(),
            forall|j: int| 0 <= j < i ==> a@[j] == b@[j],
        decreases a.len() - i,
    {
        if a[i] != b[i] {
            return false;
        }
        i = i + 1;
    }
    assert(a@ =~= b@);
    true
}

impl Method {
    /// The method named by `bytes`, or `None`.
    pub fn from_bytes(bytes: &[u8]) -> (r: Option<Self>)
        ensures
            r == spec_method(bytes@),
    {
        let get: [u8; 3] = [71, 69, 84];
        let head: [u8; 4] = [72, 69, 65, 68];
        let post: [u8; 4] = [80, 79, 83, 84];
        let put: [u8; 3] = [80, 85, 84];
        let delete: [u8; 6] = [68, 69, 76, 69, 84, 69];
        let options: [u8; 7] = [79, 80, 84, 73, 79, 78, 83];
        let connect: [u8; 7] = [67, 79, 78, 78, 69, 67, 84];
        let trace: [u8; 5] = [84, 82, 65, 67, 69];
        let patch: [u8; 5] = [80, 65, 84, 67, 72];
        assert(get@ == method_token(Method::GET));
        assert(head@ == method_token(Method::HEAD));
        assert(post@ == method_token(Method::POST));
        assert(put@ == method_token(Method::PUT));
        assert(delete@ == method_token(Method::DELETE));
        assert(options@ == method_token(Method::OPTIONS));
        assert(connect@ == method_token(Method::CONNECT));
        assert(trace@ == method_token(Method::TRACE));
        assert(patch@ == method_token(Method::PATCH));
        if bytes_equal(bytes, get.as_slice()) {
            Some(Method::GET)
        } else if bytes_equal(bytes, head.as_slice()) {
            Some(Method::HEAD)
        } else if bytes_equal(bytes, post.as_slice()) {
            Some(Method::POST)
        } else if bytes_equal(bytes, put.as_slice()) {
            Some(Method::PUT)
        } else if bytes_equal(bytes, delete.as_slice()) {
            Some(Method::DELETE)
        } else if bytes_equal(bytes, options.as_slice()) {
            Some(Method::OPTIONS)
        } else if bytes_equal(bytes, connect.as_slice()) {
            Some(Method::CONNECT)
        } else if bytes_equal(bytes, trace.as_slice()) {
            Some(Method::TRACE)
        } else if bytes_equal(bytes, patch.as_slice()) {
            Some(Method::PATCH)
        } else {
            None
        }
    }
}


/// HTTP version.
#[derive(Debug, Clone, Copy, PartialEq, Eq, Structural)]
pub enum HttpVersion {
    Http10,
    Http11,
}

/// The version that the third token of a request line names, if any.
pub open spec fn spec_version(b: Seq<u8>) -> Option<HttpVersion> {
    if b == seq![72u8, 84, 84, 80, 47, 49, 46, 48] {
        Some(HttpVersion::Http10)
    } else if b == seq![72u8, 84, 84, 80, 47, 49, 46, 49] {
        Some(HttpVersion::Http11)
    } else {
        None
    }
}

/// Why a request could not be parsed.
#[derive(Debug, Clone, Copy, PartialEq, Eq, Structural)]
pub enum ParseError {
    Incomplete,
    InvalidMethod,
    InvalidVersion,
    InvalidRequestLine,
    InvalidHeader,
    TooLarge,
    BodyTooLarge,
}

impl ParseError {
    /// The human-readable description of the error.
    pub fn message(&self) -> (r: &'static str)
        ensures
            r@ == spec_parse_error_message(*self),
    {
        match self {
            ParseError::Incomplete => "Incomplete request",
            ParseError::InvalidMethod => "Invalid method",
            ParseError::InvalidVersion => "Invalid HTTP version",
            ParseError::InvalidRequestLine => "Invalid request line",
            ParseError::InvalidHeader => "Invalid header",
            ParseError::TooLarge => "Request headers too large",
            ParseError::BodyTooLarge => "Request body too large",
        }
    }
}

pub open spec fn spec_parse_error_message(e: ParseError) -> Seq<char> {
    match e {
        ParseError::Incomplete => "Incomplete request"@,
        ParseError::InvalidMethod => "Invalid method"@,
        ParseError::InvalidVersion => "Invalid HTTP version"@,
        ParseError::InvalidRequestLine => "Invalid request line"@,
        ParseError::InvalidHeader => "Invalid header"@,
        ParseError::TooLarge => "Request headers too large"@,
        ParseError::BodyTooLarge => "Request body too large"@,
    }
}

/// A parsed HTTP request.
#[derive(Debug)]
pub struct Request {
    pub method: Method,
    pub path: Vec<u8>,
    pub version: HttpVersion,
    pub headers: Vec<(Vec<u8>, Vec<u8>)>,
    pub body: Option<Vec<u8>>,
}

/// The mathematical content of a request.
pub struct RequestView {
    pub method: Method,
    pub path: Seq<u8>,
    pub version: HttpVersion,
    pub headers: Seq<(Seq<u8>, Seq<u8>)>,
    pub body: Option<Seq<u8>>,
}

pub open spec fn deep_headers(h: Seq<(Vec<u8>, Vec<u8>)>) -> Seq<(Seq<u8>, Seq<u8>)> {
    h.map_values(|p: (Vec<u8>, Vec<u8>)| (p.0@, p.1@))
}

pub open spec fn opt_bytes(b: Option<Vec<u8>>) -> Option<Seq<u8>> {
    match b {
        Some(v) => Some(v@),
        None => None,
    }
}

impl View for Request {
    type V = RequestView;

    open spec fn view(&self) -> RequestView {
        RequestView {
            method: self.method,
            path: self.path@,
            version: self.version,
            headers: deep_headers(self.headers@),
            body: opt_bytes(self.body),
        }
    }
}

// ---------------------------------------------------------------------------
// Locating line ends.

pub open spec fn crlf_at(s: Seq<u8>, i: int) -> bool {
    0 <= i && i + 1 < s.len() && s[i] == 13u8 && s[i + 1] == 10u8
}

/// The first position at or after `k` where `\r\n` starts.
pub open spec fn crlf_from(s: Seq<u8>, k: int) -> Option<int>
    decreases s.len() - k,
{
    if k < 0 || k + 1 >= s.len() {
        None
    } else if crlf_at(s, k) {
        Some(k)
    } else {
        crlf_from(s, k + 1)
    }
}

pub open spec fn blank_line_at(s: Seq<u8>, i: int) -> bool {
    0 <= i && i + 3 < s.len() && s[i] == 13u8 && s[i + 1] == 10u8 && s[i + 2] == 13u8 && s[i + 3]
        == 10u8
}

/// The first position at or after `k` where `\r\n\r\n` starts.
pub open spec fn blank_line_from(s: Seq<u8>, k: int) -> Option<int>
    decreases s.len() - k,
{
    if k < 0 || k + 3 >= s.len() {
        None
    } else if blank_line_at(s, k) {
        Some(k)
    } else {
        blank_line_from(s, k + 1)
    }
}

/// A found position is an occurrence, and nothing between `k` and it is one.
pub proof fn lemma_crlf_from(s: Seq<u8>, k: int)
    requires
        k >= 0,
    ensures
        crlf_from(s, k) matches Some(i) ==> k <= i && crlf_at(s, i) && forall|j: int|
            k <= j < i ==> !crlf_at(s, j),
        crlf_from(s, k) is None ==> forall|j: int| k <= j ==> !crlf_at(s, j),
    decreases s.len() - k,
{
    if k + 1 < s.len() && !crlf_at(s, k) {
        lemma_crlf_from(s, k + 1);
    }
}

/// Position of the first `\r\n` in the buffer.
fn find_first_crlf(buffer: &[u8]) -> (r: Result<usize, ParseError>)
    ensures
        match r {
            Ok(i) => crlf_from(buffer@, 0) == Some(i as int),
            Err(e) => e == ParseError::Incomplete && crlf_from(buffer@, 0) is None,
        },
{
    let mut i: usize = 0;
    while i < buffer.len() && i + 1 < buffer.len()
        invariant
            i <= buffer.len(),
            crlf_from(buffer@, 0) == crlf_from(buffer@, i as int),
        decreases buffer.len() - i,
    {
        if buffer[i] == 13 && buffer[i + 1] == 10 {
            return Ok(i);
        }
        i = i + 1;
    }
    Err(ParseError::Incomplete)
}

/// Position of `\r\n` in `data`, searching from `start`.
fn find_crlf(data: &[u8], start: usize) -> (r: Option<usize>)
    ensures
        match r {
            Some(i) => crlf_from(data@, start as int) == Some(i as int),
            None => crlf_from(data@, start as int) is None,
        },
{
    let mut i: usize = start;
    while i < data.len() && i + 1 < data.len()
        invariant
            start <= i,
            i <= data.len() || i == start,
            crlf_from(data@, start as int) == crlf_from(data@, i as int),
        decreases data.len() - i,
    {
        if data[i] == 13 && data[i + 1] == 10 {
            return Some(i);
        }
        i = i + 1;
    }
    None
}

/// Position of the blank line (`\r\n\r\n`) that ends the header block.
fn find_headers_end(buffer: &[u8]) -> (r: Result<usize, ParseError>)
    ensures
        match r {
            Ok(i) => blank_line_from(buffer@, 0) == Some(i as int),
            Err(e) => e == ParseError::Incomplete && blank_line_from(buffer@, 0) is None,
        },
{
    let mut pos: usize = 0;
    while buffer.len() >= 4 && pos < buffer.len() - 3
        invariant
            pos <= buffer.len(),
            blank_line_from(buffer@, 0) == blank_line_from(buffer@, pos as int),
        decreases buffer.len() - pos,
    {
        if buffer[pos] == 13 && buffer[pos + 1] == 10 && buffer[pos + 2] == 13 && buffer[pos + 3]
            == 10 {
            return Ok(pos);
        }
        pos = pos + 1;
    }
    Err(ParseError::Incomplete)
}

// ---------------------------------------------------------------------------
// The request line.

/// `METHOD SP PATH SP VERSION`: exactly three space-separated tokens.
pub open spec fn spec_request_line(line: Seq<u8>) -> Result<(Method, Seq<u8>, HttpVersion), ParseError> {
    let parts = split_spec(line, 32u8);
    if parts.len() != 3 {
        Err(ParseError::InvalidRequestLine)
    } else {
        match spec_method(parts[0]) {
            None => Err(ParseError::InvalidMethod),
            Some(m) => match spec_version(parts[2]) {
                None => Err(ParseError::InvalidVersion),
                Some(v) => Ok((m, parts[1], v)),
            },
        }
    }
}

fn parse_request_line(line: &[u8]) -> (r: Result<(Method, Vec<u8>, HttpVersion), ParseError>)
    ensures
        match (r, spec_request_line(line@)) {
            (Ok((m, p, v)), Ok((sm, sp, sv))) => m == sm && p@ == sp && v == sv,
            (Err(e), Err(se)) => e == se,
            _ => false,
        },
{
    let parts = split_bytes(line, 32);
    proof {
        assert(deep_bytes(parts@).len() == parts@.len());
    }
    if parts.len() != 3 {
        return Err(ParseError::InvalidRequestLine);
    }
    proof {
        assert(deep_bytes(parts@)[0] == parts@[0]@);
        assert(deep_bytes(parts@)[1] == parts@[1]@);
        assert(deep_bytes(parts@)[2] == parts@[2]@);
    }
    let method = match Method::from_bytes(parts[0].as_slice()) {
        Some(m) => m,
        None => {
            return Err(ParseError::InvalidMethod);
        },
    };
    let http10: [u8; 8] = [72, 84, 84, 80, 47, 49, 46, 48];
    let http11: [u8; 8] = [72, 84, 84, 80, 47, 49, 46, 49];
    assert(http10@ == seq![72u8, 84, 84, 80, 47, 49, 46, 48]);
    assert(http11@ == seq![72u8, 84, 84, 80, 47, 49, 46, 49]);
    let version = if bytes_equal(parts[2].as_slice(), http10.as_slice()) {
        HttpVersion::Http10
    } else if bytes_equal(parts[2].as_slice(), http11.as_slice()) {
        HttpVersion::Http11
    } else {
        return Err(ParseError::InvalidVersion);
    };
    let path = slice_to_vec(parts[1].as_slice());
    Ok((method, path, version))
}


// ---------------------------------------------------------------------------
// Header lines.

/// The first position at or after `k` holding `x`.
pub open spec fn byte_from(s: Seq<u8>, x: u8, k: int) -> Option<int>
    decreases s.len() - k,
{
    if k < 0 || k >= s.len() {
        None
    } else if s[k] == x {
        Some(k)
    } else {
        byte_from(s, x, k + 1)
    }
}

/// The first position at or after `k` that is not a space.
pub open spec fn skip_spaces(s: Seq<u8>, k: int) -> int
    decreases s.len() - k,
{
    if 0 <= k < s.len() && s[k] == 32u8 {
        skip_spaces(s, k + 1)
    } else {
        k
    }
}

/// `name: value`, split at the first colon; the value loses its leading spaces.
pub open spec fn spec_header_line(l: Seq<u8>) -> Option<(Seq<u8>, Seq<u8>)> {
    match byte_from(l, 58u8, 0) {
        None => None,
        Some(c) => {
            let value = l.subrange(c + 1, l.len() as int);
            Some((l.subrange(0, c), value.subrange(skip_spaces(value, 0), value.len() as int)))
        },
    }
}

/// The header lines of `d` from position `pos` on: lines end at `\r\n` (the
/// last one may lack it) and an empty line stops the list.
pub open spec fn spec_header_lines(d: Seq<u8>, pos: int) -> Option<Seq<(Seq<u8>, Seq<u8>)>>
    decreases d.len() - pos,
{
    if pos < 0 || pos >= d.len() {
        Some(seq![])
    } else {
        let line_end = match crlf_from(d, pos) {
            Some(i) => i,
            None => d.len() as int,
        };
        if line_end == pos {
            Some(seq![])
        } else {
            match spec_header_line(d.subrange(pos, line_end)) {
                None => None,
                Some(h) => {
                    if line_end + 2 > d.len() {
                        Some(seq![h])
                    } else {
                        proof {
                            lemma_crlf_from_bounds(d, pos);
                        }
                        match spec_header_lines(d, line_end + 2) {
                            None => None,
                            Some(rest) => Some(seq![h] + rest),
                        }
                    }
                },
            }
        }
    }
}

pub open spec fn prepend_headers(
    acc: Seq<(Seq<u8>, Seq<u8>)>,
    o: Option<Seq<(Seq<u8>, Seq<u8>)>>,
) -> Option<Seq<(Seq<u8>, Seq<u8>)>> {
    match o {
        Some(r) => Some(acc + r),
        None => None,
    }
}

pub proof fn lemma_crlf_from_bounds(s: Seq<u8>, k: int)
    requires
        k >= 0,
    ensures
        crlf_from(s, k) matches Some(i) ==> k <= i && i + 1 < s.len() && crlf_at(s, i),
    decreases s.len() - k,
{
    if k + 1 < s.len() && !crlf_at(s, k) {
        lemma_crlf_from_bounds(s, k + 1);
    }
}

/// `n` spaces.
pub open spec fn spaces(n: nat) -> Seq<u8> {
    Seq::new(n, |i: int| 32u8)
}

proof fn lemma_byte_from_first(s: Seq<u8>, x: u8, k: int, j: int)
    requires
        0 <= k <= j < s.len(),
        s[j] == x,
        forall|i: int| k <= i < j ==> s[i] != x,
    ensures
        byte_from(s, x, k) == Some(j),
    decreases j - k,
{
    if k < j {
        lemma_byte_from_first(s, x, k + 1, j);
    }
}

proof fn lemma_skip_space_run(s: Seq<u8>, k: int, n: int)
    requires
        0 <= k,
        0 <= n,
        k + n <= s.len(),
        forall|i: int| k <= i < k + n ==> s[i] == 32u8,
        k + n == s.len() || s[k + n] != 32u8,
    ensures
        skip_spaces(s, k) == k + n,
    decreases n,
{
    if n > 0 {
        lemma_skip_space_run(s, k + 1, n - 1);
    }
}

/// A header line `name: value` reads as the name before the first `:` and
/// the value after it with the spaces that follow the colon left out, the
/// value itself kept as it is: `Host: localhost` gives `Host` and
/// `localhost`.
pub proof fn lemma_header_line_reads(name: Seq<u8>, n: nat, value: Seq<u8>)
    requires
        !name.contains(58u8),
        value.len() == 0 || value[0] != 32u8,
    ensures
        spec_header_line(name + seq![58u8] + spaces(n) + value) == Some((name, value)),
{
    let l = name + seq![58u8] + spaces(n) + value;
    assert forall|i: int| 0 <= i < name.len() implies l[i] != 58u8 by {
        assert(l[i] == name[i]);
        if name[i] == 58u8 {
            assert(name.contains(58u8));
        }
    }
    lemma_byte_from_first(l, 58u8, 0, name.len() as int);
    let v = l.subrange(name.len() as int + 1, l.len() as int);
    assert(v =~= spaces(n) + value);
    if n < v.len() {
        assert(v[n as int] == value[0]);
    }
    lemma_skip_space_run(v, 0, n as int);
    assert(v.subrange(n as int, v.len() as int) =~= value);
    assert(l.subrange(0, name.len() as int) =~= name);
}

/// A `Content-Length` header (the name in any case) whose value, after the
/// spaces that follow the colon, is a number that fits a `usize` gives the
/// body that many bytes, whatever headers follow it.
pub proof fn lemma_content_length_line(
    name: Seq<u8>,
    n: nat,
    digits: Seq<u8>,
    rest: Seq<(Seq<u8>, Seq<u8>)>,
)
    requires
        eq_ignore_case(name, content_length_name()),
        !name.contains(58u8),
        digits.len() > 0,
        forall|i: int| 0 <= i < digits.len() ==> 48 <= #[trigger] digits[i] <= 57,
        crate::text::digits_value(digits) <= usize::MAX,
    ensures
        spec_header_line(name + seq![58u8] + spaces(n) + digits) == Some((name, digits)),
        spec_content_length(seq![(name, digits)] + rest) == Some(crate::text::digits_value(digits)),
{
    assert(48 <= digits[0] <= 57);
    lemma_header_line_reads(name, n, digits);
    let hs = seq![(name, digits)] + rest;
    assert(hs[0] == (name, digits));
    assert(crate::text::unsigned_digits(digits) == digits);
}

fn parse_header_line(line: &[u8]) -> (r: Option<(Vec<u8>, Vec<u8>)>)
    ensures
        match (r, spec_header_line(line@)) {
            (Some(h), Some(sh)) => h.0@ == sh.0 && h.1@ == sh.1,
            (None, None) => true,
            _ => false,
        },
{
    let mut c: usize = 0;
    while c < line.len() && line[c] != 58
        invariant
            c <= line.len(),
            byte_from(line@, 58u8, 0) == byte_from(line@, 58u8, c as int),
        decreases line.len() - c,
    {
        c = c + 1;
    }
    if c >= line.len() {
        return None;
    }
    assert(byte_from(line@, 58u8, 0) == Some(c as int));
    let value = &line[c + 1..line.len()];
    let mut v: usize = 0;
    while v < value.len() && value[v] == 32
        invariant
            v <= value.len(),
            skip_spaces(value@, 0) == skip_spaces(value@, v as int),
        decreases value.len() - v,
    {
        v = v + 1;
    }
    assert(skip_spaces(value@, 0) == v as int);
    assert(value@ == line@.subrange(c + 1, line@.len() as int));
    Some((slice_to_vec(&line[0..c]), slice_to_vec(&value[v..value.len()])))
}

/// Parses the header block (the bytes between the request line and the
/// blank line).
fn parse_headers(data: &[u8]) -> (r: Result<Vec<(Vec<u8>, Vec<u8>)>, ParseError>)
    ensures
        match (r, spec_header_lines(data@, 0)) {
            (Ok(h), Some(sh)) => deep_headers(h@) == sh,
            (Err(e), None) => e == ParseError::InvalidHeader,
            _ => false,
        },
{
    let mut headers: Vec<(Vec<u8>, Vec<u8>)> = Vec::new();
    let mut pos: usize = 0;
    while pos < data.len()
        invariant
            spec_header_lines(data@, 0) == prepend_headers(
                deep_headers(headers@),
                spec_header_lines(data@, pos as int),
            ),
        ensures
            spec_header_lines(data@, 0) == Some(deep_headers(headers@)),
        decreases data.len() - pos,
    {
        let line_end = match find_crlf(data, pos) {
            Some(end) => end,
            None => data.len(),
        };
        proof {
            lemma_crlf_from_bounds(data@, pos as int);
        }
        if line_end == pos {
            assert(spec_header_lines(data@, pos as int) == Some(Seq::<(Seq<u8>, Seq<u8>)>::empty()));
            assert(deep_headers(headers@) + Seq::<(Seq<u8>, Seq<u8>)>::empty() == deep_headers(headers@));
            break;
        }
        let ghost acc = deep_headers(headers@);
        match parse_header_line(&data[pos..line_end]) {
            Some(h) => {
                headers.push(h);
                assert(deep_headers(headers@) == acc + seq![(h.0@, h.1@)]);
            },
            None => {
                return Err(ParseError::InvalidHeader);
            },
        }
        if line_end >= data.len() - 1 {
            assert(spec_header_lines(data@, 0) == Some(deep_headers(headers@)));
            assert(spec_header_lines(data@, data.len() as int) == Some(Seq::<(Seq<u8>, Seq<u8>)>::empty()));
            assert(deep_headers(headers@) + Seq::<(Seq<u8>, Seq<u8>)>::empty() == deep_headers(headers@));
            pos = data.len();
        } else {
            pos = line_end + 2;
            proof {
                let h2 = seq![(h_last(headers@).0@, h_last(headers@).1@)];
                match spec_header_lines(data@, pos as int) {
                    Some(rest) => {
                        assert(acc + (h2 + rest) =~= (acc + h2) + rest);
                    },
                    None => {},
                }
            }
        }
    }
    Ok(headers)
}

spec fn h_last(h: Seq<(Vec<u8>, Vec<u8>)>) -> (Vec<u8>, Vec<u8>) {
    h.last()
}


// ---------------------------------------------------------------------------
// The body.

pub open spec fn content_length_name() -> Seq<u8> {
    seq![67u8, 111, 110, 116, 101, 110, 116, 45, 76, 101, 110, 103, 116, 104]
}

/// The value of the first `Content-Length` header (any case), if it is a
/// valid unsigned number; a first one that is not a number means no length.
pub open spec fn spec_content_length(hs: Seq<(Seq<u8>, Seq<u8>)>) -> Option<nat>
    decreases hs.len(),
{
    if hs.len() == 0 {
        None
    } else if eq_ignore_case(hs[0].0, content_length_name()) {
        spec_parse_unsigned(hs[0].1, usize::MAX as nat)
    } else {
        spec_content_length(hs.drop_first())
    }
}

fn find_content_length(headers: &Vec<(Vec<u8>, Vec<u8>)>) -> (r: Option<usize>)
    ensures
        match r {
            Some(n) => spec_content_length(deep_headers(headers@)) == Some(n as nat),
            None => spec_content_length(deep_headers(headers@)) is None,
        },
{
    let name: [u8; 14] = [67, 111, 110, 116, 101, 110, 116, 45, 76, 101, 110, 103, 116, 104];
    assert(name@ == content_length_name());
    let ghost all = deep_headers(headers@);
    let mut i: usize = 0;
    assert(all.subrange(0, all.len() as int) == all);
    while i < headers.len()
        invariant
            i <= headers.len(),
            all == deep_headers(headers@),
            name@ == content_length_name(),
            spec_content_length(all) == spec_content_length(all.subrange(i as int, all.len() as int)),
        decreases headers.len() - i,
    {
        let ghost rest = all.subrange(i as int, all.len() as int);
        assert(rest[0] == all[i as int]);
        assert(rest.drop_first() == all.subrange(i + 1, all.len() as int));
        if bytes_eq_ignore_case(headers[i].0.as_slice(), name.as_slice()) {
            return match parse_unsigned_bytes(headers[i].1.as_slice(), usize::MAX as u64) {
                Some(v) => Some(v as usize),
                None => None,
            };
        }
        i = i + 1;
    }
    None
}

/// The request-line, header and length part of a parse: where the header
/// block ends, the request line's three parts and the headers.
pub open spec fn spec_head(buf: Seq<u8>, max_header_size: nat) -> Result<
    (int, Method, Seq<u8>, HttpVersion, Seq<(Seq<u8>, Seq<u8>)>),
    ParseError,
> {
    match blank_line_from(buf, 0) {
        None => Err(ParseError::Incomplete),
        Some(he) => if he > max_header_size {
            Err(ParseError::TooLarge)
        } else {
            match crlf_from(buf, 0) {
                None => Err(ParseError::Incomplete),
                Some(le) => match spec_request_line(buf.subrange(0, le)) {
                    Err(e) => Err(e),
                    Ok((m, p, v)) => {
                        let hs = if le + 2 < he {
                            spec_header_lines(buf.subrange(le + 2, he), 0)
                        } else {
                            Some(seq![])
                        };
                        match hs {
                            None => Err(ParseError::InvalidHeader),
                            Some(h) => Ok((he, m, p, v, h)),
                        }
                    },
                },
            }
        },
    }
}

/// What `Parser::parse` returns: the bytes consumed and the request, or why
/// there is none. The body is the `Content-Length` bytes after the blank line.
pub open spec fn spec_parse(buf: Seq<u8>, max_header_size: nat, max_body_size: nat) -> Result<
    (int, RequestView),
    ParseError,
> {
    match spec_head(buf, max_header_size) {
        Err(e) => Err(e),
        Ok((he, m, p, v, hs)) => {
            let body_start = he + 4;
            match spec_content_length(hs) {
                Some(n) => if n > max_body_size {
                    Err(ParseError::BodyTooLarge)
                } else if buf.len() < body_start + n {
                    Err(ParseError::Incomplete)
                } else {
                    Ok(
                        (
                            body_start + n,
                            RequestView {
                                method: m,
                                path: p,
                                version: v,
                                headers: hs,
                                body: Some(buf.subrange(body_start, body_start + n)),
                            },
                        ),
                    )
                },
                None => Ok(
                    (
                        body_start,
                        RequestView { method: m, path: p, version: v, headers: hs, body: None },
                    ),
                ),
            }
        },
    }
}

/// The end of the body fits in a `usize` (the parse adds the header length
/// and the declared body length).
pub open spec fn body_end_fits(buf: Seq<u8>, max_header_size: nat, max_body_size: nat) -> bool {
    match spec_head(buf, max_header_size) {
        Ok((he, m, p, v, hs)) => match spec_content_length(hs) {
            Some(n) => n > max_body_size || he + 4 + n <= usize::MAX,
            None => true,
        },
        Err(_) => true,
    }
}

/// HTTP request parser.
pub struct Parser;

impl Parser {
    pub fn new() -> (r: Self) {
        Parser
    }

    /// Parses one request from the start of `buffer` and returns how many
    /// bytes it took and the request. `max_header_size` bounds the header
    /// block (`TooLarge`), `max_body_size` the declared body (`BodyTooLarge`).
    pub fn parse(&mut self, buffer: &[u8], max_header_size: usize, max_body_size: usize) -> (r:
        Result<(usize, Request), ParseError>)
        requires
            body_end_fits(buffer@, max_header_size as nat, max_body_size as nat),
        ensures
            match (r, spec_parse(buffer@, max_header_size as nat, max_body_size as nat)) {
                (Ok((n, req)), Ok((sn, sreq))) => n == sn && req@ == sreq,
                (Err(e), Err(se)) => e == se,
                _ => false,
            },
    {
        let headers_end = match find_headers_end(buffer) {
            Ok(he) => he,
            Err(e) => {
                return Err(e);
            },
        };
        if headers_end > max_header_size {
            return Err(ParseError::TooLarge);
        }
        proof {
            lemma_blank_line_from_bounds(buffer@, 0);
            assert(blank_line_from(buffer@, 0) == Some(headers_end as int));
            assert(headers_end + 3 < buffer@.len());
            assert(buffer@.len() == buffer.len());
            lemma_crlf_before_blank(buffer@, headers_end as int);
        }
        let line_end = match find_first_crlf(buffer) {
            Ok(le) => le,
            Err(e) => {
                return Err(e);
            },
        };
        assert(line_end <= headers_end);
        let (method, path, version) = match parse_request_line(&buffer[0..line_end]) {
            Ok(t) => t,
            Err(e) => {
                return Err(e);
            },
        };
        let header_start = line_end + 2;
        let headers = if header_start < headers_end {
            match parse_headers(&buffer[header_start..headers_end]) {
                Ok(h) => h,
                Err(e) => {
                    return Err(e);
                },
            }
        } else {
            let empty: Vec<(Vec<u8>, Vec<u8>)> = Vec::new();
            assert(deep_headers(empty@) =~= Seq::<(Seq<u8>, Seq<u8>)>::empty());
            empty
        };
        let content_length = find_content_length(&headers);
        if let Some(len) = content_length {
            if len > max_body_size {
                return Err(ParseError::BodyTooLarge);
            }
        }
        let body_start = headers_end + 4;
        let body = match content_length {
            Some(len) => {
                if buffer.len() < body_start + len {
                    return Err(ParseError::Incomplete);
                }
                Some(slice_to_vec(&buffer[body_start..body_start + len]))
            },
            None => None,
        };
        let consumed = match content_length {
            Some(len) => body_start + len,
            None => body_start,
        };
        let req = Request { method, path, version, headers, body };
        Ok((consumed, req))
    }
}

pub proof fn lemma_blank_line_from_bounds(s: Seq<u8>, k: int)
    requires
        k >= 0,
    ensures
        blank_line_from(s, k) matches Some(i) ==> k <= i && i + 3 < s.len() && blank_line_at(s, i),
    decreases s.len() - k,
{
    if k + 3 < s.len() && !blank_line_at(s, k) {
        lemma_blank_line_from_bounds(s, k + 1);
    }
}

/// The first line end comes no later than the blank line.
pub proof fn lemma_crlf_before_blank(s: Seq<u8>, he: int)
    requires
        blank_line_at(s, he),
    ensures
        crlf_from(s, 0) matches Some(le) && le <= he,
{
    lemma_crlf_upto(s, 0, he);
}

proof fn lemma_crlf_upto(s: Seq<u8>, k: int, he: int)
    requires
        0 <= k <= he,
        crlf_at(s, he),
    ensures
        crlf_from(s, k) matches Some(le) && le <= he,
    decreases he - k,
{
    if !crlf_at(s, k) {
        lemma_crlf_upto(s, k + 1, he);
    }
}


// ---------------------------------------------------------------------------
// Laws.

proof fn lemma_blank_line_extend(s: Seq<u8>, t: Seq<u8>, k: int)
    requires
        k >= 0,
        blank_line_from(s, k) is Some,
    ensures
        blank_line_from(s + t, k) == blank_line_from(s, k),
    decreases s.len() - k,
{
    assert((s + t).len() == s.len() + t.len());
    if k + 3 < s.len() {
        assert(blank_line_at(s + t, k) == blank_line_at(s, k));
        if !blank_line_at(s, k) {
            lemma_blank_line_extend(s, t, k + 1);
        }
    }
}

proof fn lemma_crlf_extend(s: Seq<u8>, t: Seq<u8>, k: int)
    requires
        k >= 0,
        crlf_from(s, k) is Some,
    ensures
        crlf_from(s + t, k) == crlf_from(s, k),
    decreases s.len() - k,
{
    assert((s + t).len() == s.len() + t.len());
    if k + 1 < s.len() {
        assert(crlf_at(s + t, k) == crlf_at(s, k));
        if !crlf_at(s, k) {
            lemma_crlf_extend(s, t, k + 1);
        }
    }
}

/// No blank line starts anywhere from `k` up to (not including) what
/// `blank_line_from` finds.
proof fn lemma_blank_line_first(s: Seq<u8>, k: int)
    requires
        k >= 0,
    ensures
        blank_line_from(s, k) matches Some(i) ==> forall|j: int| k <= j < i ==> !blank_line_at(s, j),
    decreases s.len() - k,
{
    if k + 3 < s.len() && !blank_line_at(s, k) {
        lemma_blank_line_first(s, k + 1);
    }
}

/// What a parsed request takes of the buffer: the head up to the first
/// `\r\n\r\n` (at position `h`, no larger than the header limit), those four
/// bytes, and a body of the length the first `Content-Length` header gives
/// (no larger than the body limit), or no body where there is no such
/// header that reads as a number.
pub proof fn lemma_parse_consumed(buf: Seq<u8>, max_header_size: nat, max_body_size: nat)
    requires
        spec_parse(buf, max_header_size, max_body_size) is Ok,
    ensures
        ({
            let (consumed, req) = spec_parse(buf, max_header_size, max_body_size)->Ok_0;
            &&& blank_line_from(buf, 0) is Some
            &&& {
                let h = blank_line_from(buf, 0)->Some_0;
                &&& blank_line_at(buf, h)
                &&& forall|j: int| 0 <= j < h ==> !blank_line_at(buf, j)
                &&& h <= max_header_size
                &&& match spec_content_length(req.headers) {
                    Some(n) => consumed == h + 4 + n && n <= max_body_size && consumed <= buf.len()
                        && req.body == Some(buf.subrange(h + 4, consumed)),
                    None => consumed == h + 4 && req.body is None,
                }
            }
        }),
{
    lemma_blank_line_from_bounds(buf, 0);
    lemma_blank_line_first(buf, 0);
}

/// Pipelining: once the buffer holds a whole request, bytes that arrive
/// after it (the next request, say) do not change what is parsed or how much
/// of the buffer it takes, and what it takes lies within the request's bytes.
pub proof fn lemma_parse_prefix_stable(buf: Seq<u8>, extra: Seq<u8>, max_header_size: nat, max_body_size: nat)
    requires
        spec_parse(buf, max_header_size, max_body_size) is Ok,
    ensures
        spec_parse(buf + extra, max_header_size, max_body_size) == spec_parse(
            buf,
            max_header_size,
            max_body_size,
        ),
        spec_parse(buf, max_header_size, max_body_size)->Ok_0.0 <= buf.len(),
{
    let b2 = buf + extra;
    lemma_blank_line_extend(buf, extra, 0);
    let he = blank_line_from(buf, 0)->Some_0;
    lemma_blank_line_from_bounds(buf, 0);
    lemma_crlf_before_blank(buf, he);
    lemma_crlf_extend(buf, extra, 0);
    let le = crlf_from(buf, 0)->Some_0;
    lemma_crlf_from_bounds(buf, 0);
    assert(b2.subrange(0, le) =~= buf.subrange(0, le));
    if le + 2 < he {
        assert(b2.subrange(le + 2, he) =~= buf.subrange(le + 2, he));
    }
    assert(spec_head(b2, max_header_size) == spec_head(buf, max_header_size));
    let hs = spec_head(buf, max_header_size)->Ok_0.4;
    match spec_content_length(hs) {
        Some(n) => {
            assert(b2.subrange(he + 4, he + 4 + n) =~= buf.subrange(he + 4, he + 4 + n));
        },
        None => {},
    }
}

} // verus!
