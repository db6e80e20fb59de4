//! HTTP/1.1 responses: building them and writing them out.

use vstd::prelude::*;
use vstd::string::StringExecFns;
use vstd::utf8::encode_utf8;
use crate::text::{
    chars_eq_ignore_case, chars_equal_ignore_case, chars_of, append_bytes, u64_to_decimal, decimal,
};

verus! {

broadcast use vstd::string::group_string_axioms;

/// An HTTP response.
pub struct Response {
    pub status: u16,
    pub status_text: &'static str,
    pub headers: Vec<(String, String)>,
    pub body: Option<Vec<u8>>,
}

/// A response as plain values.
pub struct ResponseView {
    pub status: u16,
    pub status_text: Seq<char>,
    pub headers: Seq<(Seq<char>, Seq<char>)>,
    pub body: Option<Seq<u8>>,
}

pub open spec fn header_views(hs: Seq<(String, String)>) -> Seq<(Seq<char>, Seq<char>)> {
    hs.map_values(|h: (String, String)| (h.0@, h.1@))
}

pub open spec fn body_view(b: Option<Vec<u8>>) -> Option<Seq<u8>> {
    match b {
        Some(v) => Some(v@),
        None => None,
    }
}

impl View for Response {
    type V = ResponseView;

    open spec fn view(&self) -> ResponseView {
        ResponseView {
            status: self.status,
            status_text: self.status_text@,
            headers: header_views(self.headers@),
            body: body_view(self.body),
        }
    }
}

/// The reason phrase for a status code.
pub open spec fn spec_status_text(status: u16) -> Seq<char> {
    if status == 200 {
        "OK"@
    } else if status == 201 {
        "Created"@
    } else if status == 204 {
        "No Content"@
    } else if status == 206 {
        "Partial Content"@
    } else if status == 301 {
        "Moved Permanently"@
    } else if status == 302 {
        "Found"@
    } else if status == 304 {
        "Not Modified"@
    } else if status == 400 {
        "Bad Request"@
    } else if status == 401 {
        "Unauthorized"@
    } else if status == 403 {
        "Forbidden"@
    } else if status == 404 {
        "Not Found"@
    } else if status == 405 {
        "Method Not Allowed"@
    } else if status == 416 {
        "Range Not Satisfiable"@
    } else if status == 500 {
        "Internal Server Error"@
    } else if status == 502 {
        "Bad Gateway"@
    } else if status == 503 {
        "Service Unavailable"@
    } else {
        "Unknown"@
    }
}

/// The reason phrase for a status code (`Unknown` for codes not listed).
pub fn status_text(status: u16) -> (r: &'static str)
    ensures
        r@ == spec_status_text(status),
{
    match status {
        200 => "OK",
        201 => "Created",
        204 => "No Content",
        206 => "Partial Content",
        301 => "Moved Permanently",
        302 => "Found",
        304 => "Not Modified",
        400 => "Bad Request",
        401 => "Unauthorized",
        403 => "Forbidden",
        404 => "Not Found",
        405 => "Method Not Allowed",
        416 => "Range Not Satisfiable",
        500 => "Internal Server Error",
        502 => "Bad Gateway",
        503 => "Service Unavailable",
        _ => "Unknown",
    }
}

/// The value of the first header named `name`, ignoring ASCII case.
pub open spec fn first_header_value(hs: Seq<(Seq<char>, Seq<char>)>, name: Seq<char>) -> Option<
    Seq<char>,
>
    decreases hs.len(),
{
    if hs.len() == 0 {
        None
    } else if chars_eq_ignore_case(hs[0].0, name) {
        Some(hs[0].1)
    } else {
        first_header_value(hs.drop_first(), name)
    }
}

pub open spec fn content_type_name() -> Seq<char> {
    seq!['C', 'o', 'n', 't', 'e', 'n', 't', '-', 'T', 'y', 'p', 'e']
}

/// The ASCII bytes of a literal.
pub open spec fn crlf() -> Seq<u8> {
    seq![13u8, 10u8]
}

pub open spec fn status_line_prefix() -> Seq<u8> {
    seq![72u8, 84u8, 84u8, 80u8, 47u8, 49u8, 46u8, 49u8, 32u8]
}

pub open spec fn colon_space() -> Seq<u8> {
    seq![58u8, 32u8]
}

pub open spec fn content_length_prefix() -> Seq<u8> {
    seq![
        67u8, 111u8, 110u8, 116u8, 101u8, 110u8, 116u8, 45u8, 76u8, 101u8, 110u8, 103u8, 116u8,
        104u8, 58u8, 32u8,
    ]
}

/// `name: value\r\n` for each header, in order.
pub open spec fn header_block(hs: Seq<(Seq<char>, Seq<char>)>) -> Seq<u8>
    decreases hs.len(),
{
    if hs.len() == 0 {
        Seq::empty()
    } else {
        header_block(hs.drop_last()) + encode_utf8(hs.last().0) + colon_space() + encode_utf8(
            hs.last().1,
        ) + crlf()
    }
}

/// The bytes of a response on the wire: the status line, the headers, a
/// `Content-Length` when there is a body, a blank line, then the body.
pub open spec fn spec_response_bytes(r: ResponseView) -> Seq<u8> {
    status_line_prefix() + encode_utf8(decimal(r.status as nat)) + seq![32u8] + encode_utf8(
        r.status_text,
    ) + crlf() + header_block(r.headers) + match r.body {
        Some(b) => content_length_prefix() + encode_utf8(decimal(b.len())) + crlf(),
        None => Seq::empty(),
    } + crlf() + match r.body {
        Some(b) => b,
        None => Seq::empty(),
    }
}

impl Response {
    /// A response with the given status, its reason phrase, no headers and
    /// no body.
    pub fn new(status: u16) -> (r: Self)
        ensures
            r@ == (ResponseView {
                status,
                status_text: spec_status_text(status),
                headers: Seq::empty(),
                body: None,
            }),
    {
        let r = Response {
            status,
            status_text: status_text(status),
            headers: Vec::new(),
            body: None,
        };
        assert(header_views(r.headers@) =~= Seq::empty());
        r
    }

    /// Adds a header after those already there.
    pub fn header(self, name: &str, value: &str) -> (r: Self)
        ensures
            r@ == (ResponseView { headers: self@.headers.push((name@, value@)), ..self@ }),
    {
        let mut r = self;
        let ghost before = r.headers@;
        r.headers.push((name.to_owned(), value.to_owned()));
        assert(header_views(r.headers@) =~= header_views(before).push((name@, value@)));
        r
    }

    /// Sets the body.
    pub fn body(self, body: Vec<u8>) -> (r: Self)
        ensures
            r@ == (ResponseView { body: Some(body@), ..self@ }),
    {
        let mut r = self;
        r.body = Some(body);
        r
    }

    /// `200 OK`.
    pub fn ok() -> (r: Self)
        ensures
            r@ == Response::new_view(200, None),
    {
        Self::new(200)
    }

    /// `404 Not Found` with the body `Not Found`.
    pub fn not_found() -> (r: Self)
        ensures
            r@ == Response::new_view(404, Some("Not Found"@.map_values(|c: char| c as u8))),
    {
        Self::new(404).body(ascii_bytes("Not Found"))
    }

    /// `403 Forbidden` with the body `Forbidden`.
    pub fn forbidden() -> (r: Self)
        ensures
            r@ == Response::new_view(403, Some("Forbidden"@.map_values(|c: char| c as u8))),
    {
        Self::new(403).body(ascii_bytes("Forbidden"))
    }

    /// `500 Internal Server Error` with the body `Internal Server Error`.
    pub fn internal_error() -> (r: Self)
        ensures
            r@ == Response::new_view(
                500,
                Some("Internal Server Error"@.map_values(|c: char| c as u8)),
            ),
    {
        Self::new(500).body(ascii_bytes("Internal Server Error"))
    }

    /// `206 Partial Content`.
    pub fn partial_content() -> (r: Self)
        ensures
            r@ == Response::new_view(206, None),
    {
        Self::new(206)
    }

    /// `416 Range Not Satisfiable` with the given `Content-Range` and the
    /// body `Range Not Satisfiable`.
    pub fn range_not_satisfiable(content_range: &str) -> (r: Self)
        ensures
            r@ == (ResponseView {
                status: 416,
                status_text: spec_status_text(416),
                headers: seq![("Content-Range"@, content_range@)],
                body: Some("Range Not Satisfiable"@.map_values(|c: char| c as u8)),
            }),
    {
        let r = Self::new(416).header("Content-Range", content_range);
        assert(Seq::<(Seq<char>, Seq<char>)>::empty().push(("Content-Range"@, content_range@))
            =~= seq![("Content-Range"@, content_range@)]);
        r.body(ascii_bytes("Range Not Satisfiable"))
    }

    /// The response of `new(status)` with the given body.
    pub open spec fn new_view(status: u16, body: Option<Seq<u8>>) -> ResponseView {
        ResponseView {
            status,
            status_text: spec_status_text(status),
            headers: Seq::empty(),
            body,
        }
    }

    /// The status code.
    pub fn status_code(&self) -> (r: u16)
        ensures
            r == self.status,
    {
        self.status
    }

    /// The value of the first `Content-Type` header (any ASCII case), else
    /// `application/octet-stream`.
    pub fn content_type(&self) -> (r: &str)
        ensures
            r@ == match first_header_value(self@.headers, content_type_name()) {
                Some(v) => v,
                None => "application/octet-stream"@,
            },
    {
        let name: [char; 12] = ['C', 'o', 'n', 't', 'e', 'n', 't', '-', 'T', 'y', 'p', 'e'];
        assert(name@ == content_type_name());
        let ghost hs = self@.headers;
        let mut i: usize = 0;
        assert(hs.subrange(0, hs.len() as int) == hs);
        while i < self.headers.len()
            invariant
                i <= self.headers.len(),
                hs == header_views(self.headers@),
                name@ == content_type_name(),
                first_header_value(hs, content_type_name()) == first_header_value(
                    hs.subrange(i as int, hs.len() as int),
                    content_type_name(),
                ),
            decreases self.headers.len() - i,
        {
            let n = chars_of(self.headers[i].0.as_str());
            assert(hs.subrange(i as int, hs.len() as int)[0] == hs[i as int]);
            assert(hs.subrange(i as int, hs.len() as int).drop_first() == hs.subrange(
                i + 1,
                hs.len() as int,
            ));
            if chars_equal_ignore_case(&n, name.as_slice()) {
                return self.headers[i].1.as_str();
            }
            i = i + 1;
        }
        "application/octet-stream"
    }

    /// The length of the body, zero when there is none.
    pub fn body_len(&self) -> (r: usize)
        ensures
            r == match self@.body {
                Some(b) => b.len(),
                None => 0,
            },
    {
        match &self.body {
            Some(b) => b.len(),
            None => 0,
        }
    }

    /// The body, empty when there is none.
    pub fn into_body(self) -> (r: Vec<u8>)
        ensures
            r@ == match self@.body {
                Some(b) => b,
                None => Seq::empty(),
            },
    {
        match self.body {
            Some(b) => b,
            None => Vec::new(),
        }
    }

    /// The response as bytes on the wire.
    pub fn to_bytes(&self) -> (r: Vec<u8>)
        ensures
            r@ == spec_response_bytes(self@),
    {
        let mut buf: Vec<u8> = Vec::new();
        let prefix: [u8; 9] = [72, 84, 84, 80, 47, 49, 46, 49, 32];
        let cs: [u8; 2] = [58, 32];
        let nl: [u8; 2] = [13, 10];
        let sp: [u8; 1] = [32];
        let cl: [u8; 16] = [67, 111, 110, 116, 101, 110, 116, 45, 76, 101, 110, 103, 116, 104, 58, 32];
        assert(prefix@ == status_line_prefix());
        assert(cs@ == colon_space());
        assert(nl@ == crlf());
        assert(sp@ == seq![32u8]);
        assert(cl@ == content_length_prefix());
        append_bytes(&mut buf, prefix.as_slice());
        let status = u64_to_decimal(self.status as u64);
        append_bytes(&mut buf, status.as_str().as_bytes());
        append_bytes(&mut buf, sp.as_slice());
        append_bytes(&mut buf, self.status_text.as_bytes());
        append_bytes(&mut buf, nl.as_slice());
        let ghost start = buf@;
        let ghost hs = self@.headers;
        let mut i: usize = 0;
        while i < self.headers.len()
            invariant
                i <= self.headers.len(),
                hs == header_views(self.headers@),
                cs@ == colon_space(),
                nl@ == crlf(),
                buf@ == start + header_block(hs.take(i as int)),
            decreases self.headers.len() - i,
        {
            append_bytes(&mut buf, self.headers[i].0.as_str().as_bytes());
            append_bytes(&mut buf, cs.as_slice());
            append_bytes(&mut buf, self.headers[i].1.as_str().as_bytes());
            append_bytes(&mut buf, nl.as_slice());
            assert(hs.take(i + 1).drop_last() == hs.take(i as int));
            assert(hs.take(i + 1).last() == hs[i as int]);
            i = i + 1;
        }
        assert(hs.take(hs.len() as int) == hs);
        match &self.body {
            Some(b) => {
                append_bytes(&mut buf, cl.as_slice());
                let n = u64_to_decimal(b.len() as u64);
                append_bytes(&mut buf, n.as_str().as_bytes());
                append_bytes(&mut buf, nl.as_slice());
            },
            None => {},
        }
        append_bytes(&mut buf, nl.as_slice());
        match &self.body {
            Some(b) => {
                append_bytes(&mut buf, b.as_slice());
            },
            None => {},
        }
        buf
    }
}

/// The bytes of an ASCII string literal.
fn ascii_bytes(s: &str) -> (r: Vec<u8>)
    ensures
        r@ == s@.map_values(|c: char| c as u8),
{
    let cs = chars_of(s);
    let mut r: Vec<u8> = Vec::new();
    let mut i: usize = 0;
    while i < cs.len()
        invariant
            i <= cs.len(),
            cs@ == s@,
            r@ == s@.take(i as int).map_values(|c: char| c as u8),
        decreases cs.len() - i,
    {
        r.push(cs[i] as u8);
        i = i + 1;
        assert(s@.take(i as int).map_values(|c: char| c as u8) =~= s@.take(i - 1).map_values(
            |c: char| c as u8,
        ).push(cs@[i - 1] as u8));
    }
    assert(s@.take(s@.len() as int) == s@);
    r
}

} // verus!
