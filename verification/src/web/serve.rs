//! Directory listings: file sizes in human units, the listing page, and
//! the route prefix of a request path.

use vstd::prelude::*;
use vstd::string::StringSliceAdditionalSpecFns;
use vstd::utf8::{encode_utf8, decode_utf8, is_char_boundary};
use crate::text::{
    chars_of, string_from_chars, u64_to_decimal, decimal, has_suffix, has_prefix, append_str,
    chars_start_with, chars_slice,
};
use crate::web::lua::userdata::{md5_hex, md5_digest, spec_hex};

verus! {

broadcast use vstd::string::group_string_axioms;

pub const KB: u64 = 1024;
pub const MB: u64 = 1048576;
pub const GB: u64 = 1073741824;
pub const TB: u64 = 1099511627776;

/// A size in bytes, shown in the listing.
#[derive(Debug, Clone, Copy)]
pub struct ByteUnit(pub u64);

/// The link of a directory entry: its full path without the root, after
/// `./`, with a final `/` for a directory; none when the path is not under
/// the root.
pub open spec fn spec_entry_link(root: Seq<char>, full: Seq<char>, is_dir: bool) -> Option<Seq<char>> {
    if has_prefix(full, root) {
        Some(seq!['.', '/'] + full.subrange(root.len() as int, full.len() as int) + if is_dir {
            seq!['/']
        } else {
            Seq::empty()
        })
    } else {
        None
    }
}

/// The listing row of a directory entry found at `full_path` under `root`,
/// or none when its path is not under the root (such entries are left out).
pub fn dir_entry(root: &str, name: String, full_path: &str, is_dir: bool, size: u64, last_modified: String) -> (r:
    Option<DirList>)
    ensures
        match spec_entry_link(root@, full_path@, is_dir) {
            Some(link) => r matches Some(d) && d.path@ == link && d.name@ == name@ && d.is_dir == is_dir
                && d.size.0 == size && d.last_modified@ == last_modified@,
            None => r is None,
        },
{
    let full = chars_of(full_path);
    let base = chars_of(root);
    if !chars_start_with(&full, &base) {
        return None;
    }
    let rest = chars_slice(&full, base.len(), full.len());
    let mut out: Vec<char> = Vec::new();
    out.push('.');
    out.push('/');
    let ghost head = out@;
    let mut i: usize = 0;
    while i < rest.len()
        invariant
            i <= rest.len(),
            out@ == head + rest@.take(i as int),
        decreases rest.len() - i,
    {
        out.push(rest[i]);
        i = i + 1;
        assert(out@ =~= head + rest@.take(i as int));
    }
    assert(rest@.take(rest@.len() as int) == rest@);
    if is_dir {
        out.push('/');
    }
    assert(out@ =~= spec_entry_link(root@, full_path@, is_dir)->0);
    Some(DirList { name, path: string_from_chars(&out), is_dir, size: ByteUnit(size), last_modified })
}

/// `n / d` rounded to the nearest integer, ties to even.
pub open spec fn round_div(n: nat, d: nat) -> nat {
    let q = n / d;
    let r = n % d;
    if 2 * r > d || (2 * r == d && q % 2 == 1) {
        q + 1
    } else {
        q
    }
}

/// Hundredths written as `units.hh`.
pub open spec fn two_decimals(h: nat) -> Seq<char> {
    decimal(h / 100) + seq!['.'] + decimal((h % 100) / 10) + decimal(h % 10)
}

/// How a size is shown: bytes up to 1 KiB; KiB to two decimals up to
/// 1 MiB; MiB up to 1 GiB; then, up to 1 TiB, GiB labelled `TB`; bytes
/// again above that.
pub open spec fn spec_byte_unit(n: nat) -> Seq<char> {
    if n <= KB {
        decimal(n) + " B"@
    } else if n <= MB {
        two_decimals(round_div(n * 100, KB as nat)) + " KB"@
    } else if n <= GB {
        two_decimals(round_div(n * 100, MB as nat)) + " MB"@
    } else if n <= TB {
        two_decimals(round_div(n * 100, GB as nat)) + " TB"@
    } else {
        decimal(n) + " B"@
    }
}

fn rounded_hundredths(n: u64, d: u64) -> (r: u64)
    requires
        0 < d <= GB,
        n <= TB,
    ensures
        r == round_div(n as nat * 100, d as nat),
{
    let m = n * 100;
    let q = m / d;
    let rem = m % d;
    if 2 * rem > d || (2 * rem == d && q % 2 == 1) {
        q + 1
    } else {
        q
    }
}

fn push_two_decimals(out: &mut Vec<char>, h: u64)
    ensures
        final(out)@ == old(out)@ + two_decimals(h as nat),
{
    let a = u64_to_decimal(h / 100);
    append_str(out, a.as_str());
    out.push('.');
    let b = u64_to_decimal((h % 100) / 10);
    append_str(out, b.as_str());
    let c = u64_to_decimal(h % 10);
    append_str(out, c.as_str());
}

impl ByteUnit {
    /// The size as the listing shows it.
    pub fn to_string(&self) -> (r: String)
        ensures
            r@ == spec_byte_unit(self.0 as nat),
    {
        let n = self.0;
        let mut out: Vec<char> = Vec::new();
        if n <= KB {
            let s = u64_to_decimal(n);
            append_str(&mut out, s.as_str());
            append_str(&mut out, " B");
        } else if n <= MB {
            let h = rounded_hundredths(n, KB);
            push_two_decimals(&mut out, h);
            append_str(&mut out, " KB");
        } else if n <= GB {
            let h = rounded_hundredths(n, MB);
            push_two_decimals(&mut out, h);
            append_str(&mut out, " MB");
        } else if n <= TB {
            let h = rounded_hundredths(n, GB);
            push_two_decimals(&mut out, h);
            append_str(&mut out, " TB");
        } else {
            let s = u64_to_decimal(n);
            append_str(&mut out, s.as_str());
            append_str(&mut out, " B");
        }
        assert(out@ =~= spec_byte_unit(n as nat));
        string_from_chars(&out)
    }
}

/// One entry of a directory listing.
#[derive(Debug, Clone)]
pub struct DirList {
    /// File or directory name.
    pub name: String,
    /// Its path, as the link.
    pub path: String,
    /// Whether it is a directory.
    pub is_dir: bool,
    /// Its size.
    pub size: ByteUnit,
    /// When it was last modified, as text.
    pub last_modified: String,
}

/// One table row of the listing; a directory's name ends in `/`.
pub open spec fn spec_list_row(e: DirList) -> Seq<char> {
    "<tr><td><a href=\""@ + e.path@ + "\">"@ + e.name@ + (if e.is_dir {
        "/"@
    } else {
        Seq::empty()
    }) + "</a></td><td>"@ + e.last_modified@ + "</td><td>"@ + spec_byte_unit(e.size.0 as nat)
        + "</td></tr>"@
}

pub open spec fn spec_list_rows(list: Seq<DirList>) -> Seq<char>
    decreases list.len(),
{
    if list.len() == 0 {
        Seq::empty()
    } else {
        spec_list_rows(list.drop_last()) + spec_list_row(list.last())
    }
}

pub open spec fn page_head() -> Seq<char> {
    "\n<!DOCTYPE html>\n<html>\n<head>\n    <title>Index of "@
}

pub open spec fn page_style() -> Seq<char> {
    "</title>\n    <style>\n        body {\n            font-family: Arial, sans-serif;\n            margin: 20px;\n            background-color: #ffffff;\n            color: #000000;\n        }\n        h1 {\n            font-size: 1.5em;\n            margin-bottom: 20px;\n            text-align: left;\n        }\n        table {\n            width: 100%;\n            border-collapse: collapse;\n            border: 1px solid #dddddd;\n        }\n        th, td {\n            padding: 8px 12px;\n            text-align: left;\n            border-bottom: 1px solid #dddddd;\n        }\n        th {\n            background-color: #f0f0f0;\n            font-weight: bold;\n        }\n        tr:nth-child(even) {\n            background-color: #f9f9f9;\n        }\n        tr:hover {\n            background-color: #f0f0f0;\n        }\n        .dir {\n            color: #0066cc;\n            font-weight: bold;\n        }\n        .file {\n            color: #000000;\n        }\n        a {\n            text-decoration: none;\n            color: inherit;\n        }\n        a:hover {\n            text-decoration: underline;\n        }\n    </style>\n</head>\n<body>\n    <h1>Index of "@
}

pub open spec fn page_table() -> Seq<char> {
    "</h1>\n    <table>\n        <tr>\n            <th>Name</th>\n            <th>Last Modified</th>\n            <th>Size</th>\n        </tr>\n        <tbody id=\"directory-content\">\n            "@
}

pub open spec fn page_tail() -> Seq<char> {
    "\n        </tbody>\n    </table>\n</body>\n</html>\n    "@
}

/// The listing page of a directory: its path in the title and heading, and
/// one row per entry, in order.
pub open spec fn spec_render_list_html(root_path: Seq<char>, list: Seq<DirList>) -> Seq<char> {
    page_head() + root_path + page_style() + root_path + page_table() + spec_list_rows(list)
        + page_tail()
}

/// Renders the listing page of a directory.
pub fn render_list_html(root_path: &str, list: Vec<DirList>) -> (r: String)
    ensures
        r@ == spec_render_list_html(root_path@, list@),
{
    let mut rows: Vec<char> = Vec::new();
    let mut i: usize = 0;
    while i < list.len()
        invariant
            i <= list.len(),
            rows@ == spec_list_rows(list@.take(i as int)),
        decreases list.len() - i,
    {
        let e = &list[i];
        let ghost before = rows@;
        append_str(&mut rows, "<tr><td><a href=\"");
        append_str(&mut rows, e.path.as_str());
        append_str(&mut rows, "\">");
        append_str(&mut rows, e.name.as_str());
        if e.is_dir {
            append_str(&mut rows, "/");
        }
        append_str(&mut rows, "</a></td><td>");
        append_str(&mut rows, e.last_modified.as_str());
        append_str(&mut rows, "</td><td>");
        let size = e.size.to_string();
        append_str(&mut rows, size.as_str());
        append_str(&mut rows, "</td></tr>");
        assert(rows@ =~= before + spec_list_row(*e));
        assert(list@.take(i + 1).drop_last() == list@.take(i as int));
        assert(list@.take(i + 1).last() == list@[i as int]);
        i = i + 1;
    }
    assert(list@.take(list@.len() as int) == list@);
    let mut out: Vec<char> = Vec::new();
    append_str(&mut out, "\n<!DOCTYPE html>\n<html>\n<head>\n    <title>Index of ");
    append_str(&mut out, root_path);
    append_str(&mut out, "</title>\n    <style>\n        body {\n            font-family: Arial, sans-serif;\n            margin: 20px;\n            background-color: #ffffff;\n            color: #000000;\n        }\n        h1 {\n            font-size: 1.5em;\n            margin-bottom: 20px;\n            text-align: left;\n        }\n        table {\n            width: 100%;\n            border-collapse: collapse;\n            border: 1px solid #dddddd;\n        }\n        th, td {\n            padding: 8px 12px;\n            text-align: left;\n            border-bottom: 1px solid #dddddd;\n        }\n        th {\n            background-color: #f0f0f0;\n            font-weight: bold;\n        }\n        tr:nth-child(even) {\n            background-color: #f9f9f9;\n        }\n        tr:hover {\n            background-color: #f0f0f0;\n        }\n        .dir {\n            color: #0066cc;\n            font-weight: bold;\n        }\n        .file {\n            color: #000000;\n        }\n        a {\n            text-decoration: none;\n            color: inherit;\n        }\n        a:hover {\n            text-decoration: underline;\n        }\n    </style>\n</head>\n<body>\n    <h1>Index of ");
    append_str(&mut out, root_path);
    append_str(&mut out, "</h1>\n    <table>\n        <tr>\n            <th>Name</th>\n            <th>Last Modified</th>\n            <th>Size</th>\n        </tr>\n        <tbody id=\"directory-content\">\n            ");
    let ghost before = out@;
    let mut k: usize = 0;
    while k < rows.len()
        invariant
            k <= rows.len(),
            out@ == before + rows@.take(k as int),
        decreases rows.len() - k,
    {
        out.push(rows[k]);
        k = k + 1;
        assert(out@ =~= before + rows@.take(k as int));
    }
    assert(rows@.take(rows@.len() as int) == rows@);
    append_str(&mut out, "\n        </tbody>\n    </table>\n</body>\n</html>\n    ");
    assert(out@ =~= spec_render_list_html(root_path@, list@));
    string_from_chars(&out)
}

/// The route prefix of a request path: with the matched tail given, the
/// path without that many bytes at its end (`/` when that does not end on
/// a character boundary); without one, the path ending in `/`.
pub open spec fn spec_resolve_parent_path(uri_path: Seq<char>, tail: Option<Seq<char>>) -> Seq<char> {
    match tail {
        Some(t) => {
            let b = encode_utf8(uri_path);
            let k = b.len() - encode_utf8(t).len();
            if is_char_boundary(b, k) {
                decode_utf8(b.subrange(0, k))
            } else {
                seq!['/']
            }
        },
        None => if has_suffix(uri_path, seq!['/']) {
            uri_path
        } else {
            uri_path.push('/')
        },
    }
}

/// The route prefix a request path was matched under.
pub fn resolve_parent_path(uri_path: &str, tail: Option<&str>) -> (r: String)
    requires
        tail matches Some(t) ==> encode_utf8(t@).len() <= encode_utf8(uri_path@).len(),
    ensures
        r@ == spec_resolve_parent_path(
            uri_path@,
            match tail {
                Some(t) => Some(t@),
                None => None,
            },
        ),
{
    match tail {
        Some(t) => {
            assert(uri_path.spec_bytes() == encode_utf8(uri_path@));
            assert(t.spec_bytes() == encode_utf8(t@));
            let ub = uri_path.as_bytes();
            let tb = t.as_bytes();
            let k = ub.len() - tb.len();
            if uri_path.is_char_boundary(k) {
                let (head, _) = uri_path.split_at(k);
                proof {
                    vstd::utf8::encode_utf8_decode_utf8(head@);
                    assert(head.spec_bytes() == encode_utf8(head@));
                    assert(encode_utf8(head@) =~= encode_utf8(uri_path@).subrange(0, k as int));
                }
                head.to_owned()
            } else {
                let mut out: Vec<char> = Vec::new();
                out.push('/');
                assert(out@ =~= seq!['/']);
                string_from_chars(&out)
            }
        },
        None => {
            let mut cs = chars_of(uri_path);
            if cs.len() > 0 && cs[cs.len() - 1] == '/' {
                assert(uri_path@.subrange(uri_path@.len() - 1, uri_path@.len() as int) =~= seq!['/']);
                uri_path.to_owned()
            } else {
                proof {
                    if has_suffix(uri_path@, seq!['/']) {
                        assert(uri_path@.subrange(uri_path@.len() - 1, uri_path@.len() as int)[0]
                            == uri_path@[uri_path@.len() - 1]);
                    }
                }
                cs.push('/');
                string_from_chars(&cs)
            }
        },
    }
}

// ---------------------------------------------------------------------------
// Entity tags.

/// The text an entity tag is computed from: the path, its modification
/// time in seconds and its length.
pub open spec fn etag_source(path: Seq<char>, modified_secs: nat, len: nat) -> Seq<char> {
    path + seq!['-'] + decimal(modified_secs) + seq!['-'] + decimal(len)
}

/// A weak entity tag: `W/"` + the MD5 digest, in lowercase hexadecimal, of
/// the UTF-8 bytes of `etag_source` + `"`.
pub open spec fn spec_etag(path: Seq<char>, modified_secs: nat, len: nat) -> Seq<char> {
    seq!['W', '/', '"'] + spec_hex(md5_digest(encode_utf8(etag_source(path, modified_secs, len)))) + seq!['"']
}

/// The entity tag of the file at `path`, last modified `modified_secs`
/// seconds after the Unix epoch and `len` bytes long.
pub fn calculate_etag(path: &str, modified_secs: u64, len: u64) -> (r: String)
    ensures
        r@ == spec_etag(path@, modified_secs as nat, len as nat),
{
    let mut text = chars_of(path);
    text.push('-');
    let secs = u64_to_decimal(modified_secs);
    let secs_chars = chars_of(secs.as_str());
    let mut i: usize = 0;
    let ghost base = text@;
    while i < secs_chars.len()
        invariant
            i <= secs_chars.len(),
            text@ == base + secs_chars@.take(i as int),
        decreases secs_chars.len() - i,
    {
        text.push(secs_chars[i]);
        i = i + 1;
        assert(text@ =~= base + secs_chars@.take(i as int));
    }
    text.push('-');
    let size = u64_to_decimal(len);
    let size_chars = chars_of(size.as_str());
    let ghost base2 = text@;
    let mut j: usize = 0;
    while j < size_chars.len()
        invariant
            j <= size_chars.len(),
            text@ == base2 + size_chars@.take(j as int),
        decreases size_chars.len() - j,
    {
        text.push(size_chars[j]);
        j = j + 1;
        assert(text@ =~= base2 + size_chars@.take(j as int));
    }
    assert(secs_chars@.take(secs_chars@.len() as int) == secs_chars@);
    assert(size_chars@.take(size_chars@.len() as int) == size_chars@);
    assert(text@ =~= etag_source(path@, modified_secs as nat, len as nat));
    let source = string_from_chars(&text);
    let digest = md5_hex(source.as_str().as_bytes());
    let mut out: Vec<char> = Vec::new();
    out.push('W');
    out.push('/');
    out.push('"');
    let hex = chars_of(digest.as_str());
    let ghost head = out@;
    let mut k: usize = 0;
    while k < hex.len()
        invariant
            k <= hex.len(),
            out@ == head + hex@.take(k as int),
        decreases hex.len() - k,
    {
        out.push(hex[k]);
        k = k + 1;
        assert(out@ =~= head + hex@.take(k as int));
    }
    out.push('"');
    assert(hex@.take(hex@.len() as int) == hex@);
    assert(out@ =~= spec_etag(path@, modified_secs as nat, len as nat));
    string_from_chars(&out)
}

/// A conditional request: when the `If-None-Match` value (absent, or not
/// visible ASCII, as `None`) is exactly the entity tag, the response becomes
/// 304 Not Modified and the answer is `true`; otherwise the status is
/// unchanged and the answer `false`.
pub fn check_if_none_match(if_none_match: Option<&str>, etag: &str, status: u16) -> (r: (u16, bool))
    ensures
        r == (if if_none_match matches Some(v) && v@ == etag@ {
            (304u16, true)
        } else {
            (status, false)
        }),
{
    match if_none_match {
        Some(v) => {
            let a = chars_of(v);
            let b = chars_of(etag);
            if crate::text::chars_equal(&a, &b) {
                (304, true)
            } else {
                (status, false)
            }
        },
        None => (status, false),
    }
}

} // verus!
