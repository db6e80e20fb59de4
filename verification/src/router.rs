//! Mapping request paths onto files under the document root: decoding the
//! path, refusing traversal, deciding from what the file system reports, and
//! choosing a media type.

use vstd::prelude::*;
use vstd::string::StringExecFns;
use crate::text::{
    split_spec, split_chars, deep_chars, chars_of, string_from_chars, chars_slice, chars_equal,
    has_prefix, chars_start_with,
};

verus! {

broadcast use vstd::string::group_string_axioms;

/// What a request path resolves to.
pub enum ResolveResult {
    /// A file to serve.
    File(String),
    /// A directory without `index.html`.
    Directory(String),
    /// Nothing there.
    NotFound,
    /// A path that leaves the document root.
    Forbidden,
}

/// A resolution as plain values.
pub enum ResolveView {
    File(Seq<char>),
    Directory(Seq<char>),
    NotFound,
    Forbidden,
}

impl View for ResolveResult {
    type V = ResolveView;

    open spec fn view(&self) -> ResolveView {
        match self {
            ResolveResult::File(p) => ResolveView::File(p@),
            ResolveResult::Directory(p) => ResolveView::Directory(p@),
            ResolveResult::NotFound => ResolveView::NotFound,
            ResolveResult::Forbidden => ResolveView::Forbidden,
        }
    }
}

// ---------------------------------------------------------------------------
// Percent-decoding.

/// The value of a hexadecimal digit.
pub open spec fn hex_digit(c: char) -> Option<nat> {
    let n = c as u32;
    if 48 <= n <= 57 {
        Some((n - 48) as nat)
    } else if 97 <= n <= 102 {
        Some((n - 87) as nat)
    } else if 65 <= n <= 70 {
        Some((n - 55) as nat)
    } else {
        None
    }
}

pub fn hex_digit_of(c: char) -> (r: Option<u8>)
    ensures
        match r {
            Some(v) => hex_digit(c) == Some(v as nat) && v < 16,
            None => hex_digit(c) is None,
        },
{
    let n = c as u32;
    if 48 <= n && n <= 57 {
        Some((n - 48) as u8)
    } else if 97 <= n && n <= 102 {
        Some((n - 87) as u8)
    } else if 65 <= n && n <= 70 {
        Some((n - 55) as u8)
    } else {
        None
    }
}

/// `u8::from_str_radix(h, 16)` for a string of at most two characters: an
/// optional `+`, then one or two hexadecimal digits.
pub open spec fn spec_hex_byte(h: Seq<char>) -> Option<u8> {
    let d = if h.len() > 0 && h[0] == '+' {
        h.drop_first()
    } else {
        h
    };
    if d.len() == 1 {
        match hex_digit(d[0]) {
            Some(v) => Some(v as u8),
            None => None,
        }
    } else if d.len() == 2 {
        match (hex_digit(d[0]), hex_digit(d[1])) {
            (Some(a), Some(b)) => Some((a * 16 + b) as u8),
            _ => None,
        }
    } else {
        None
    }
}

pub fn hex_byte(h: &[char]) -> (r: Option<u8>)
    requires
        h.len() <= 2,
    ensures
        r == spec_hex_byte(h@),
{
    let start: usize = if h.len() > 0 && h[0] == '+' { 1 } else { 0 };
    let ghost d = if h@.len() > 0 && h@[0] == '+' {
        h@.drop_first()
    } else {
        h@
    };
    assert(d =~= h@.subrange(start as int, h@.len() as int));
    if h.len() - start == 1 {
        assert(d[0] == h@[start as int]);
        match hex_digit_of(h[start]) {
            Some(v) => Some(v),
            None => None,
        }
    } else if h.len() - start == 2 {
        assert(d[0] == h@[start as int]);
        assert(d[1] == h@[start + 1]);
        match (hex_digit_of(h[start]), hex_digit_of(h[start + 1])) {
            (Some(a), Some(b)) => Some(a * 16 + b),
            _ => None,
        }
    } else {
        None
    }
}

/// Percent-decoding as the router does it: `%` takes the next two characters
/// (fewer at the end); if they read as a hexadecimal byte that byte stands as
/// the character of the same number, else `%` and those characters stay.
pub open spec fn spec_url_decode(s: Seq<char>) -> Seq<char>
    decreases s.len(),
{
    if s.len() == 0 {
        Seq::empty()
    } else if s[0] == '%' {
        let e = if s.len() >= 3 {
            3
        } else {
            s.len() as int
        };
        let hex = s.subrange(1, e);
        let rest = s.subrange(e, s.len() as int);
        match spec_hex_byte(hex) {
            Some(b) => seq![b as char] + spec_url_decode(rest),
            None => seq!['%'] + hex + spec_url_decode(rest),
        }
    } else {
        seq![s[0]] + spec_url_decode(s.drop_first())
    }
}

/// Percent-decodes a path.
pub fn url_decode(s: &str) -> (r: String)
    ensures
        r@ == spec_url_decode(s@),
{
    let cs = chars_of(s);
    let mut out: Vec<char> = Vec::new();
    let mut i: usize = 0;
    assert(cs@.subrange(0, cs@.len() as int) == cs@);
    while i < cs.len()
        invariant
            i <= cs.len(),
            cs@ == s@,
            out@ + spec_url_decode(cs@.subrange(i as int, cs@.len() as int)) == spec_url_decode(s@),
        decreases cs.len() - i,
    {
        let ghost t = cs@.subrange(i as int, cs@.len() as int);
        if cs[i] == '%' {
            let e: usize = if cs.len() - i >= 3 { i + 3 } else { cs.len() };
            let hex = chars_slice(&cs, i + 1, e);
            assert(hex@ == t.subrange(1, e - i));
            assert(cs@.subrange(e as int, cs@.len() as int) == t.subrange(e - i, t.len() as int));
            let ghost before = out@;
            match hex_byte(&hex) {
                Some(b) => {
                    out.push(b as char);
                    assert(out@ + spec_url_decode(cs@.subrange(e as int, cs@.len() as int)) =~= before
                        + spec_url_decode(t));
                },
                None => {
                    out.push('%');
                    let mut k: usize = 0;
                    while k < hex.len()
                        invariant
                            k <= hex.len(),
                            out@ == before.push('%') + hex@.take(k as int),
                        decreases hex.len() - k,
                    {
                        out.push(hex[k]);
                        k = k + 1;
                        assert(out@ =~= before.push('%') + hex@.take(k as int));
                    }
                    assert(hex@.take(hex@.len() as int) == hex@);
                    assert(out@ + spec_url_decode(cs@.subrange(e as int, cs@.len() as int)) =~= before
                        + spec_url_decode(t));
                },
            }
            i = e;
        } else {
            let ghost before = out@;
            out.push(cs[i]);
            assert(t.drop_first() == cs@.subrange(i + 1, cs@.len() as int));
            assert(out@ + spec_url_decode(t.drop_first()) =~= before + spec_url_decode(t));
            i = i + 1;
        }
    }
    assert(cs@.subrange(i as int, cs@.len() as int) =~= Seq::<char>::empty());
    assert(out@ + Seq::<char>::empty() == out@);
    string_from_chars(&out)
}

/// `s` without any leading `/`.
pub open spec fn trim_leading_slashes(s: Seq<char>) -> Seq<char>
    decreases s.len(),
{
    if s.len() > 0 && s[0] == '/' {
        trim_leading_slashes(s.drop_first())
    } else {
        s
    }
}

proof fn lemma_trim_leading_slashes_at(s: Seq<char>, i: int)
    requires
        0 <= i <= s.len(),
        forall|k: int| 0 <= k < i ==> #[trigger] s[k] == '/',
        i == s.len() || s[i] != '/',
    ensures
        trim_leading_slashes(s) == s.subrange(i, s.len() as int),
    decreases i,
{
    if i == 0 {
        assert(s.subrange(0, s.len() as int) == s);
    } else {
        let t = s.drop_first();
        assert forall|k: int| 0 <= k < i - 1 implies #[trigger] t[k] == '/' by {
            assert(t[k] == s[k + 1]);
        }
        if i - 1 < t.len() {
            assert(t[i - 1] == s[i]);
        }
        lemma_trim_leading_slashes_at(t, i - 1);
        assert(t.subrange(i - 1, t.len() as int) == s.subrange(i, s.len() as int));
    }
}

/// A request path made relative: the query cut off at the first `?`, the
/// rest percent-decoded, leading `/` removed.
pub open spec fn spec_normalize_url_path(url: Seq<char>) -> Seq<char> {
    trim_leading_slashes(spec_url_decode(split_spec(url, '?')[0]))
}

/// Turns a request path into a path relative to the document root.
pub fn normalize_url_path(url: &str) -> (r: String)
    ensures
        r@ == spec_normalize_url_path(url@),
{
    let cs = chars_of(url);
    let parts = split_chars(&cs, '?');
    proof {
        crate::text::lemma_split_nonempty(cs@, '?');
    }
    assert(parts@[0]@ == deep_chars(parts@)[0]);
    let first = string_from_chars(&parts[0]);
    let decoded = url_decode(first.as_str());
    let d = chars_of(decoded.as_str());
    let mut i: usize = 0;
    while i < d.len() && d[i] == '/'
        invariant
            i <= d.len(),
            forall|k: int| 0 <= k < i ==> #[trigger] d@[k] == '/',
        decreases d.len() - i,
    {
        i = i + 1;
    }
    proof {
        lemma_trim_leading_slashes_at(d@, i as int);
    }
    let rest = chars_slice(&d, i, d.len());
    string_from_chars(&rest)
}

pub open spec fn parent_dir() -> Seq<char> {
    seq!['.', '.']
}

/// Some `/`-separated component of `path` is `..`.
pub open spec fn spec_contains_traversal(path: Seq<char>) -> bool {
    exists|i: int| 0 <= i < split_spec(path, '/').len() && #[trigger] split_spec(path, '/')[i] == parent_dir()
}

/// Whether some component of the path is `..`.
pub fn contains_traversal(path: &str) -> (r: bool)
    ensures
        r == spec_contains_traversal(path@),
{
    let cs = chars_of(path);
    let parts = split_chars(&cs, '/');
    let ghost ps = deep_chars(parts@);
    let dd: [char; 2] = ['.', '.'];
    assert(dd@ == parent_dir());
    let mut i: usize = 0;
    while i < parts.len()
        invariant
            i <= parts.len(),
            ps == deep_chars(parts@),
            ps == split_spec(path@, '/'),
            dd@ == parent_dir(),
            forall|k: int| 0 <= k < i ==> ps[k] != parent_dir(),
        decreases parts.len() - i,
    {
        assert(parts@[i as int]@ == ps[i as int]);
        if chars_equal(&parts[i], dd.as_slice()) {
            return true;
        }
        i = i + 1;
    }
    false
}

// ---------------------------------------------------------------------------
// Deciding from what the file system reports.

/// What the file system reports about the document root and about the
/// requested path joined onto it.
pub struct PathFacts {
    /// The canonical form of the joined path, if it exists.
    pub canonical: Option<String>,
    /// The canonical form of the document root, if it exists.
    pub base_canonical: Option<String>,
    /// The canonical path is a directory.
    pub is_dir: bool,
    /// That directory holds `index.html`.
    pub index_exists: bool,
    /// The canonical path exists.
    pub exists: bool,
}

/// `Path::starts_with` for canonical paths (absolute, no `.` or `..`, no
/// repeated or trailing separator): `base` is a whole-component prefix.
pub open spec fn path_within(p: Seq<char>, base: Seq<char>) -> bool {
    has_prefix(p, base) && (p.len() == base.len() || (base.len() > 0 && base.last() == '/')
        || p[base.len() as int] == '/')
}

/// Whether `p` lies under `base`, component by component.
pub fn path_is_within(p: &str, base: &str) -> (r: bool)
    ensures
        r == path_within(p@, base@),
{
    let pc = chars_of(p);
    let bc = chars_of(base);
    if !chars_start_with(&pc, &bc) {
        return false;
    }
    pc.len() == bc.len() || (bc.len() > 0 && bc[bc.len() - 1] == '/') || pc[bc.len()] == '/'
}

pub open spec fn index_file_name() -> Seq<char> {
    seq!['i', 'n', 'd', 'e', 'x', '.', 'h', 't', 'm', 'l']
}

/// `Path::join` of a relative name onto a directory.
pub open spec fn join_path(dir: Seq<char>, name: Seq<char>) -> Seq<char> {
    if dir.len() > 0 && dir.last() == '/' {
        dir + name
    } else {
        dir.push('/') + name
    }
}

/// The decision: a path with a `..` component is forbidden; a path that does
/// not exist, or a root that does not, is not found; a path outside the root
/// is forbidden; a directory gives its `index.html` when it has one; an
/// existing file is served.
pub open spec fn spec_resolve(
    url: Seq<char>,
    canonical: Option<Seq<char>>,
    base_canonical: Option<Seq<char>>,
    is_dir: bool,
    index_exists: bool,
    exists: bool,
) -> ResolveView {
    if spec_contains_traversal(spec_normalize_url_path(url)) {
        ResolveView::Forbidden
    } else {
        match (canonical, base_canonical) {
            (Some(c), Some(b)) => if !path_within(c, b) {
                ResolveView::Forbidden
            } else if is_dir {
                if index_exists {
                    ResolveView::File(join_path(c, index_file_name()))
                } else {
                    ResolveView::Directory(c)
                }
            } else if exists {
                ResolveView::File(c)
            } else {
                ResolveView::NotFound
            },
            _ => ResolveView::NotFound,
        }
    }
}

pub open spec fn opt_str_view(s: Option<String>) -> Option<Seq<char>> {
    match s {
        Some(s) => Some(s@),
        None => None,
    }
}

/// Resolves a request path, given what the file system reports about the
/// joined path (see `normalize_url_path`) and the document root.
pub fn resolve_path(url: &str, facts: &PathFacts) -> (r: ResolveResult)
    ensures
        r@ == spec_resolve(
            url@,
            opt_str_view(facts.canonical),
            opt_str_view(facts.base_canonical),
            facts.is_dir,
            facts.index_exists,
            facts.exists,
        ),
{
    let normalized = normalize_url_path(url);
    if contains_traversal(normalized.as_str()) {
        return ResolveResult::Forbidden;
    }
    match (&facts.canonical, &facts.base_canonical) {
        (Some(c), Some(b)) => {
            if !path_is_within(c.as_str(), b.as_str()) {
                return ResolveResult::Forbidden;
            }
            if facts.is_dir {
                if facts.index_exists {
                    let mut p = chars_of(c.as_str());
                    if !(p.len() > 0 && p[p.len() - 1] == '/') {
                        p.push('/');
                    }
                    let index: [char; 10] = ['i', 'n', 'd', 'e', 'x', '.', 'h', 't', 'm', 'l'];
                    assert(index@ == index_file_name());
                    let ghost before = p@;
                    let mut k: usize = 0;
                    while k < 10
                        invariant
                            k <= 10,
                            p@ == before + index@.take(k as int),
                        decreases 10 - k,
                    {
                        p.push(index[k]);
                        k = k + 1;
                        assert(p@ =~= before + index@.take(k as int));
                    }
                    assert(index@.take(10) == index@);
                    ResolveResult::File(string_from_chars(&p))
                } else {
                    ResolveResult::Directory(c.clone())
                }
            } else if facts.exists {
                ResolveResult::File(c.clone())
            } else {
                ResolveResult::NotFound
            }
        },
        _ => ResolveResult::NotFound,
    }
}

// ---------------------------------------------------------------------------
// Media types.

/// The final component of a `/`-separated path, trailing separators ignored;
/// none for an empty path, `.` or `..`.
pub open spec fn spec_file_name(path: Seq<char>) -> Option<Seq<char>> {
    let parts = split_spec(trim_trailing_slashes(path), '/');
    let name = parts[parts.len() - 1];
    if name.len() == 0 || name == seq!['.'] || name == parent_dir() {
        None
    } else {
        Some(name)
    }
}

pub open spec fn trim_trailing_slashes(s: Seq<char>) -> Seq<char>
    decreases s.len(),
{
    if s.len() > 0 && s.last() == '/' {
        trim_trailing_slashes(s.drop_last())
    } else {
        s
    }
}

/// `Path::extension`: what follows the last `.` of the file name, unless the
/// name has no `.` or its only `.` is the first character.
pub open spec fn spec_extension(path: Seq<char>) -> Option<Seq<char>> {
    match spec_file_name(path) {
        Some(name) => {
            let parts = split_spec(name, '.');
            if parts.len() < 2 || (parts.len() == 2 && parts[0].len() == 0) {
                None
            } else {
                Some(parts[parts.len() - 1])
            }
        },
        None => None,
    }
}

/// The media type for an extension.
pub open spec fn spec_mime_for(ext: Option<Seq<char>>) -> Seq<char> {
    match ext {
        Some(e) => if e == "html"@ || e == "htm"@ {
            "text/html; charset=utf-8"@
        } else if e == "css"@ {
            "text/css; charset=utf-8"@
        } else if e == "js"@ {
            "application/javascript; charset=utf-8"@
        } else if e == "json"@ {
            "application/json; charset=utf-8"@
        } else if e == "png"@ {
            "image/png"@
        } else if e == "jpg"@ || e == "jpeg"@ {
            "image/jpeg"@
        } else if e == "gif"@ {
            "image/gif"@
        } else if e == "svg"@ {
            "image/svg+xml"@
        } else if e == "ico"@ {
            "image/x-icon"@
        } else if e == "woff"@ {
            "font/woff"@
        } else if e == "woff2"@ {
            "font/woff2"@
        } else if e == "ttf"@ {
            "font/ttf"@
        } else if e == "pdf"@ {
            "application/pdf"@
        } else if e == "zip"@ {
            "application/zip"@
        } else if e == "txt"@ {
            "text/plain; charset=utf-8"@
        } else if e == "xml"@ {
            "application/xml; charset=utf-8"@
        } else {
            "application/octet-stream"@
        },
        None => "application/octet-stream"@,
    }
}

/// The media types by extension, as the server announces them.
pub open spec fn mime_table() -> Seq<(Seq<char>, Seq<char>)> {
    seq![
        (seq!['h', 't', 'm', 'l'], "text/html; charset=utf-8"@),
        (seq!['h', 't', 'm'], "text/html; charset=utf-8"@),
        (seq!['c', 's', 's'], "text/css; charset=utf-8"@),
        (seq!['j', 's'], "application/javascript; charset=utf-8"@),
        (seq!['j', 's', 'o', 'n'], "application/json; charset=utf-8"@),
        (seq!['p', 'n', 'g'], "image/png"@),
        (seq!['j', 'p', 'g'], "image/jpeg"@),
        (seq!['j', 'p', 'e', 'g'], "image/jpeg"@),
        (seq!['g', 'i', 'f'], "image/gif"@),
        (seq!['s', 'v', 'g'], "image/svg+xml"@),
        (seq!['i', 'c', 'o'], "image/x-icon"@),
        (seq!['w', 'o', 'f', 'f'], "font/woff"@),
        (seq!['w', 'o', 'f', 'f', '2'], "font/woff2"@),
        (seq!['t', 't', 'f'], "font/ttf"@),
        (seq!['p', 'd', 'f'], "application/pdf"@),
        (seq!['z', 'i', 'p'], "application/zip"@),
        (seq!['t', 'x', 't'], "text/plain; charset=utf-8"@),
        (seq!['x', 'm', 'l'], "application/xml; charset=utf-8"@),
    ]
}

/// A file `stem.ext` in any directory has the extension `ext`, when the
/// stem and the extension are non-empty and hold no `.` or `/`.
pub proof fn lemma_extension_of_file(dir: Seq<char>, stem: Seq<char>, ext: Seq<char>)
    requires
        stem.len() > 0,
        ext.len() > 0,
        !stem.contains('.'),
        !stem.contains('/'),
        !ext.contains('.'),
        !ext.contains('/'),
    ensures
        spec_extension(dir + seq!['/'] + stem + seq!['.'] + ext) == Some(ext),
        spec_extension(stem + seq!['.'] + ext) == Some(ext),
{
    let name = stem + seq!['.'] + ext;
    assert forall|i: int| 0 <= i < name.len() implies #[trigger] name[i] != '/' by {
        if i < stem.len() {
            assert(name[i] == stem[i]);
            if stem[i] == '/' {
                assert(stem.contains('/'));
            }
        } else if i > stem.len() {
            assert(name[i] == ext[i - stem.len() - 1]);
            if ext[i - stem.len() - 1] == '/' {
                assert(ext.contains('/'));
            }
        }
    }
    assert forall|i: int| 0 <= i < ext.len() implies #[trigger] ext[i] != '.' by {
        if ext[i] == '.' {
            assert(ext.contains('.'));
        }
    }
    let full = dir + seq!['/'] + name;
    assert(full =~= dir + seq!['/'] + stem + seq!['.'] + ext);
    assert(full.last() == ext.last());
    assert(ext.last() == ext[ext.len() - 1]);
    assert(trim_trailing_slashes(full) == full);
    assert(name.last() == ext.last());
    assert(trim_trailing_slashes(name) == name);
    crate::web::lua::utils::lemma_split_append(dir, '/', name);
    crate::text::lemma_split_nonempty(dir, '/');
    assert(!name.contains('/')) by {
        if name.contains('/') {
            let k = choose|k: int| 0 <= k < name.len() && name[k] == '/';
            assert(name[k] != '/');
        }
    }
    crate::text::lemma_split_no_sep(name, '/');
    crate::web::lua::utils::lemma_split_append(stem, '.', ext);
    crate::text::lemma_split_no_sep(stem, '.');
    assert(split_spec(name, '.') == seq![stem, ext]);
    assert(name.len() >= 3);
    assert(name != seq!['.']);
    assert(name != parent_dir());
}

/// Every extension of the table gets its listed media type, whatever the
/// file's stem and directory; an extension outside it gets
/// `application/octet-stream`.
pub proof fn lemma_mime_by_extension(dir: Seq<char>, stem: Seq<char>, i: int)
    requires
        stem.len() > 0,
        !stem.contains('.'),
        !stem.contains('/'),
        0 <= i < mime_table().len(),
    ensures
        spec_mime_for(spec_extension(dir + seq!['/'] + stem + seq!['.'] + mime_table()[i].0))
            == mime_table()[i].1,
        spec_mime_for(spec_extension(stem + seq!['.'] + mime_table()[i].0)) == mime_table()[i].1,
{
    reveal_strlit("html");
    reveal_strlit("htm");
    reveal_strlit("css");
    reveal_strlit("js");
    reveal_strlit("json");
    reveal_strlit("png");
    reveal_strlit("jpg");
    reveal_strlit("jpeg");
    reveal_strlit("gif");
    reveal_strlit("svg");
    reveal_strlit("ico");
    reveal_strlit("woff");
    reveal_strlit("woff2");
    reveal_strlit("ttf");
    reveal_strlit("pdf");
    reveal_strlit("zip");
    reveal_strlit("txt");
    reveal_strlit("xml");
    let ext = mime_table()[i].0;
    assert(!ext.contains('.') && !ext.contains('/') && ext.len() > 0) by {
        if ext.contains('.') || ext.contains('/') {
            let k = choose|k: int| 0 <= k < ext.len() && (ext[k] == '.' || ext[k] == '/');
        }
    }
    lemma_extension_of_file(dir, stem, ext);
    if i == 0 {
        assert(ext =~= "html"@);
    } else if i == 1 {
        assert(ext =~= "htm"@);
    } else if i == 2 {
        assert(ext =~= "css"@);
    } else if i == 3 {
        assert(ext =~= "js"@);
    } else if i == 4 {
        assert(ext =~= "json"@);
    } else if i == 5 {
        assert(ext =~= "png"@);
    } else if i == 6 {
        assert(ext =~= "jpg"@);
    } else if i == 7 {
        assert(ext =~= "jpeg"@);
    } else if i == 8 {
        assert(ext =~= "gif"@);
    } else if i == 9 {
        assert(ext =~= "svg"@);
    } else if i == 10 {
        assert(ext =~= "ico"@);
    } else if i == 11 {
        assert(ext =~= "woff"@);
    } else if i == 12 {
        assert(ext =~= "woff2"@);
    } else if i == 13 {
        assert(ext =~= "ttf"@);
    } else if i == 14 {
        assert(ext =~= "pdf"@);
    } else if i == 15 {
        assert(ext =~= "zip"@);
    } else if i == 16 {
        assert(ext =~= "txt"@);
    } else if i == 17 {
        assert(ext =~= "xml"@);
    }
    assert(spec_mime_for(Some(ext)) == mime_table()[i].1);
}

/// An extension outside the table gets `application/octet-stream`.
pub proof fn lemma_mime_unlisted(dir: Seq<char>, stem: Seq<char>, ext: Seq<char>)
    requires
        stem.len() > 0,
        ext.len() > 0,
        !stem.contains('.'),
        !stem.contains('/'),
        !ext.contains('.'),
        !ext.contains('/'),
        forall|i: int| 0 <= i < mime_table().len() ==> (#[trigger] mime_table()[i]).0 != ext,
    ensures
        spec_mime_for(spec_extension(dir + seq!['/'] + stem + seq!['.'] + ext))
            == "application/octet-stream"@,
{
    reveal_strlit("html");
    reveal_strlit("htm");
    reveal_strlit("css");
    reveal_strlit("js");
    reveal_strlit("json");
    reveal_strlit("png");
    reveal_strlit("jpg");
    reveal_strlit("jpeg");
    reveal_strlit("gif");
    reveal_strlit("svg");
    reveal_strlit("ico");
    reveal_strlit("woff");
    reveal_strlit("woff2");
    reveal_strlit("ttf");
    reveal_strlit("pdf");
    reveal_strlit("zip");
    reveal_strlit("txt");
    reveal_strlit("xml");
    lemma_extension_of_file(dir, stem, ext);
    assert(mime_table()[0].0 != ext);
    assert(mime_table()[0].0 =~= "html"@);
    assert(mime_table()[1].0 != ext);
    assert(mime_table()[1].0 =~= "htm"@);
    assert(mime_table()[2].0 != ext);
    assert(mime_table()[2].0 =~= "css"@);
    assert(mime_table()[3].0 != ext);
    assert(mime_table()[3].0 =~= "js"@);
    assert(mime_table()[4].0 != ext);
    assert(mime_table()[4].0 =~= "json"@);
    assert(mime_table()[5].0 != ext);
    assert(mime_table()[5].0 =~= "png"@);
    assert(mime_table()[6].0 != ext);
    assert(mime_table()[6].0 =~= "jpg"@);
    assert(mime_table()[7].0 != ext);
    assert(mime_table()[7].0 =~= "jpeg"@);
    assert(mime_table()[8].0 != ext);
    assert(mime_table()[8].0 =~= "gif"@);
    assert(mime_table()[9].0 != ext);
    assert(mime_table()[9].0 =~= "svg"@);
    assert(mime_table()[10].0 != ext);
    assert(mime_table()[10].0 =~= "ico"@);
    assert(mime_table()[11].0 != ext);
    assert(mime_table()[11].0 =~= "woff"@);
    assert(mime_table()[12].0 != ext);
    assert(mime_table()[12].0 =~= "woff2"@);
    assert(mime_table()[13].0 != ext);
    assert(mime_table()[13].0 =~= "ttf"@);
    assert(mime_table()[14].0 != ext);
    assert(mime_table()[14].0 =~= "pdf"@);
    assert(mime_table()[15].0 != ext);
    assert(mime_table()[15].0 =~= "zip"@);
    assert(mime_table()[16].0 != ext);
    assert(mime_table()[16].0 =~= "txt"@);
    assert(mime_table()[17].0 != ext);
    assert(mime_table()[17].0 =~= "xml"@);
}

/// The extension of a path, as `Path::extension` finds it.
pub fn extension_of(path: &str) -> (r: Option<String>)
    ensures
        opt_str_view(r) == spec_extension(path@),
{
    let cs = chars_of(path);
    let mut n: usize = cs.len();
    assert(cs@.take(cs@.len() as int) == cs@);
    while n > 0 && cs[n - 1] == '/'
        invariant
            n <= cs.len(),
            trim_trailing_slashes(cs@) == trim_trailing_slashes(cs@.take(n as int)),
        decreases n,
    {
        assert(cs@.take(n as int).drop_last() == cs@.take(n - 1));
        n = n - 1;
    }
    let trimmed = chars_slice(&cs, 0, n);
    assert(trimmed@ == cs@.take(n as int));
    assert(trim_trailing_slashes(trimmed@) == trimmed@);
    let parts = split_chars(&trimmed, '/');
    proof {
        crate::text::lemma_split_nonempty(trimmed@, '/');
    }
    let name = &parts[parts.len() - 1];
    assert(name@ == deep_chars(parts@)[parts.len() - 1]);
    let dot: [char; 1] = ['.'];
    let dd: [char; 2] = ['.', '.'];
    assert(dot@ == seq!['.']);
    assert(dd@ == parent_dir());
    if name.len() == 0 || chars_equal(name, dot.as_slice()) || chars_equal(name, dd.as_slice()) {
        return None;
    }
    let pieces = split_chars(name, '.');
    proof {
        crate::text::lemma_split_nonempty(name@, '.');
    }
    assert(deep_chars(pieces@)[0] == pieces@[0]@);
    if pieces.len() < 2 || (pieces.len() == 2 && pieces[0].len() == 0) {
        return None;
    }
    assert(deep_chars(pieces@)[pieces.len() - 1] == pieces@[pieces.len() - 1]@);
    Some(string_from_chars(&pieces[pieces.len() - 1]))
}

fn str_is(s: &str, lit: &str) -> (r: bool)
    ensures
        r == (s@ == lit@),
{
    let a = chars_of(s);
    let b = chars_of(lit);
    chars_equal(&a, &b)
}

/// The media type for a file, chosen by its extension.
pub fn get_mime_type(path: &str) -> (r: &'static str)
    ensures
        r@ == spec_mime_for(spec_extension(path@)),
{
    match extension_of(path) {
        Some(e) => {
            let e = e.as_str();
            if str_is(e, "html") || str_is(e, "htm") {
                "text/html; charset=utf-8"
            } else if str_is(e, "css") {
                "text/css; charset=utf-8"
            } else if str_is(e, "js") {
                "application/javascript; charset=utf-8"
            } else if str_is(e, "json") {
                "application/json; charset=utf-8"
            } else if str_is(e, "png") {
                "image/png"
            } else if str_is(e, "jpg") || str_is(e, "jpeg") {
                "image/jpeg"
            } else if str_is(e, "gif") {
                "image/gif"
            } else if str_is(e, "svg") {
                "image/svg+xml"
            } else if str_is(e, "ico") {
                "image/x-icon"
            } else if str_is(e, "woff") {
                "font/woff"
            } else if str_is(e, "woff2") {
                "font/woff2"
            } else if str_is(e, "ttf") {
                "font/ttf"
            } else if str_is(e, "pdf") {
                "application/pdf"
            } else if str_is(e, "zip") {
                "application/zip"
            } else if str_is(e, "txt") {
                "text/plain; charset=utf-8"
            } else if str_is(e, "xml") {
                "application/xml; charset=utf-8"
            } else {
                "application/octet-stream"
            }
        },
        None => "application/octet-stream",
    }
}

/// A path with a `..` component is always refused, whatever the file system
/// reports.
pub proof fn lemma_traversal_forbidden(
    url: Seq<char>,
    canonical: Option<Seq<char>>,
    base_canonical: Option<Seq<char>>,
    is_dir: bool,
    index_exists: bool,
    exists: bool,
)
    requires
        spec_contains_traversal(spec_normalize_url_path(url)),
    ensures
        spec_resolve(url, canonical, base_canonical, is_dir, index_exists, exists)
            == ResolveView::Forbidden,
{
}

/// A file that is served, or a directory that is listed, lies within the
/// document root.
pub proof fn lemma_resolved_within_root(
    url: Seq<char>,
    canonical: Option<Seq<char>>,
    base_canonical: Option<Seq<char>>,
    is_dir: bool,
    index_exists: bool,
    exists: bool,
)
    ensures
        spec_resolve(url, canonical, base_canonical, is_dir, index_exists, exists) matches ResolveView::File(p)
            ==> base_canonical matches Some(b) && path_within(p, b),
        spec_resolve(url, canonical, base_canonical, is_dir, index_exists, exists) matches ResolveView::Directory(p)
            ==> base_canonical matches Some(b) && path_within(p, b),
{
    match (canonical, base_canonical) {
        (Some(c), Some(b)) => {
            if path_within(c, b) && is_dir && index_exists
                && !spec_contains_traversal(spec_normalize_url_path(url)) {
                let j = join_path(c, index_file_name());
                assert(j.subrange(0, c.len() as int) =~= c);
                assert(j.subrange(0, b.len() as int) =~= c.subrange(0, b.len() as int));
                if !(c.len() > 0 && c.last() == '/') {
                    assert(j[c.len() as int] == '/');
                    if b.len() < c.len() {
                        assert(j[b.len() as int] == c[b.len() as int]);
                    }
                } else if b.len() < c.len() {
                    assert(j[b.len() as int] == c[b.len() as int]);
                }
                assert(path_within(j, b));
            }
        },
        _ => {},
    }
}

} // verus!
