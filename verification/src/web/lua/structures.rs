//! The request and response state a script works on.

use vstd::prelude::*;
use crate::text::{chars_of, string_from_chars, chars_slice, find_chars, spec_find, append_str, decimal, u64_to_decimal};
use crate::web::lua::utils::{UriArgs, spec_to_query, spec_parse_query, pairs_view};
use crate::web::lua::constants::{method_id_to_string, spec_method_name};
use crate::unicode::{lossy_text, decode_utf8_lossy, ascii_chars, ascii_string};
use crate::web::header_map::{header_groups, header_map_clone, header_map_items, flatten_groups, item_pairs};
use crate::text::{visible_ascii, is_visible_ascii};
use http::HeaderMap;

verus! {

broadcast use vstd::string::group_string_axioms;

/// The headers of a response a script works on.
#[derive(Debug)]
pub struct CandyHeaders {
    pub headers: HeaderMap,
}

impl Clone for CandyHeaders {
    fn clone(&self) -> (r: Self)
        ensures
            header_groups(r.headers) == header_groups(self.headers),
    {
        CandyHeaders { headers: header_map_clone(&self.headers) }
    }
}

/// A header name as scripts write it, with `_` standing for `-`.
pub open spec fn spec_normalize_header_name(key: Seq<char>) -> Seq<char> {
    key.map_values(|c: char| if c == '_' { '-' } else { c })
}

/// `t` with one more value for `k`: joining the values of `k`, or starting
/// a new entry at the end.
pub open spec fn add_header_value(
    t: Seq<(Seq<char>, Seq<Seq<char>>)>,
    k: Seq<char>,
    v: Seq<char>,
) -> Seq<(Seq<char>, Seq<Seq<char>>)> {
    if exists|i: int| 0 <= i < t.len() && t[i].0 == k {
        let i = choose|i: int| 0 <= i < t.len() && t[i].0 == k;
        t.update(i, (k, t[i].1.push(v)))
    } else {
        t.push((k, seq![v]))
    }
}

/// The readable headers a script gets: for each name, in the order names
/// first appear, its values that are visible ASCII, in order. A name none
/// of whose values is readable is left out.
pub open spec fn readable_headers(items: Seq<(Seq<char>, Seq<u8>)>) -> Seq<(Seq<char>, Seq<Seq<char>>)>
    decreases items.len(),
{
    if items.len() == 0 {
        Seq::empty()
    } else {
        let prev = readable_headers(items.drop_last());
        if visible_ascii(items.last().1) {
            add_header_value(prev, items.last().0, ascii_chars(items.last().1))
        } else {
            prev
        }
    }
}

pub open spec fn header_table_view(t: Seq<(String, Vec<String>)>) -> Seq<(Seq<char>, Seq<Seq<char>>)> {
    t.map_values(|p: (String, Vec<String>)| (p.0@, p.1@.map_values(|x: String| x@)))
}

pub open spec fn header_table_keys_distinct(t: Seq<(Seq<char>, Seq<Seq<char>>)>) -> bool {
    forall|i: int, j: int| 0 <= i < j < t.len() ==> t[i].0 != t[j].0
}

impl CandyHeaders {
    /// Wraps the given headers.
    pub fn new(headers: HeaderMap) -> (r: Self)
        ensures
            r.headers == headers,
    {
        CandyHeaders { headers }
    }

    /// The headers as a script reads them: one entry per name, in the order
    /// names first appear, with the name's readable values in order (a
    /// script sees a single value as a string, several as a list).
    pub fn get_headers_table(&self) -> (r: Vec<(String, Vec<String>)>)
        ensures
            header_table_view(r@) == readable_headers(flatten_groups(header_groups(self.headers))),
            header_table_keys_distinct(header_table_view(r@)),
    {
        let items = header_map_items(&self.headers);
        let ghost pairs = item_pairs(items@);
        let mut out: Vec<(String, Vec<String>)> = Vec::new();
        let mut i: usize = 0;
        while i < items.len()
            invariant
                i <= items.len(),
                pairs == item_pairs(items@),
                pairs == flatten_groups(header_groups(self.headers)),
                header_table_view(out@) == readable_headers(pairs.take(i as int)),
                header_table_keys_distinct(header_table_view(out@)),
            decreases items.len() - i,
        {
            let ghost before = header_table_view(out@);
            proof {
                assert(pairs.take(i + 1).drop_last() =~= pairs.take(i as int));
                assert(pairs[i as int] == (items@[i as int].0@, items@[i as int].1@));
                assert(pairs.take(i + 1).last() == pairs[i as int]);
            }
            if is_visible_ascii(items[i].1.as_slice()) {
                let key = items[i].0.clone();
                let value = ascii_string(items[i].1.as_slice());
                let key_chars = chars_of(key.as_str());
                let mut found: Option<usize> = None;
                let mut j: usize = 0;
                while j < out.len()
                    invariant
                        j <= out.len(),
                        before == header_table_view(out@),
                        key_chars@ == key@,
                        found matches Some(f) ==> f < out.len() && out@[f as int].0@ == key@,
                        found is None ==> forall|x: int| 0 <= x < j ==> out@[x].0@ != key@,
                    decreases out.len() - j,
                {
                    if found.is_none() {
                        let other = chars_of(out[j].0.as_str());
                        if crate::text::chars_equal(&other, &key_chars) {
                            found = Some(j);
                        }
                    }
                    j = j + 1;
                }
                match found {
                    Some(f) => {
                        proof {
                            assert(before[f as int].0 == key@);
                            let c = choose|x: int| 0 <= x < before.len() && before[x].0 == key@;
                            assert(c == f);
                        }
                        let mut vs = out[f].1.clone();
                        let ghost old_vs = vs@;
                        proof {
                            assert(vs@ == out@[f as int].1@);
                            assert(before[f as int].1 == old_vs.map_values(|x: String| x@));
                        }
                        vs.push(value);
                        proof {
                            assert(vs@.map_values(|x: String| x@) =~= old_vs.map_values(|x: String| x@).push(
                                ascii_chars(pairs[i as int].1),
                            ));
                        }
                        out.set(f, (key, vs));
                        proof {
                            assert(header_table_view(out@) =~= add_header_value(
                                before,
                                pairs[i as int].0,
                                ascii_chars(pairs[i as int].1),
                            ));
                        }
                    },
                    None => {
                        proof {
                            assert forall|x: int| 0 <= x < before.len() implies before[x].0 != key@ by {
                                assert(before[x].0 == out@[x].0@);
                            }
                        }
                        let mut vs: Vec<String> = Vec::new();
                        vs.push(value);
                        proof {
                            assert(vs@.map_values(|x: String| x@) =~= seq![ascii_chars(pairs[i as int].1)]);
                        }
                        out.push((key, vs));
                        proof {
                            assert(header_table_view(out@) =~= add_header_value(
                                before,
                                pairs[i as int].0,
                                ascii_chars(pairs[i as int].1),
                            ));
                        }
                    },
                }
            }
            i = i + 1;
        }
        assert(pairs.take(pairs.len() as int) == pairs);
        out
    }

    /// Turns a script-style header name into an HTTP one: every `_` becomes
    /// `-`.
    pub fn normalize_header_name(key: &str) -> (r: String)
        ensures
            r@ == spec_normalize_header_name(key@),
    {
        let cs = chars_of(key);
        let mut out: Vec<char> = Vec::new();
        let mut i: usize = 0;
        while i < cs.len()
            invariant
                i <= cs.len(),
                cs@ == key@,
                out@ == spec_normalize_header_name(key@.take(i as int)),
            decreases cs.len() - i,
        {
            let c = cs[i];
            out.push(if c == '_' { '-' } else { c });
            i = i + 1;
            assert(out@ =~= spec_normalize_header_name(key@.take(i as int)));
        }
        assert(key@.take(key@.len() as int) == key@);
        string_from_chars(&out)
    }
}

/// The mutable state of a request a script may change.
#[derive(Debug)]
pub struct CandyReqState {
    /// The method (`GET`, `POST`, ...).
    pub method: String,
    /// The path, without the query.
    pub uri_path: String,
    /// The query arguments.
    pub uri_args: UriArgs,
    /// Form arguments of the body, once read.
    pub post_args: Option<UriArgs>,
    /// Whether the request is to be routed again.
    pub jump: bool,
    /// The request headers.
    pub headers: HeaderMap,
    /// A redirect status set by the script.
    pub redirect_status: Option<u16>,
    /// What the script printed.
    pub output_buffer: String,
}

impl Clone for CandyReqState {
    fn clone(&self) -> (r: Self)
        ensures
            r.method@ == self.method@,
            r.uri_path@ == self.uri_path@,
            r.jump == self.jump,
            header_groups(r.headers) == header_groups(self.headers),
            r.redirect_status == self.redirect_status,
            r.output_buffer@ == self.output_buffer@,
    {
        CandyReqState {
            method: self.method.clone(),
            uri_path: self.uri_path.clone(),
            uri_args: self.uri_args.clone(),
            post_args: self.post_args.clone(),
            jump: self.jump,
            headers: header_map_clone(&self.headers),
            redirect_status: self.redirect_status,
            output_buffer: self.output_buffer.clone(),
        }
    }
}

/// The path, followed by `?` and the query when there are arguments.
pub open spec fn spec_build_uri(path: Seq<char>, args: Seq<(Seq<char>, Seq<char>)>) -> Seq<char> {
    if args.len() == 0 {
        path
    } else {
        path + seq!['?'] + spec_to_query(args)
    }
}

impl CandyReqState {
    /// The current URI: the path, and `?query` when there are arguments.
    pub fn build_uri(&self) -> (r: String)
        ensures
            r@ == spec_build_uri(self.uri_path@, self.uri_args@),
    {
        if self.uri_args.0.len() == 0 {
            assert(self.uri_args@.len() == 0);
            self.uri_path.clone()
        } else {
            let mut out = chars_of(self.uri_path.as_str());
            out.push('?');
            let q = self.uri_args.to_query();
            let qc = chars_of(q.as_str());
            let ghost before = out@;
            let mut i: usize = 0;
            while i < qc.len()
                invariant
                    i <= qc.len(),
                    out@ == before + qc@.take(i as int),
                decreases qc.len() - i,
            {
                out.push(qc[i]);
                i = i + 1;
                assert(out@ =~= before + qc@.take(i as int));
            }
            assert(qc@.take(qc@.len() as int) == qc@);
            string_from_chars(&out)
        }
    }
}

/// A query argument as a script sees it: one value (`None` standing for
/// `true`, a key without a value), or, for a repeated key, every value in
/// order.
#[derive(Debug, Clone, PartialEq)]
pub enum ArgValue {
    Single(Option<String>),
    Many(Vec<Option<String>>),
}

/// The mathematical content of an argument.
pub enum ArgView {
    Single(Option<Seq<char>>),
    Many(Seq<Option<Seq<char>>>),
}

pub open spec fn opt_chars(o: Option<String>) -> Option<Seq<char>> {
    match o {
        Some(s) => Some(s@),
        None => None,
    }
}

pub open spec fn arg_view(a: ArgValue) -> ArgView {
    match a {
        ArgValue::Single(o) => ArgView::Single(opt_chars(o)),
        ArgValue::Many(v) => ArgView::Many(v@.map_values(|o: Option<String>| opt_chars(o))),
    }
}

pub open spec fn args_table_view(t: Seq<(String, ArgValue)>) -> Seq<(Seq<char>, ArgView)> {
    t.map_values(|p: (String, ArgValue)| (p.0@, arg_view(p.1)))
}

/// Each key once.
pub open spec fn table_keys_distinct(t: Seq<(Seq<char>, ArgView)>) -> bool {
    forall|i: int, j: int| 0 <= i < j < t.len() ==> t[i].0 != t[j].0
}

/// The first value of a key: `true` when it is empty.
pub open spec fn first_arg(v: Seq<char>) -> Option<Seq<char>> {
    if v.len() == 0 {
        None
    } else {
        Some(v)
    }
}

/// `t` with one more argument: a new key gets its value; a key seen once
/// becomes a list of its first value and this one; a list grows by it.
pub open spec fn add_arg(t: Seq<(Seq<char>, ArgView)>, k: Seq<char>, v: Seq<char>) -> Seq<(Seq<char>, ArgView)> {
    if exists|i: int| 0 <= i < t.len() && t[i].0 == k {
        let i = choose|i: int| 0 <= i < t.len() && t[i].0 == k;
        t.update(
            i,
            (
                k,
                match t[i].1 {
                    ArgView::Single(x) => ArgView::Many(seq![x, Some(v)]),
                    ArgView::Many(xs) => ArgView::Many(xs.push(Some(v))),
                },
            ),
        )
    } else {
        t.push((k, ArgView::Single(first_arg(v))))
    }
}

/// The table of a list of arguments, in the order keys first appear.
pub open spec fn args_table(pairs: Seq<(Seq<char>, Seq<char>)>) -> Seq<(Seq<char>, ArgView)>
    decreases pairs.len(),
{
    if pairs.len() == 0 {
        Seq::empty()
    } else {
        add_arg(args_table(pairs.drop_last()), pairs.last().0, pairs.last().1)
    }
}

/// How many arguments are read: at most `limit` (default 100), all when
/// the limit is zero.
pub open spec fn args_read(len: nat, max_args: Option<usize>) -> nat {
    let limit = match max_args {
        Some(n) => n as nat,
        None => 100,
    };
    if limit > 0 && limit < len {
        limit
    } else {
        len
    }
}

/// The table a script gets for `args`, as `get_uri_args` and
/// `get_post_args` build it.
pub fn args_to_table(args: &UriArgs, max_args: Option<usize>) -> (r: Vec<(String, ArgValue)>)
    ensures
        args_table_view(r@) == args_table(args@.take(args_read(args@.len(), max_args) as int)),
        table_keys_distinct(args_table_view(r@)),
{
    let limit: usize = match max_args {
        Some(n) => n,
        None => 100,
    };
    let n: usize = if limit > 0 && limit < args.0.len() {
        limit
    } else {
        args.0.len()
    };
    let ghost pairs = args@;
    let mut out: Vec<(String, ArgValue)> = Vec::new();
    let mut i: usize = 0;
    while i < n
        invariant
            n <= args.0.len(),
            pairs == args@,
            pairs.len() == args.0.len(),
            i <= n,
            args_table_view(out@) == args_table(pairs.take(i as int)),
            table_keys_distinct(args_table_view(out@)),
        decreases n - i,
    {
        let key = args.0[i].0.clone();
        let value = args.0[i].1.clone();
        let ghost before = args_table_view(out@);
        proof {
            assert(pairs.take(i + 1).drop_last() =~= pairs.take(i as int));
            assert(pairs[i as int] == (args.0@[i as int].0@, args.0@[i as int].1@));
            assert(pairs.take(i + 1).last() == pairs[i as int]);
        }
        let key_chars = chars_of(key.as_str());
        let mut found: Option<usize> = None;
        let mut j: usize = 0;
        while j < out.len()
            invariant
                j <= out.len(),
                before == args_table_view(out@),
                key_chars@ == key@,
                found matches Some(f) ==> f < out.len() && out@[f as int].0@ == key@,
                found is None ==> forall|x: int| 0 <= x < j ==> out@[x].0@ != key@,
            decreases out.len() - j,
        {
            if found.is_none() {
                let other = chars_of(out[j].0.as_str());
                if crate::text::chars_equal(&other, &key_chars) {
                    found = Some(j);
                }
            }
            j = j + 1;
        }
        match found {
            Some(f) => {
                proof {
                    assert(before[f as int].0 == key@);
                    let c = choose|x: int| 0 <= x < before.len() && before[x].0 == key@;
                    assert(c == f);
                }
                let updated = match &out[f].1 {
                    ArgValue::Single(x) => {
                        let mut v: Vec<Option<String>> = Vec::new();
                        v.push(x.clone());
                        v.push(Some(value));
                        proof {
                            assert(v@.map_values(|o: Option<String>| opt_chars(o)) =~= seq![
                                opt_chars(*x),
                                Some(args.0@[i as int].1@),
                            ]);
                        }
                        ArgValue::Many(v)
                    },
                    ArgValue::Many(xs) => {
                        let mut v = xs.clone();
                        let ghost old_v = v@;
                        proof {
                            assert(v@ == xs@);
                        }
                        v.push(Some(value));
                        proof {
                            assert(v@.map_values(|o: Option<String>| opt_chars(o)) =~= xs@.map_values(
                                |o: Option<String>| opt_chars(o),
                            ).push(Some(args.0@[i as int].1@)));
                        }
                        ArgValue::Many(v)
                    },
                };
                out.set(f, (key, updated));
                proof {
                    assert(args_table_view(out@) =~= add_arg(before, pairs[i as int].0, pairs[i as int].1));
                }
            },
            None => {
                proof {
                    assert forall|x: int| 0 <= x < before.len() implies before[x].0 != key@ by {
                        assert(before[x] == (out@[x].0@, arg_view(out@[x].1)));
                    }
                }
                let first = if value.as_str().is_empty() {
                    None
                } else {
                    Some(value)
                };
                out.push((key, ArgValue::Single(first)));
                proof {
                    assert(args_table_view(out@) =~= add_arg(before, pairs[i as int].0, pairs[i as int].1));
                }
            },
        }
        i = i + 1;
    }
    out
}

/// Where a URI given to `set_uri` splits into path and query: at its first
/// `?`, if any.
pub open spec fn spec_split_uri(uri: Seq<char>) -> (Seq<char>, Option<Seq<char>>) {
    match spec_find(uri, seq!['?']) {
        Some(i) => (uri.subrange(0, i), Some(uri.subrange(i + 1, uri.len() as int))),
        None => (uri, None),
    }
}

impl CandyReqState {
    /// Sets the method by its identifier; an unknown identifier is refused
    /// and nothing changes.
    pub fn set_method(&mut self, method_id: u16) -> (r: Result<(), String>)
        ensures
            match spec_method_name(method_id) {
                Some(name) => r is Ok && final(self).method@ == name && final(self).uri_path == old(
                    self,
                ).uri_path && final(self).jump == old(self).jump,
                None => r matches Err(m) && m@ == "Invalid method id: "@ + decimal(method_id as nat)
                    && *final(self) == *old(self),
            },
    {
        match method_id_to_string(method_id) {
            Some(name) => {
                self.method = name.to_owned();
                Ok(())
            },
            None => {
                let mut out: Vec<char> = Vec::new();
                append_str(&mut out, "Invalid method id: ");
                let d = u64_to_decimal(method_id as u64);
                append_str(&mut out, d.as_str());
                Err(string_from_chars(&out))
            },
        }
    }

    /// Sets the URI: the path before the first `?` and the arguments after
    /// it (none without one), and whether to route again; an empty URI is
    /// refused and nothing changes.
    pub fn set_uri(&mut self, uri: &str, jump: Option<bool>) -> (r: Result<(), String>)
        ensures
            uri@.len() == 0 ==> (r matches Err(m) && m@ == "uri argument must be a non-empty string"@
                && *final(self) == *old(self)),
            uri@.len() > 0 ==> r is Ok && final(self).uri_path@ == spec_split_uri(uri@).0
                && final(self).uri_args@ == match spec_split_uri(uri@).1 {
                Some(q) => spec_parse_query(q),
                None => Seq::empty(),
            } && final(self).jump == match jump {
                Some(b) => b,
                None => false,
            } && final(self).method == old(self).method,
    {
        if uri.is_empty() {
            return Err("uri argument must be a non-empty string".to_owned());
        }
        let cs = chars_of(uri);
        let q: [char; 1] = ['?'];
        assert(q@ == seq!['?']);
        match find_chars(&cs, q.as_slice()) {
            Some(i) => {
                assert(q@.len() == 1);
                assert(i + q@.len() <= cs@.len());
                assert(i + 1 <= cs.len());
                let path = chars_slice(&cs, 0, i);
                let query = chars_slice(&cs, i + 1, cs.len());
                self.uri_path = string_from_chars(&path);
                let qs = string_from_chars(&query);
                self.uri_args = UriArgs::from_query(qs.as_str());
            },
            None => {
                self.uri_path = uri.to_owned();
                self.uri_args = UriArgs::new();
            },
        }
        self.jump = match jump {
            Some(b) => b,
            None => false,
        };
        Ok(())
    }

    /// The query arguments as a script's table (see `args_to_table`).
    pub fn get_uri_args(&self, max_args: Option<usize>) -> (r: Vec<(String, ArgValue)>)
        ensures
            args_table_view(r@) == args_table(
                self.uri_args@.take(args_read(self.uri_args@.len(), max_args) as int),
            ),
    {
        args_to_table(&self.uri_args, max_args)
    }

    /// The form arguments of the body as a script's table: read once from
    /// the body (as text; none without a body) and kept.
    pub fn get_post_args(&mut self, body: Option<&[u8]>, max_args: Option<usize>) -> (r: Vec<
        (String, ArgValue),
    >)
        ensures
            final(self).post_args matches Some(p) && args_table_view(r@) == args_table(
                p@.take(args_read(p@.len(), max_args) as int),
            ),
            old(self).post_args is Some ==> final(self).post_args == old(self).post_args,
            old(self).post_args is None ==> (final(self).post_args matches Some(p) && p@ == match body {
                Some(b) => spec_parse_query(lossy_text(b@)),
                None => Seq::empty(),
            }),
    {
        if self.post_args.is_none() {
            let parsed = match body {
                Some(b) => {
                    let text = decode_utf8_lossy(b);
                    UriArgs::from_query(text.as_str())
                },
                None => UriArgs::new(),
            };
            self.post_args = Some(parsed);
        }
        match &self.post_args {
            Some(p) => args_to_table(p, max_args),
            None => Vec::new(),
        }
    }

    /// Ends the script's handling with the given status.
    pub fn exit(&mut self, status: u16)
        ensures
            *final(self) == (CandyReqState { redirect_status: Some(status), ..*old(self) }),
    {
        self.redirect_status = Some(status);
    }
}

/// A request body a script may replace: `None` when there is none.
pub fn init_body(body: &mut Option<Vec<u8>>)
    ensures
        *final(body) matches Some(b) && b@.len() == 0,
{
    *body = Some(Vec::new());
}

/// Appends to a body begun with `init_body`; refused when there is none.
pub fn append_body(body: &mut Option<Vec<u8>>, data: &[u8]) -> (r: Result<(), String>)
    ensures
        match *old(body) {
            Some(b) => r is Ok && (*final(body) matches Some(n) && n@ == b@ + data@),
            None => r matches Err(m) && m@ == "request body not initialized, call cd.req.init_body first"@
                && *final(body) is None,
        },
{
    match body {
        Some(v) => {
            crate::text::append_bytes(v, data);
            Ok(())
        },
        None => Err("request body not initialized, call cd.req.init_body first".to_owned()),
    }
}

/// Replaces the body.
pub fn set_body_data(body: &mut Option<Vec<u8>>, data: &[u8])
    ensures
        *final(body) matches Some(n) && n@ == data@,
{
    *body = Some(vstd::slice::slice_to_vec(data));
}

/// Drops the body.
pub fn discard_body(body: &mut Option<Vec<u8>>)
    ensures
        *final(body) is None,
{
    *body = None;
}

/// The body's bytes; none when there is no body or it is empty.
pub fn get_body_data(body: &Option<Vec<u8>>) -> (r: Option<Vec<u8>>)
    ensures
        match *body {
            Some(b) => if b@.len() > 0 {
                r matches Some(v) && v@ == b@
            } else {
                r is None
            },
            None => r is None,
        },
{
    match body {
        Some(b) => {
            if b.len() > 0 {
                Some(vstd::slice::slice_to_vec(b.as_slice()))
            } else {
                None
            }
        },
        None => None,
    }
}

/// The response headers a script sees.
#[derive(Debug, Clone)]
pub struct CandyResp {
    pub headers: CandyHeaders,
}

/// The response a script builds.
#[derive(Debug, Clone)]
pub struct CandyResponse {
    pub status: u16,
    pub headers: CandyHeaders,
    pub body: String,
}

} // verus!
