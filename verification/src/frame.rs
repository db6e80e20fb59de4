//! A raw request read line by line: its headers and its request line.

use vstd::prelude::*;
use crate::text::{
    chars_of, string_from_chars, chars_slice, chars_equal, spec_find, find_chars, lines_spec,
    lines_chars, split_spec, split_chars, deep_chars,
};

verus! {

broadcast use vstd::string::group_string_axioms;

/// A line split at its first `: ` into name and value.
pub open spec fn header_split(line: Seq<char>) -> Option<(Seq<char>, Seq<char>)> {
    match spec_find(line, seq![':', ' ']) {
        Some(i) => Some((line.take(i), line.subrange(i + 2, line.len() as int))),
        None => None,
    }
}

pub open spec fn has_key(m: Seq<(Seq<char>, Seq<char>)>, k: Seq<char>) -> bool {
    exists|i: int| 0 <= i < m.len() && (#[trigger] m[i]).0 == k
}

/// The headers of the lines, the first value of each name kept, names in
/// the order they first appear.
pub open spec fn spec_collect_headers(lines: Seq<Seq<char>>) -> Seq<(Seq<char>, Seq<char>)>
    decreases lines.len(),
{
    if lines.len() == 0 {
        Seq::empty()
    } else {
        let m = spec_collect_headers(lines.drop_last());
        match header_split(lines.last()) {
            Some((k, v)) => if has_key(m, k) {
                m
            } else {
                m.push((k, v))
            },
            None => m,
        }
    }
}

pub open spec fn pairs_view(v: Seq<(String, String)>) -> Seq<(Seq<char>, Seq<char>)> {
    v.map_values(|p: (String, String)| (p.0@, p.1@))
}

fn collect_header_lines(lines: &[Vec<char>]) -> (r: Vec<(String, String)>)
    ensures
        pairs_view(r@) == spec_collect_headers(deep_chars(lines@)),
{
    let ghost ls = deep_chars(lines@);
    let mut out: Vec<(String, String)> = Vec::new();
    let mut i: usize = 0;
    assert(ls.take(0) =~= Seq::<Seq<char>>::empty());
    assert(pairs_view(out@) =~= Seq::<(Seq<char>, Seq<char>)>::empty());
    let sep: [char; 2] = [':', ' '];
    assert(sep@ == seq![':', ' ']);
    while i < lines.len()
        invariant
            i <= lines.len(),
            ls == deep_chars(lines@),
            sep@ == seq![':', ' '],
            pairs_view(out@) == spec_collect_headers(ls.take(i as int)),
        decreases lines.len() - i,
    {
        assert(ls.take(i + 1).drop_last() == ls.take(i as int));
        assert(ls.take(i + 1).last() == ls[i as int]);
        assert(lines@[i as int]@ == ls[i as int]);
        let line = &lines[i];
        match find_chars(line, sep.as_slice()) {
            Some(p) => {
                let ll = line.len();
                assert(p + 2 <= ll);
                let k = chars_slice(line, 0, p);
                let v = chars_slice(line, p + 2, ll);
                assert(k@ == line@.take(p as int));
                let ghost m = pairs_view(out@);
                let mut found = false;
                let mut j: usize = 0;
                while j < out.len() && !found
                    invariant
                        j <= out.len(),
                        m == pairs_view(out@),
                        found ==> has_key(m, k@),
                        !found ==> forall|t: int| 0 <= t < j ==> m[t].0 != k@,
                    decreases out.len() - j + (if found { 0int } else { 1int }),
                {
                    let name = chars_of(out[j].0.as_str());
                    assert(m[j as int].0 == out@[j as int].0@);
                    if chars_equal(&name, &k) {
                        found = true;
                    } else {
                        j = j + 1;
                    }
                }
                if !found {
                    let ks = string_from_chars(&k);
                    let vs = string_from_chars(&v);
                    out.push((ks, vs));
                    assert(pairs_view(out@) =~= m.push((k@, v@)));
                }
            },
            None => {},
        }
        i = i + 1;
    }
    assert(ls.take(ls.len() as int) == ls);
    out
}

pub open spec fn strs_view(v: Seq<&str>) -> Seq<Seq<char>> {
    v.map_values(|s: &str| s@)
}

/// The headers of a request, from its lines: `name: value` lines, the
/// first value of a repeated name kept.
pub fn collect_headers(request: &[&str]) -> (r: Vec<(String, String)>)
    ensures
        pairs_view(r@) == spec_collect_headers(strs_view(request@)),
{
    let mut lines: Vec<Vec<char>> = Vec::new();
    let mut i: usize = 0;
    while i < request.len()
        invariant
            i <= request.len(),
            deep_chars(lines@) == strs_view(request@).take(i as int),
        decreases request.len() - i,
    {
        let c = chars_of(request[i]);
        assert(c@ == strs_view(request@)[i as int]);
        let ghost before = deep_chars(lines@);
        lines.push(c);
        assert(deep_chars(lines@) =~= before.push(strs_view(request@)[i as int]));
        assert(strs_view(request@).take(i + 1) =~= strs_view(request@).take(i as int).push(
            strs_view(request@)[i as int],
        ));
        i = i + 1;
        assert(deep_chars(lines@) =~= strs_view(request@).take(i as int));
    }
    assert(strs_view(request@).take(request@.len() as int) == strs_view(request@));
    collect_header_lines(&lines)
}

/// Why a request could not be read.
#[derive(Debug, Clone)]
pub enum FrameError {
    Parse(String),
}

/// A request read as text.
#[derive(Debug, Clone)]
pub struct HttpFrame {
    /// The request as read.
    pub request_str: String,
    /// Its headers, first value per name.
    pub headers: Vec<(String, String)>,
    /// `method` and `path` of the request line.
    pub router: Vec<(&'static str, Option<String>)>,
}

pub open spec fn opt_view(s: Option<String>) -> Option<Seq<char>> {
    match s {
        Some(s) => Some(s@),
        None => None,
    }
}

impl HttpFrame {
    /// Reads a request from its text: headers from its lines, method and
    /// path from the `' '`-separated first line; a request without lines
    /// is refused.
    pub fn from_request_str(request_str: String) -> (r: Result<Self, FrameError>)
        ensures
            lines_spec(request_str@).len() == 0 <==> r is Err,
            r matches Ok(f) ==> {
                &&& f.request_str@ == request_str@
                &&& pairs_view(f.headers@) == spec_collect_headers(lines_spec(request_str@))
                &&& f.router@.len() == 2
                &&& f.router@[0].0@ == "method"@
                &&& opt_view(f.router@[0].1) == Some(split_spec(lines_spec(request_str@)[0], ' ')[0])
                &&& f.router@[1].0@ == "path"@
                &&& opt_view(f.router@[1].1) == if split_spec(lines_spec(request_str@)[0], ' ').len()
                    > 1 {
                    Some(split_spec(lines_spec(request_str@)[0], ' ')[1])
                } else {
                    None
                }
            },
    {
        let cs = chars_of(request_str.as_str());
        let lines = lines_chars(&cs);
        let headers = collect_header_lines(&lines);
        if lines.len() == 0 {
            return Err(FrameError::Parse("failed to parse request method".to_owned()));
        }
        assert(lines@[0]@ == deep_chars(lines@)[0]);
        let parts = split_chars(&lines[0], ' ');
        proof {
            crate::text::lemma_split_nonempty(lines@[0]@, ' ');
        }
        assert(parts@[0]@ == deep_chars(parts@)[0]);
        let method = Some(string_from_chars(&parts[0]));
        let path = if parts.len() > 1 {
            assert(parts@[1]@ == deep_chars(parts@)[1]);
            Some(string_from_chars(&parts[1]))
        } else {
            None
        };
        let mut router: Vec<(&'static str, Option<String>)> = Vec::new();
        router.push(("method", method));
        router.push(("path", path));
        Ok(HttpFrame { request_str, headers, router })
    }
}

} // verus!
