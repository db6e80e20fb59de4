//! What a static route answers: which files to try for a request, and,
//! once the files have been looked up, whether to send one, list the
//! directory, redirect to the path with a `/`, or show a custom page.
//! Looking at the file system is the caller's part.

use vstd::prelude::*;
use crate::unicode::{to_lowercase, lowercase};
use crate::text::{
    chars_of, string_from_chars, append_str, chars_contain, chars_end_with, chars_start_with,
    chars_slice, split_chars, split_spec, deep_chars, contains_seq, has_suffix, has_prefix,
};

verus! {

broadcast use vstd::string::group_string_axioms;

pub open spec fn join_path(dir: Seq<char>, name: Seq<char>) -> Seq<char> {
    dir + seq!['/'] + name
}

/// The index files of a route: those configured, else `index.html`.
pub open spec fn index_names(index: Seq<Seq<char>>) -> Seq<Seq<char>> {
    if index.len() == 0 {
        seq![seq!['i', 'n', 'd', 'e', 'x', '.', 'h', 't', 'm', 'l']]
    } else {
        index
    }
}

/// Every index file under `dir`, in order.
pub open spec fn index_paths(dir: Seq<char>, index: Seq<Seq<char>>) -> Seq<Seq<char>> {
    index_names(index).map_values(|n: Seq<char>| join_path(dir, n))
}

/// The first step of serving a route.
pub enum ServeStep {
    /// The route has no root: the error page answers.
    ErrorPage,
    /// The directory the request names, and the files to try in order.
    Candidates(String, Vec<String>),
}

pub enum ServeStepView {
    ErrorPage,
    Candidates(Seq<char>, Seq<Seq<char>>),
}

pub open spec fn step_view(s: ServeStep) -> ServeStepView {
    match s {
        ServeStep::ErrorPage => ServeStepView::ErrorPage,
        ServeStep::Candidates(b, fs) => ServeStepView::Candidates(b@, deep_strings(fs@)),
    }
}

pub open spec fn deep_strings(v: Seq<String>) -> Seq<Seq<char>> {
    v.map_values(|s: String| s@)
}

/// The files a route tries for a request whose path below the route is
/// `tail`: a tail naming a file (it holds a `.`) is tried as it is; any
/// other tail, or none, names a directory whose index files are tried.
pub open spec fn spec_serve_candidates(root: Option<Seq<char>>, index: Seq<Seq<char>>, tail: Option<
    Seq<char>,
>) -> ServeStepView {
    match root {
        None => ServeStepView::ErrorPage,
        Some(r) => match tail {
            Some(p) => if contains_seq(p, seq!['.']) {
                ServeStepView::Candidates(r, seq![join_path(r, p)])
            } else {
                ServeStepView::Candidates(join_path(r, p), index_paths(join_path(r, p), index))
            },
            None => ServeStepView::Candidates(r, index_paths(r, index)),
        },
    }
}

fn join(dir: &str, name: &str) -> (r: String)
    ensures
        r@ == join_path(dir@, name@),
{
    let mut out = chars_of(dir);
    out.push('/');
    append_str(&mut out, name);
    string_from_chars(&out)
}

fn index_files(dir: &str, index: &[String]) -> (r: Vec<String>)
    ensures
        deep_strings(r@) == index_paths(dir@, deep_strings(index@)),
{
    let mut out: Vec<String> = Vec::new();
    if index.len() == 0 {
        out.push(join(dir, "index.html"));
        proof {
            reveal_strlit("index.html");
            assert("index.html"@ =~= seq!['i', 'n', 'd', 'e', 'x', '.', 'h', 't', 'm', 'l']);
            assert(deep_strings(index@) =~= Seq::<Seq<char>>::empty());
            assert(index_names(deep_strings(index@)) =~= seq![seq!['i', 'n', 'd', 'e', 'x', '.', 'h', 't', 'm', 'l']]);
            assert(deep_strings(out@)[0] == out@[0]@);
            assert(deep_strings(out@) =~= index_paths(dir@, deep_strings(index@)));
        }
        return out;
    }
    let ghost names = deep_strings(index@);
    let mut i: usize = 0;
    while i < index.len()
        invariant
            i <= index.len(),
            names == deep_strings(index@),
            names.len() > 0,
            deep_strings(out@) == names.take(i as int).map_values(|n: Seq<char>| join_path(dir@, n)),
        decreases index.len() - i,
    {
        let f = join(dir, index[i].as_str());
        let ghost prev = deep_strings(out@);
        let ghost fv = f@;
        out.push(f);
        assert(names[i as int] == index@[i as int]@);
        assert(deep_strings(out@) =~= prev.push(fv));
        assert(names.take(i + 1) =~= names.take(i as int).push(names[i as int]));
        assert(deep_strings(out@) =~= names.take(i + 1).map_values(|n: Seq<char>| join_path(dir@, n)));
        i = i + 1;
    }
    assert(names.take(names.len() as int) =~= names);
    out
}

/// The files a route with `root` and `index` tries for the tail `tail`.
pub fn serve_candidates(root: Option<&str>, index: &[String], tail: Option<&str>) -> (r: ServeStep)
    ensures
        step_view(r) == spec_serve_candidates(
            match root {
                Some(s) => Some(s@),
                None => None,
            },
            deep_strings(index@),
            match tail {
                Some(t) => Some(t@),
                None => None,
            },
        ),
{
    let r = match root {
        None => {
            return ServeStep::ErrorPage;
        },
        Some(r) => r,
    };
    match tail {
        Some(p) => {
            let pc = chars_of(p);
            let dot: [char; 1] = ['.'];
            assert(dot@ == seq!['.']);
            if chars_contain(&pc, dot.as_slice()) {
                let mut v: Vec<String> = Vec::new();
                v.push(join(r, p));
                assert(deep_strings(v@) =~= seq![join_path(r@, p@)]);
                ServeStep::Candidates(r.to_owned(), v)
            } else {
                let base = join(r, p);
                let files = index_files(base.as_str(), index);
                ServeStep::Candidates(base, files)
            }
        },
        None => {
            let files = index_files(r, index);
            ServeStep::Candidates(r.to_owned(), files)
        },
    }
}

/// What the directory a request names turned out to be.
#[derive(Debug, Clone, Copy, PartialEq, Eq, Structural)]
pub enum PathKind {
    Directory,
    NotDirectory,
    Missing,
}

/// What a static route answers once its files have been looked up.
#[derive(Debug, Clone, PartialEq, Eq)]
pub enum ServeAction {
    /// Send the candidate at this position (the first that exists).
    SendFile(usize),
    /// List the directory under this title (an empty or unreadable listing
    /// gets the not-found page).
    ListDirectory(String),
    /// 301 to this location, the path with a `/`.
    Redirect(String),
    /// The route's not-found page.
    NotFoundPage,
}

pub enum ServeActionView {
    SendFile(nat),
    ListDirectory(Seq<char>),
    Redirect(Seq<char>),
    NotFoundPage,
}

pub open spec fn action_view(a: ServeAction) -> ServeActionView {
    match a {
        ServeAction::SendFile(i) => ServeActionView::SendFile(i as nat),
        ServeAction::ListDirectory(t) => ServeActionView::ListDirectory(t@),
        ServeAction::Redirect(l) => ServeActionView::Redirect(l@),
        ServeAction::NotFoundPage => ServeActionView::NotFoundPage,
    }
}

/// The title of a listing: the directory without the route's root in
/// front, or the root where it does not start with it.
pub open spec fn listing_title(root: Seq<char>, dir: Seq<char>) -> Seq<char> {
    if has_prefix(dir, root) {
        dir.subrange(root.len() as int, dir.len() as int)
    } else {
        root
    }
}

/// The last segment of a request path.
pub open spec fn last_segment(uri_path: Seq<char>) -> Seq<char> {
    split_spec(uri_path, '/').last()
}

/// The answer of a static route: the first candidate that exists is sent.
/// Otherwise, with directory listing on and a last path segment without a
/// `.`, a directory is listed and a missing one gets the not-found page.
/// Otherwise a path that neither ends in `/` nor holds a `.` is redirected
/// to the path with a `/`; with listing on the directory is listed; else
/// the not-found page answers.
pub open spec fn spec_serve_answer(
    root: Seq<char>,
    dir: Seq<char>,
    auto_index: bool,
    uri_path: Seq<char>,
    first_existing: Option<nat>,
    dir_kind: PathKind,
) -> ServeActionView {
    match first_existing {
        Some(i) => ServeActionView::SendFile(i),
        None => if auto_index && !contains_seq(last_segment(uri_path), seq!['.']) && dir_kind
            == PathKind::Directory {
            ServeActionView::ListDirectory(listing_title(root, dir))
        } else if auto_index && !contains_seq(last_segment(uri_path), seq!['.']) && dir_kind
            == PathKind::Missing {
            ServeActionView::NotFoundPage
        } else if !has_suffix(uri_path, seq!['/']) && !contains_seq(uri_path, seq!['.']) {
            ServeActionView::Redirect(uri_path.push('/'))
        } else if auto_index {
            ServeActionView::ListDirectory(listing_title(root, dir))
        } else {
            ServeActionView::NotFoundPage
        },
    }
}

fn title_of(root: &str, dir: &str) -> (r: String)
    ensures
        r@ == listing_title(root@, dir@),
{
    let rc = chars_of(root);
    let dc = chars_of(dir);
    if chars_start_with(&dc, &rc) {
        let t = chars_slice(&dc, rc.len(), dc.len());
        string_from_chars(&t)
    } else {
        root.to_owned()
    }
}

/// The answer of a static route with `root`, once the candidates for the
/// directory `dir` have been looked up: `first_existing` is the first that
/// exists, `dir_kind` what `dir` is.
pub fn serve_answer(
    root: &str,
    dir: &str,
    auto_index: bool,
    uri_path: &str,
    first_existing: Option<usize>,
    dir_kind: PathKind,
) -> (r: ServeAction)
    ensures
        action_view(r) == spec_serve_answer(
            root@,
            dir@,
            auto_index,
            uri_path@,
            match first_existing {
                Some(i) => Some(i as nat),
                None => None,
            },
            dir_kind,
        ),
{
    if let Some(i) = first_existing {
        return ServeAction::SendFile(i);
    }
    let uc = chars_of(uri_path);
    let segs = split_chars(&uc, '/');
    proof {
        crate::text::lemma_split_nonempty(uc@, '/');
    }
    let ghost ss = deep_chars(segs@);
    assert(segs@[segs.len() - 1]@ == ss[ss.len() - 1]);
    let dot: [char; 1] = ['.'];
    let slash: [char; 1] = ['/'];
    assert(dot@ == seq!['.']);
    assert(slash@ == seq!['/']);
    let last_has_dot = chars_contain(&segs[segs.len() - 1], dot.as_slice());
    if auto_index && !last_has_dot {
        match dir_kind {
            PathKind::Directory => {
                return ServeAction::ListDirectory(title_of(root, dir));
            },
            PathKind::Missing => {
                return ServeAction::NotFoundPage;
            },
            PathKind::NotDirectory => {},
        }
    }
    if !chars_end_with(&uc, slash.as_slice()) && !chars_contain(&uc, dot.as_slice()) {
        let mut loc = uc.clone();
        loc.push('/');
        return ServeAction::Redirect(string_from_chars(&loc));
    }
    if auto_index {
        ServeAction::ListDirectory(title_of(root, dir))
    } else {
        ServeAction::NotFoundPage
    }
}

/// Whether the configured server name `n` serves the (lowercased) domain
/// `d` in the given way: `exact` compares as written, else the name is
/// lowercased first.
pub open spec fn name_serves(n: Option<Seq<char>>, d: Seq<char>, exact: bool) -> bool {
    match n {
        Some(x) => if exact {
            x == d
        } else {
            lowercase(x) == d
        },
        None => false,
    }
}

/// The host configuration that serves `domain` among those of a port, by
/// their server names (`None` for the default host): one named exactly so,
/// else one whose name is so without regard to case, else the default.
/// Where several qualify, the first in the given order.
pub open spec fn host_choice(names: Seq<Option<Seq<char>>>, d: Seq<char>, r: Option<nat>) -> bool {
    let exact = exists|j: int| 0 <= j < names.len() && #[trigger] name_serves(names[j], d, true);
    let folded = exists|j: int| 0 <= j < names.len() && #[trigger] name_serves(names[j], d, false);
    let default = exists|j: int| 0 <= j < names.len() && #[trigger] names[j] is None;
    match r {
        Some(i) => i < names.len() && if exact {
            name_serves(names[i as int], d, true) && forall|j: int| 0 <= j < i ==> !name_serves(#[trigger] names[j], d, true)
        } else if folded {
            name_serves(names[i as int], d, false) && forall|j: int| 0 <= j < i ==> !name_serves(#[trigger] names[j], d, false)
        } else {
            names[i as int] is None && forall|j: int| 0 <= j < i ==> !(#[trigger] names[j] is None)
        },
        None => !exact && !folded && !default,
    }
}

pub open spec fn opt_names(v: Seq<Option<String>>) -> Seq<Option<Seq<char>>> {
    v.map_values(|o: Option<String>| match o {
        Some(s) => Some(s@),
        None => None,
    })
}

fn find_host(names: &[Option<String>], domain: &str, mode: u8) -> (r: Option<usize>)
    ensures
        match r {
            Some(i) => i < names.len() && (if mode == 0 {
                name_serves(opt_names(names@)[i as int], domain@, true)
            } else if mode == 1 {
                name_serves(opt_names(names@)[i as int], domain@, false)
            } else {
                opt_names(names@)[i as int] is None
            }) && forall|j: int| 0 <= j < i ==> !(if mode == 0 {
                name_serves(#[trigger] opt_names(names@)[j], domain@, true)
            } else if mode == 1 {
                name_serves(opt_names(names@)[j], domain@, false)
            } else {
                opt_names(names@)[j] is None
            }),
            None => forall|j: int| 0 <= j < names.len() ==> !(if mode == 0 {
                name_serves(#[trigger] opt_names(names@)[j], domain@, true)
            } else if mode == 1 {
                name_serves(opt_names(names@)[j], domain@, false)
            } else {
                opt_names(names@)[j] is None
            }),
        },
{
    let dc = chars_of(domain);
    let mut i: usize = 0;
    while i < names.len()
        invariant
            i <= names.len(),
            dc@ == domain@,
            forall|j: int| 0 <= j < i ==> !(if mode == 0 {
                name_serves(#[trigger] opt_names(names@)[j], domain@, true)
            } else if mode == 1 {
                name_serves(opt_names(names@)[j], domain@, false)
            } else {
                opt_names(names@)[j] is None
            }),
        decreases names.len() - i,
    {
        let hit = match &names[i] {
            Some(n) => {
                if mode == 0 {
                    let nc = chars_of(n.as_str());
                    crate::text::chars_equal(&nc, &dc)
                } else if mode == 1 {
                    let l = to_lowercase(n.as_str());
                    let lc = chars_of(l.as_str());
                    crate::text::chars_equal(&lc, &dc)
                } else {
                    false
                }
            },
            None => mode >= 2,
        };
        assert(hit == (if mode == 0 {
            name_serves(opt_names(names@)[i as int], domain@, true)
        } else if mode == 1 {
            name_serves(opt_names(names@)[i as int], domain@, false)
        } else {
            opt_names(names@)[i as int] is None
        }));
        if hit {
            return Some(i);
        }
        i = i + 1;
    }
    None
}

/// The host configuration, among those of a port with these server names,
/// that serves the lowercased domain `domain` (see `host_choice`).
pub fn select_host(names: &[Option<String>], domain: &str) -> (r: Option<usize>)
    ensures
        host_choice(
            opt_names(names@),
            domain@,
            match r {
                Some(i) => Some(i as nat),
                None => None,
            },
        ),
{
    let ghost ns = opt_names(names@);
    if let Some(i) = find_host(names, domain, 0) {
        return Some(i);
    }
    assert(!exists|j: int| 0 <= j < ns.len() && #[trigger] name_serves(ns[j], domain@, true));
    if let Some(i) = find_host(names, domain, 1) {
        return Some(i);
    }
    assert(!exists|j: int| 0 <= j < ns.len() && #[trigger] name_serves(ns[j], domain@, false));
    let r = find_host(names, domain, 2);
    proof {
        if r is None {
            assert(!exists|j: int| 0 <= j < ns.len() && #[trigger] ns[j] is None);
        }
    }
    r
}

} // verus!
