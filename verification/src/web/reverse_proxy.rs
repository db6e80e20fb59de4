//! Choosing the upstream server a proxied request goes to, and the address
//! it is sent to.

use vstd::prelude::*;
use vstd::utf8::encode_utf8;
use crate::text::{
    chars_of, string_from_chars, chars_start_with, chars_slice, has_prefix, split_spec,
    split_chars, deep_chars, chars_equal, append_str,
};
use crate::web::proxy::{ip_hash, spec_ip_hash};
use crate::config::{LoadBalanceType, Upstream, UpstreamServer};

verus! {

broadcast use vstd::string::group_string_axioms;

/// Round robin: the `counter`-th request goes to server `counter mod n`.
pub fn select_round_robin(counter: usize, len: usize) -> (r: usize)
    requires
        len > 0,
    ensures
        r == counter % len,
        r < len,
{
    counter % len
}

pub open spec fn weight_sum(w: Seq<u32>) -> nat
    decreases w.len(),
{
    if w.len() == 0 {
        0
    } else {
        weight_sum(w.drop_last()) + (w.last() as nat)
    }
}

/// The server whose share of the weights holds position `pos`: walking the
/// servers in order, the first whose weight exceeds what is left of `pos`;
/// the first server when none does.
pub open spec fn weighted_pick(w: Seq<u32>, pos: int, i: int) -> int
    decreases w.len() - i,
{
    if i >= w.len() {
        0
    } else if pos < w[i] {
        i
    } else {
        weighted_pick(w, pos - w[i], i + 1)
    }
}

proof fn lemma_weight_sum_prefix(w: Seq<u32>, i: int)
    requires
        0 <= i <= w.len(),
    ensures
        weight_sum(w.take(i)) <= weight_sum(w),
    decreases w.len() - i,
{
    if i < w.len() {
        lemma_weight_sum_prefix(w, i + 1);
        assert(w.take(i + 1).drop_last() == w.take(i));
    } else {
        assert(w.take(i) == w);
    }
}

/// Weighted round robin: the `counter`-th request goes to the server that
/// holds position `counter mod total weight`.
pub fn select_weighted_round_robin(counter: usize, weights: &[u32]) -> (r: usize)
    requires
        weight_sum(weights@) > 0,
        weight_sum(weights@) <= u32::MAX,
    ensures
        r == weighted_pick(weights@, counter as int % weight_sum(weights@) as int, 0),
{
    let mut total: u32 = 0;
    let mut i: usize = 0;
    while i < weights.len()
        invariant
            i <= weights.len(),
            total == weight_sum(weights@.take(i as int)),
            weight_sum(weights@) <= u32::MAX,
        decreases weights.len() - i,
    {
        proof {
            lemma_weight_sum_prefix(weights@, i + 1);
            assert(weights@.take(i + 1).drop_last() == weights@.take(i as int));
        }
        total = total + weights[i];
        i = i + 1;
    }
    assert(weights@.take(weights@.len() as int) == weights@);
    let mut current: usize = counter % (total as usize);
    let ghost pos = counter as int % weight_sum(weights@) as int;
    let mut k: usize = 0;
    while k < weights.len()
        invariant
            k <= weights.len(),
            pos == counter as int % weight_sum(weights@) as int,
            weighted_pick(weights@, pos, 0) == weighted_pick(weights@, current as int, k as int),
        decreases weights.len() - k,
    {
        if current < weights[k] as usize {
            assert(weighted_pick(weights@, current as int, k as int) == k);
            return k;
        }
        current = current - weights[k] as usize;
        k = k + 1;
    }
    0
}

/// IP hash: a client always goes to the server its address hashes to.
pub fn select_ip_hash(ip: &str, len: usize) -> (r: usize)
    requires
        len > 0,
    ensures
        r == spec_ip_hash(encode_utf8(ip@)) % len,
{
    ip_hash(ip) % len
}

/// The client address used for IP hashing: the first entry of
/// `X-Forwarded-For`, else `X-Real-IP`.
pub open spec fn spec_client_ip(forwarded_for: Option<Seq<char>>, real_ip: Option<Seq<char>>) -> Option<
    Seq<char>,
> {
    match forwarded_for {
        Some(f) => Some(split_spec(f, ',')[0]),
        None => real_ip,
    }
}

pub open spec fn opt_str(s: Option<&str>) -> Option<Seq<char>> {
    match s {
        Some(s) => Some(s@),
        None => None,
    }
}

pub open spec fn opt_string(s: Option<String>) -> Option<Seq<char>> {
    match s {
        Some(s) => Some(s@),
        None => None,
    }
}

/// Picks the client address from the forwarding headers.
pub fn client_ip(forwarded_for: Option<&str>, real_ip: Option<&str>) -> (r: Option<String>)
    ensures
        opt_string(r) == spec_client_ip(opt_str(forwarded_for), opt_str(real_ip)),
{
    match forwarded_for {
        Some(f) => {
            let cs = chars_of(f);
            let parts = split_chars(&cs, ',');
            proof {
                crate::text::lemma_split_nonempty(cs@, ',');
            }
            assert(parts@[0]@ == deep_chars(parts@)[0]);
            Some(string_from_chars(&parts[0]))
        },
        None => match real_ip {
            Some(r) => Some(r.to_owned()),
            None => None,
        },
    }
}

/// `conn / weight < min` as the proxy compares them, in exact arithmetic:
/// a weight of zero never compares below.
pub open spec fn load_below(conn: nat, weight: nat, min: nat) -> bool {
    weight > 0 && conn < min * weight
}

pub open spec fn load_equal(conn: nat, weight: nat, min: nat) -> bool {
    weight > 0 && conn == min * weight
}

/// Least connections over the first `n` servers: the selected server and
/// the connection count kept as the minimum. A server is taken when its
/// connections per weight are below that minimum, or equal to it with a
/// larger weight than the selected one.
pub open spec fn least_conn_state(counts: Seq<usize>, weights: Seq<u32>, n: int) -> (int, nat)
    decreases n,
{
    if n <= 0 {
        (0, usize::MAX as nat)
    } else {
        let (sel, min) = least_conn_state(counts, weights, n - 1);
        let c = counts[n - 1] as nat;
        let w = weights[n - 1] as nat;
        if load_below(c, w, min) {
            (n - 1, c)
        } else if load_equal(c, w, min) && w > weights[sel] {
            (n - 1, c)
        } else {
            (sel, min)
        }
    }
}

proof fn lemma_least_conn_bounds(counts: Seq<usize>, weights: Seq<u32>, n: int)
    requires
        0 <= n <= counts.len(),
    ensures
        0 <= least_conn_state(counts, weights, n).0,
        n > 0 ==> least_conn_state(counts, weights, n).0 < n,
        least_conn_state(counts, weights, n).1 <= usize::MAX,
    decreases n,
{
    if n > 0 {
        lemma_least_conn_bounds(counts, weights, n - 1);
    }
}

/// Least connections: the server with the fewest connections per unit of
/// weight, ties to the heavier server.
pub fn select_least_conn(counts: &[usize], weights: &[u32]) -> (r: usize)
    requires
        counts.len() == weights.len(),
    ensures
        r == least_conn_state(counts@, weights@, counts@.len() as int).0,
        counts.len() > 0 ==> r < counts.len(),
{
    let mut selected: usize = 0;
    let mut min: usize = usize::MAX;
    let mut i: usize = 0;
    while i < counts.len()
        invariant
            i <= counts.len(),
            counts.len() == weights.len(),
            (selected as int, min as nat) == least_conn_state(counts@, weights@, i as int),
            i > 0 ==> selected < i,
            i == 0 ==> selected == 0,
        decreases counts.len() - i,
    {
        proof {
            lemma_least_conn_bounds(counts@, weights@, i as int);
        }
        let c = counts[i] as u128;
        let w = weights[i] as u128;
        let m = min as u128;
        assert(m * w <= 0xffff_ffff_ffff_ffff_ffff_ffff_ffff) by (nonlinear_arith)
            requires
                m <= 0xffff_ffff_ffff_ffffu128,
                w <= 0xffff_ffffu128,
        ;
        if w > 0 && c < m * w {
            selected = i;
            min = counts[i];
        } else if w > 0 && c == m * w && weights[i] > weights[selected] {
            selected = i;
            min = counts[i];
        }
        i = i + 1;
    }
    selected
}

/// The address a request is proxied to: the server with `http://` added
/// when it names no scheme, trailing `/` removed, then the path and query.
pub open spec fn spec_upstream_uri(server: Seq<char>, path_query: Seq<char>) -> Seq<char> {
    let base = if has_prefix(server, "http://"@) || has_prefix(server, "https://"@) {
        server
    } else {
        "http://"@ + server
    };
    trim_trailing_slashes(base) + path_query
}

pub open spec fn trim_trailing_slashes(s: Seq<char>) -> Seq<char>
    decreases s.len(),
{
    if s.len() > 0 && s.last() == '/' {
        trim_trailing_slashes(s.drop_last())
    } else {
        s
    }
}

/// Builds the upstream address for a request.
pub fn upstream_uri(server: &str, path_query: &str) -> (r: String)
    ensures
        r@ == spec_upstream_uri(server@, path_query@),
{
    let sc = chars_of(server);
    let http = chars_of("http://");
    let https = chars_of("https://");
    let mut base: Vec<char> = if chars_start_with(&sc, &http) || chars_start_with(&sc, &https) {
        sc
    } else {
        let mut b = http;
        let ghost h = b@;
        let mut k: usize = 0;
        while k < sc.len()
            invariant
                k <= sc.len(),
                b@ == h + sc@.take(k as int),
            decreases sc.len() - k,
        {
            b.push(sc[k]);
            k = k + 1;
            assert(b@ =~= h + sc@.take(k as int));
        }
        assert(sc@.take(sc@.len() as int) == sc@);
        b
    };
    let ghost full = base@;
    let mut n: usize = base.len();
    assert(full.take(full.len() as int) == full);
    while n > 0 && base[n - 1] == '/'
        invariant
            n <= base.len(),
            base@ == full,
            trim_trailing_slashes(full) == trim_trailing_slashes(full.take(n as int)),
        decreases n,
    {
        assert(full.take(n as int).drop_last() == full.take(n - 1));
        n = n - 1;
    }
    let mut out = chars_slice(&base, 0, n);
    let pc = chars_of(path_query);
    let ghost t = out@;
    let mut k: usize = 0;
    while k < pc.len()
        invariant
            k <= pc.len(),
            out@ == t + pc@.take(k as int),
        decreases pc.len() - k,
    {
        out.push(pc[k]);
        k = k + 1;
        assert(out@ =~= t + pc@.take(k as int));
    }
    assert(pc@.take(pc@.len() as int) == pc@);
    string_from_chars(&out)
}

/// Where a proxied request goes.
#[derive(Debug, Clone, PartialEq, Eq)]
pub enum ProxyTarget {
    /// The route's `proxy_pass` with the path and query after it.
    Pass(String),
    /// The address of the upstream server at this position.
    Upstream(String, usize),
    /// The route proxies nowhere: its custom page answers.
    CustomPage,
    /// IP hashing found no client address in the request.
    BadRequest,
    /// The route names an upstream that is not configured.
    InternalError,
}

pub enum ProxyTargetView {
    Pass(Seq<char>),
    Upstream(Seq<char>, int),
    CustomPage,
    BadRequest,
    InternalError,
}

pub open spec fn target_view(t: ProxyTarget) -> ProxyTargetView {
    match t {
        ProxyTarget::Pass(u) => ProxyTargetView::Pass(u@),
        ProxyTarget::Upstream(u, i) => ProxyTargetView::Upstream(u@, i as int),
        ProxyTarget::CustomPage => ProxyTargetView::CustomPage,
        ProxyTarget::BadRequest => ProxyTargetView::BadRequest,
        ProxyTarget::InternalError => ProxyTargetView::InternalError,
    }
}

/// The weights of an upstream's servers, in order.
pub open spec fn server_weights(s: Seq<UpstreamServer>) -> Seq<u32> {
    Seq::new(s.len(), |i: int| s[i].weight)
}

/// The first upstream at or after `i` with the given name.
pub open spec fn find_upstream(ups: Seq<Upstream>, name: Seq<char>, i: int) -> Option<int>
    decreases ups.len() - i,
{
    if i < 0 || i >= ups.len() {
        None
    } else if ups[i].name@ == name {
        Some(i)
    } else {
        find_upstream(ups, name, i + 1)
    }
}

/// The server an upstream picks: `counter` is how many requests its
/// counter has seen before this one, `counts` the open connections of each
/// server, `ip` the client address; no pick where IP hashing has no address.
pub open spec fn spec_pick_server(
    u: Upstream,
    counter: usize,
    counts: Seq<usize>,
    ip: Option<Seq<char>>,
) -> Option<int> {
    let w = server_weights(u.server@);
    match u.method {
        LoadBalanceType::RoundRobin => Some(counter as int % u.server@.len() as int),
        LoadBalanceType::WeightedRoundRobin => Some(
            weighted_pick(w, counter as int % weight_sum(w) as int, 0),
        ),
        LoadBalanceType::IpHash => match ip {
            Some(a) => Some(spec_ip_hash(encode_utf8(a)) as int % u.server@.len() as int),
            None => None,
        },
        LoadBalanceType::LeastConn => Some(least_conn_state(counts, w, counts.len() as int).0),
    }
}

/// What an upstream can be asked for without panicking: servers to pick
/// from, a total weight in range for weighted round robin, and a count for
/// each server for least connections.
pub open spec fn upstream_usable(u: Upstream, counts: Seq<usize>) -> bool {
    &&& u.server@.len() > 0
    &&& u.method == LoadBalanceType::WeightedRoundRobin ==> 0 < weight_sum(
        server_weights(u.server@),
    ) <= u32::MAX
    &&& u.method == LoadBalanceType::LeastConn ==> counts.len() == u.server@.len()
}

/// The target of a proxied request: `proxy_pass` when the route has one;
/// else, for a route naming an upstream, the server that upstream picks
/// (an internal error where no upstream has that name, a bad request where
/// IP hashing finds no client address); else the custom page.
pub open spec fn spec_proxy_target(
    proxy_pass: Option<Seq<char>>,
    upstream_name: Option<Seq<char>>,
    ups: Seq<Upstream>,
    path_query: Seq<char>,
    counter: usize,
    counts: Seq<usize>,
    ip: Option<Seq<char>>,
) -> ProxyTargetView {
    match proxy_pass {
        Some(p) => ProxyTargetView::Pass(p + path_query),
        None => match upstream_name {
            None => ProxyTargetView::CustomPage,
            Some(n) => match find_upstream(ups, n, 0) {
                None => ProxyTargetView::InternalError,
                Some(k) => match spec_pick_server(ups[k], counter, counts, ip) {
                    None => ProxyTargetView::BadRequest,
                    Some(i) => ProxyTargetView::Upstream(
                        spec_upstream_uri(ups[k].server@[i].server@, path_query),
                        i,
                    ),
                },
            },
        },
    }
}

proof fn lemma_weighted_pick_in_range(w: Seq<u32>, pos: int, i: int)
    requires
        0 <= i,
        w.len() > 0,
    ensures
        0 <= weighted_pick(w, pos, i) < w.len(),
    decreases w.len() - i,
{
    if i < w.len() && pos >= w[i] {
        lemma_weighted_pick_in_range(w, pos - w[i], i + 1);
    }
}

fn upstream_weights(servers: &Vec<UpstreamServer>) -> (r: Vec<u32>)
    ensures
        r@ == server_weights(servers@),
{
    let mut r: Vec<u32> = Vec::new();
    let mut i: usize = 0;
    while i < servers.len()
        invariant
            i <= servers.len(),
            r@ == server_weights(servers@.take(i as int)),
        decreases servers.len() - i,
    {
        r.push(servers[i].weight);
        i = i + 1;
        assert(r@ =~= server_weights(servers@.take(i as int)));
    }
    assert(servers@.take(servers@.len() as int) == servers@);
    r
}

fn position_of_upstream(ups: &[Upstream], name: &str) -> (r: Option<usize>)
    ensures
        match r {
            Some(k) => find_upstream(ups@, name@, 0) == Some(k as int) && k < ups.len(),
            None => find_upstream(ups@, name@, 0) is None,
        },
{
    let nc = chars_of(name);
    let mut k: usize = 0;
    while k < ups.len()
        invariant
            k <= ups.len(),
            nc@ == name@,
            find_upstream(ups@, name@, 0) == find_upstream(ups@, name@, k as int),
        decreases ups.len() - k,
    {
        let kc = chars_of(ups[k].name.as_str());
        if chars_equal(&kc, &nc) {
            return Some(k);
        }
        k = k + 1;
    }
    None
}

/// The server an upstream picks for this request (see `spec_pick_server`),
/// the client address taken from the forwarding headers.
pub fn pick_server(
    u: &Upstream,
    counter: usize,
    counts: &[usize],
    forwarded_for: Option<&str>,
    real_ip: Option<&str>,
) -> (r: Option<usize>)
    requires
        upstream_usable(*u, counts@),
    ensures
        match r {
            Some(i) => spec_pick_server(*u, counter, counts@, spec_client_ip(
                opt_str(forwarded_for),
                opt_str(real_ip),
            )) == Some(i as int) && i < u.server@.len(),
            None => spec_pick_server(*u, counter, counts@, spec_client_ip(
                opt_str(forwarded_for),
                opt_str(real_ip),
            )) is None,
        },
{
    let n = u.server.len();
    match u.method {
        LoadBalanceType::RoundRobin => Some(select_round_robin(counter, n)),
        LoadBalanceType::WeightedRoundRobin => {
            let w = upstream_weights(&u.server);
            let i = select_weighted_round_robin(counter, w.as_slice());
            proof {
                lemma_weighted_pick_in_range(w@, counter as int % weight_sum(w@) as int, 0);
            }
            Some(i)
        },
        LoadBalanceType::IpHash => match client_ip(forwarded_for, real_ip) {
            Some(ip) => Some(select_ip_hash(ip.as_str(), n)),
            None => None,
        },
        LoadBalanceType::LeastConn => {
            let w = upstream_weights(&u.server);
            Some(select_least_conn(counts, w.as_slice()))
        },
    }
}

/// The target of a proxied request (see `spec_proxy_target`): `counter` is
/// the value the upstream's request counter had before this request,
/// `counts` its servers' open connections, the last two the forwarding
/// headers of the request.
pub fn proxy_target(
    proxy_pass: Option<&str>,
    upstream_name: Option<&str>,
    upstreams: &[Upstream],
    path_query: &str,
    counter: usize,
    counts: &[usize],
    forwarded_for: Option<&str>,
    real_ip: Option<&str>,
) -> (r: ProxyTarget)
    requires
        proxy_pass is None ==> match upstream_name {
            Some(n) => match find_upstream(upstreams@, n@, 0) {
                Some(k) => upstream_usable(upstreams@[k], counts@),
                None => true,
            },
            None => true,
        },
    ensures
        target_view(r) == spec_proxy_target(
            opt_str(proxy_pass),
            opt_str(upstream_name),
            upstreams@,
            path_query@,
            counter,
            counts@,
            spec_client_ip(opt_str(forwarded_for), opt_str(real_ip)),
        ),
{
    match proxy_pass {
        Some(p) => {
            let mut out = chars_of(p);
            append_str(&mut out, path_query);
            ProxyTarget::Pass(string_from_chars(&out))
        },
        None => match upstream_name {
            None => ProxyTarget::CustomPage,
            Some(name) => match position_of_upstream(upstreams, name) {
                None => ProxyTarget::InternalError,
                Some(k) => {
                    let u = &upstreams[k];
                    match pick_server(u, counter, counts, forwarded_for, real_ip) {
                        None => ProxyTarget::BadRequest,
                        Some(i) => ProxyTarget::Upstream(
                            upstream_uri(u.server[i].server.as_str(), path_query),
                            i,
                        ),
                    }
                },
            },
        },
    }
}

} // verus!
