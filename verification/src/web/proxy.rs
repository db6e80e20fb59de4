//! What the proxies decide about headers and upstream choice.

use vstd::prelude::*;
use vstd::utf8::encode_utf8;
use crate::text::{chars_of, chars_equal};
use crate::web::header_map::{header_groups, flatten_groups, group_index, spec_header_append, header_map_items, header_map_try_append, item_pairs};
use crate::unicode::ascii_lowercase;
use http::HeaderMap;

verus! {

broadcast use vstd::string::group_string_axioms;

/// The hop-by-hop headers a proxy does not pass on (names in lowercase, as
/// header maps hold them).
pub open spec fn spec_is_exclude_header(name: Seq<char>) -> bool {
    ||| name == "host"@
    ||| name == "connection"@
    ||| name == "proxy-authenticate"@
    ||| name == "upgrade"@
    ||| name == "proxy-authorization"@
    ||| name == "keep-alive"@
    ||| name == "transfer-encoding"@
    ||| name == "te"@
}

fn str_eq(a: &str, b: &str) -> (r: bool)
    ensures
        r == (a@ == b@),
{
    let x = chars_of(a);
    let y = chars_of(b);
    chars_equal(&x, &y)
}

/// Whether a header is hop-by-hop and stays behind.
pub fn is_exclude_header(name: &str) -> (r: bool)
    ensures
        r == spec_is_exclude_header(name@),
{
    str_eq(name, "host") || str_eq(name, "connection") || str_eq(name, "proxy-authenticate")
        || str_eq(name, "upgrade") || str_eq(name, "proxy-authorization") || str_eq(
        name,
        "keep-alive",
    ) || str_eq(name, "transfer-encoding") || str_eq(name, "te")
}

/// The groups of `g` after every pair of `items` that is not hop-by-hop
/// has been appended, in order.
pub open spec fn copy_into(
    g: Seq<(Seq<char>, Seq<Seq<u8>>)>,
    items: Seq<(Seq<char>, Seq<u8>)>,
) -> Seq<(Seq<char>, Seq<Seq<u8>>)>
    decreases items.len(),
{
    if items.len() == 0 {
        g
    } else {
        let prev = copy_into(g, items.drop_last());
        if spec_is_exclude_header(items.last().0) {
            prev
        } else {
            spec_header_append(prev, items.last().0, items.last().1)
        }
    }
}

/// Appends to `to` every header of `from` that is not hop-by-hop, in the
/// order a walk over `from` yields them. It answers whether every one of
/// them was taken; when one was refused (a full map, or a name that does
/// not convert back) it stops there, and `to` holds the ones before it.
pub fn copy_headers(from: &HeaderMap, to: &mut HeaderMap) -> (r: bool)
    ensures
        r ==> header_groups(*final(to)) == copy_into(
            header_groups(*old(to)),
            flatten_groups(header_groups(*from)),
        ),
        !r ==> exists|k: int|
            0 <= k < flatten_groups(header_groups(*from)).len() && header_groups(*final(to))
                == copy_into(header_groups(*old(to)), #[trigger] flatten_groups(header_groups(*from)).take(k)),
{
    let ghost start = header_groups(*to);
    let ghost hs = flatten_groups(header_groups(*from));
    let items = header_map_items(from);
    let mut i: usize = 0;
    assert(hs.take(0) =~= Seq::<(Seq<char>, Seq<u8>)>::empty());
    while i < items.len()
        invariant
            i <= items.len(),
            hs == flatten_groups(header_groups(*from)),
            start == header_groups(*old(to)),
            item_pairs(items@) == hs,
            forall|j: int| 0 <= j < items@.len() ==> ascii_lowercase(#[trigger] items@[j].0@) == items@[j].0@,
            header_groups(*to) == copy_into(start, hs.take(i as int)),
        decreases items.len() - i,
    {
        assert(hs.take(i + 1).drop_last() == hs.take(i as int));
        assert(hs.take(i + 1).last() == hs[i as int]);
        assert(hs[i as int] == (items@[i as int].0@, items@[i as int].1@));
        if !is_exclude_header(items[i].0.as_str()) {
            let ok = header_map_try_append(to, items[i].0.as_str(), items[i].1.as_slice());
            if !ok {
                assert(hs.len() == items@.len());
                assert(header_groups(*to) == copy_into(
                    header_groups(*old(to)),
                    flatten_groups(header_groups(*from)).take(i as int),
                ));
                return false;
            }
        }
        i = i + 1;
    }
    assert(hs.take(hs.len() as int) == hs);
    true
}

/// One step of the djb2 string hash: `h * 33 + b`, wrapping.
pub open spec fn djb2_step(h: usize, b: u8) -> usize {
    h.wrapping_shl(5).wrapping_add(h).wrapping_add(b as usize)
}

/// The djb2 hash of the bytes, starting from 5381.
pub open spec fn spec_ip_hash(bytes: Seq<u8>) -> usize
    decreases bytes.len(),
{
    if bytes.len() == 0 {
        5381
    } else {
        djb2_step(spec_ip_hash(bytes.drop_last()), bytes.last())
    }
}

/// The hash of a client address that picks an upstream server.
pub fn ip_hash(ip: &str) -> (r: usize)
    ensures
        r == spec_ip_hash(encode_utf8(ip@)),
{
    let bytes = ip.as_bytes();
    let mut hash: usize = 5381;
    let mut i: usize = 0;
    assert(bytes@.take(0) =~= Seq::<u8>::empty());
    while i < bytes.len()
        invariant
            i <= bytes.len(),
            bytes@ == encode_utf8(ip@),
            hash == spec_ip_hash(bytes@.take(i as int)),
        decreases bytes.len() - i,
    {
        assert(bytes@.take(i + 1).drop_last() == bytes@.take(i as int));
        assert(bytes@.take(i + 1).last() == bytes@[i as int]);
        hash = hash.wrapping_shl(5).wrapping_add(hash).wrapping_add(bytes[i] as usize);
        i = i + 1;
    }
    assert(bytes@.take(bytes@.len() as int) == bytes@);
    hash
}

/// The groups whose names are not hop-by-hop, in order.
pub open spec fn end_to_end_groups(g: Seq<(Seq<char>, Seq<Seq<u8>>)>) -> Seq<(Seq<char>, Seq<Seq<u8>>)>
    decreases g.len(),
{
    if g.len() == 0 {
        g
    } else if spec_is_exclude_header(g.last().0) {
        end_to_end_groups(g.drop_last())
    } else {
        end_to_end_groups(g.drop_last()).push(g.last())
    }
}

/// Groups as a header map holds them: no name twice, no name without a
/// value.
pub open spec fn well_formed_groups(g: Seq<(Seq<char>, Seq<Seq<u8>>)>) -> bool {
    &&& forall|i: int, j: int| 0 <= i < j < g.len() ==> #[trigger] g[i].0 != #[trigger] g[j].0
    &&& forall|i: int| 0 <= i < g.len() ==> (#[trigger] g[i]).1.len() > 0
}

pub open spec fn values_of(name: Seq<char>, vs: Seq<Seq<u8>>) -> Seq<(Seq<char>, Seq<u8>)> {
    vs.map_values(|v: Seq<u8>| (name, v))
}

proof fn lemma_copy_into_concat(
    g: Seq<(Seq<char>, Seq<Seq<u8>>)>,
    a: Seq<(Seq<char>, Seq<u8>)>,
    b: Seq<(Seq<char>, Seq<u8>)>,
)
    ensures
        copy_into(g, a + b) == copy_into(copy_into(g, a), b),
    decreases b.len(),
{
    if b.len() == 0 {
        assert(a + b =~= a);
    } else {
        lemma_copy_into_concat(g, a, b.drop_last());
        assert((a + b).drop_last() =~= a + b.drop_last());
        assert((a + b).last() == b.last());
    }
}

proof fn lemma_group_index_absent(g: Seq<(Seq<char>, Seq<Seq<u8>>)>, n: Seq<char>)
    requires
        forall|i: int| 0 <= i < g.len() ==> (#[trigger] g[i]).0 != n,
    ensures
        group_index(g, n) == -1,
    decreases g.len(),
{
    if g.len() > 0 {
        assert forall|i: int| 0 <= i < g.drop_last().len() implies (#[trigger] g.drop_last()[i]).0 != n by {
            assert(g.drop_last()[i] == g[i]);
        }
        assert(g.last() == g[g.len() - 1]);
        lemma_group_index_absent(g.drop_last(), n);
    }
}

proof fn lemma_copy_excluded_values(g: Seq<(Seq<char>, Seq<Seq<u8>>)>, n: Seq<char>, vs: Seq<Seq<u8>>)
    requires
        spec_is_exclude_header(n),
    ensures
        copy_into(g, values_of(n, vs)) == g,
    decreases vs.len(),
{
    if vs.len() > 0 {
        assert(values_of(n, vs).drop_last() =~= values_of(n, vs.drop_last()));
        lemma_copy_excluded_values(g, n, vs.drop_last());
    } else {
        assert(values_of(n, vs) =~= Seq::<(Seq<char>, Seq<u8>)>::empty());
    }
}

proof fn lemma_copy_new_group(g: Seq<(Seq<char>, Seq<Seq<u8>>)>, n: Seq<char>, vs: Seq<Seq<u8>>)
    requires
        !spec_is_exclude_header(n),
        vs.len() > 0,
        forall|i: int| 0 <= i < g.len() ==> (#[trigger] g[i]).0 != n,
    ensures
        copy_into(g, values_of(n, vs)) == g.push((n, vs)),
    decreases vs.len(),
{
    let items = values_of(n, vs);
    assert(items.drop_last() =~= values_of(n, vs.drop_last()));
    assert(items.last() == (n, vs.last()));
    if vs.len() == 1 {
        assert(values_of(n, vs.drop_last()) =~= Seq::<(Seq<char>, Seq<u8>)>::empty());
        assert(copy_into(g, items.drop_last()) == g);
        lemma_group_index_absent(g, n);
        assert(seq![vs.last()] =~= vs);
        assert(copy_into(g, items) == spec_header_append(g, n, vs.last()));
    } else {
        lemma_copy_new_group(g, n, vs.drop_last());
        let prev = g.push((n, vs.drop_last()));
        assert(prev.last().0 == n);
        assert(group_index(prev, n) == prev.len() - 1);
        assert(prev[prev.len() - 1] == (n, vs.drop_last()));
        assert(copy_into(g, items) == spec_header_append(prev, n, vs.last()));
        assert(vs.drop_last().push(vs.last()) =~= vs);
        assert(prev.update(prev.len() - 1, (n, vs)) =~= g.push((n, vs)));
    }
}

proof fn lemma_end_to_end_names(g: Seq<(Seq<char>, Seq<Seq<u8>>)>, n: Seq<char>)
    requires
        forall|i: int| 0 <= i < g.len() ==> (#[trigger] g[i]).0 != n,
    ensures
        forall|i: int| 0 <= i < end_to_end_groups(g).len() ==> (#[trigger] end_to_end_groups(g)[i]).0 != n,
    decreases g.len(),
{
    if g.len() > 0 {
        assert forall|i: int| 0 <= i < g.drop_last().len() implies (#[trigger] g.drop_last()[i]).0 != n by {
            assert(g.drop_last()[i] == g[i]);
        }
        assert(g.last() == g[g.len() - 1]);
        lemma_end_to_end_names(g.drop_last(), n);
        let e = end_to_end_groups(g.drop_last());
        if !spec_is_exclude_header(g.last().0) {
            assert forall|i: int| 0 <= i < e.push(g.last()).len() implies (#[trigger] e.push(g.last())[i]).0 != n by {
                if i < e.len() {
                    assert(e.push(g.last())[i] == e[i]);
                }
            }
        }
    }
}

/// Copying the headers of a map into an empty map gives exactly the map's
/// groups whose names are not hop-by-hop, in their order and with their
/// values in order: nothing hop-by-hop is passed on, and nothing else is
/// lost.
pub proof fn lemma_copy_headers_end_to_end(g: Seq<(Seq<char>, Seq<Seq<u8>>)>)
    requires
        well_formed_groups(g),
    ensures
        copy_into(Seq::empty(), flatten_groups(g)) == end_to_end_groups(g),
    decreases g.len(),
{
    if g.len() == 0 {
        assert(flatten_groups(g) =~= Seq::<(Seq<char>, Seq<u8>)>::empty());
    } else {
        let rest = g.drop_last();
        let last = g.last();
        assert(last == g[g.len() - 1]);
        assert(well_formed_groups(rest)) by {
            assert forall|i: int, j: int| 0 <= i < j < rest.len() implies #[trigger] rest[i].0 != #[trigger] rest[j].0 by {
                assert(rest[i] == g[i] && rest[j] == g[j]);
            }
            assert forall|i: int| 0 <= i < rest.len() implies (#[trigger] rest[i]).1.len() > 0 by {
                assert(rest[i] == g[i]);
            }
        }
        lemma_copy_headers_end_to_end(rest);
        assert(flatten_groups(g) == flatten_groups(rest) + values_of(last.0, last.1));
        lemma_copy_into_concat(Seq::empty(), flatten_groups(rest), values_of(last.0, last.1));
        if spec_is_exclude_header(last.0) {
            lemma_copy_excluded_values(end_to_end_groups(rest), last.0, last.1);
        } else {
            assert forall|i: int| 0 <= i < rest.len() implies (#[trigger] rest[i]).0 != last.0 by {
                assert(rest[i] == g[i]);
                assert(g[i].0 != g[g.len() - 1].0);
            }
            lemma_end_to_end_names(rest, last.0);
            lemma_copy_new_group(end_to_end_groups(rest), last.0, last.1);
            assert((last.0, last.1) == last);
        }
    }
}

} // verus!
