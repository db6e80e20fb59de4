//! How much room a shared dictionary's entries are counted as taking.

use vstd::prelude::*;
use vstd::set::fold::{is_fun_commutative, lemma_fold_insert, lemma_fold_empty};
use vstd::utf8::encode_utf8;
use crate::lua_engine::shared_dict::EntryView;

verus! {

/// The room one entry is counted as taking: the UTF-8 bytes of its key and
/// of its value, and 32 more.
pub open spec fn entry_size(key: Seq<char>, e: EntryView) -> int {
    (encode_utf8(key).len() + e.value.len() + 32) as int
}

pub open spec fn size_adder(m: Map<Seq<char>, EntryView>) -> spec_fn(int, Seq<char>) -> int {
    |acc: int, k: Seq<char>| acc + entry_size(k, m[k])
}

/// The room the entries of `m` under `keys` take.
pub open spec fn size_of_keys(m: Map<Seq<char>, EntryView>, keys: Set<Seq<char>>) -> int {
    keys.fold(0int, size_adder(m))
}

/// The room all entries of `m` take.
pub open spec fn total_size(m: Map<Seq<char>, EntryView>) -> int {
    size_of_keys(m, m.dom())
}

/// The room in use as a `usize` counts it: the total, or the largest
/// `usize` when the total is larger (which no dictionary that fits in
/// memory reaches).
pub open spec fn used_size(m: Map<Seq<char>, EntryView>) -> int {
    if total_size(m) > usize::MAX {
        usize::MAX as int
    } else {
        total_size(m)
    }
}

/// Whether `additional` more bytes fit beside the entries of `m` within
/// `capacity`.
pub open spec fn has_room(m: Map<Seq<char>, EntryView>, capacity: usize, additional: int) -> bool {
    used_size(m) + additional <= capacity
}

/// No keys take no room.
pub proof fn lemma_size_empty(m: Map<Seq<char>, EntryView>)
    ensures
        size_of_keys(m, Set::empty()) == 0,
{
    lemma_fold_empty(0int, size_adder(m));
}

/// One more key adds its entry's room.
pub proof fn lemma_size_insert(m: Map<Seq<char>, EntryView>, s: Set<Seq<char>>, k: Seq<char>)
    requires
        s.finite(),
        !s.contains(k),
    ensures
        size_of_keys(m, s.insert(k)) == size_of_keys(m, s) + entry_size(k, m[k]),
{
    let f = size_adder(m);
    assert(is_fun_commutative(f)) by {
        assert forall|a1: Seq<char>, a2: Seq<char>, b: int| #[trigger] f(f(b, a2), a1) == f(f(b, a1), a2) by {}
    }
    lemma_fold_insert(s, 0int, f, k);
}

/// Two maps that agree on `s` count the same room for it.
pub proof fn lemma_size_agree(m1: Map<Seq<char>, EntryView>, m2: Map<Seq<char>, EntryView>, s: Set<Seq<char>>)
    requires
        s.finite(),
        forall|k: Seq<char>| #[trigger] s.contains(k) ==> m1[k] == m2[k],
    ensures
        size_of_keys(m1, s) == size_of_keys(m2, s),
    decreases s.len(),
{
    if s.len() == 0 {
        assert(s =~= Set::empty());
        lemma_size_empty(m1);
        lemma_size_empty(m2);
    } else {
        let k = s.choose();
        let t = s.remove(k);
        lemma_size_agree(m1, m2, t);
        lemma_size_insert(m1, t, k);
        lemma_size_insert(m2, t, k);
        assert(t.insert(k) =~= s);
    }
}

/// Room is never negative.
pub proof fn lemma_size_nonneg(m: Map<Seq<char>, EntryView>, s: Set<Seq<char>>)
    requires
        s.finite(),
    ensures
        size_of_keys(m, s) >= 0,
    decreases s.len(),
{
    if s.len() == 0 {
        assert(s =~= Set::empty());
        lemma_size_empty(m);
    } else {
        let k = s.choose();
        let t = s.remove(k);
        lemma_size_nonneg(m, t);
        lemma_size_insert(m, t, k);
        assert(t.insert(k) =~= s);
    }
}

/// Storing `e` under `k` counts the room of the map without `k`, plus that
/// of `e`.
pub proof fn lemma_total_insert(m: Map<Seq<char>, EntryView>, k: Seq<char>, e: EntryView)
    requires
        m.dom().finite(),
    ensures
        total_size(m.insert(k, e)) == total_size(m.remove(k)) + entry_size(k, e),
{
    let mi = m.insert(k, e);
    let mr = m.remove(k);
    assert(mi.dom() =~= mr.dom().insert(k));
    lemma_size_insert(mi, mr.dom(), k);
    lemma_size_agree(mi, mr, mr.dom());
}

/// Removing a present key takes its entry's room off the total.
pub proof fn lemma_total_remove(m: Map<Seq<char>, EntryView>, k: Seq<char>)
    requires
        m.dom().finite(),
        m.contains_key(k),
    ensures
        total_size(m) == total_size(m.remove(k)) + entry_size(k, m[k]),
{
    assert(m.insert(k, m[k]) =~= m);
    assert(m.insert(k, m[k]).remove(k) =~= m.remove(k));
    lemma_total_insert(m, k, m[k]);
}

} // verus!
