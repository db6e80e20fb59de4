//! The concurrent map that holds a shared dictionary's entries, and what
//! is known of the calls made on it.

use vstd::prelude::*;
use dashmap::DashMap;
use crate::lua_engine::shared_dict::{EntryView, SharedDictEntry, purge_expired, lists_entries};

verus! {

broadcast use vstd::string::group_string_axioms;

#[verifier::external_type_specification]
#[verifier::external_body]
#[verifier::reject_recursive_types(K)]
#[verifier::reject_recursive_types(V)]
#[verifier::reject_recursive_types(S)]
pub struct ExDashMap<K, V, S>(DashMap<K, V, S>);

/// The entries a map holds, by key.
pub uninterp spec fn stored_entries(m: DashMap<String, SharedDictEntry>) -> Map<Seq<char>, EntryView>;

// A map holds finitely many entries; each call that changes one says so
// of the map it leaves behind.

/// `DashMap::new`: an empty map.
#[verifier::external_body]
pub(crate) fn store_new() -> (m: DashMap<String, SharedDictEntry>)
    ensures
        stored_entries(m).dom() == Set::<Seq<char>>::empty(),
{
    DashMap::new()
}

/// `DashMap::get`, with the entry found copied out (a derived `clone`,
/// which copies every field).
#[verifier::external_body]
pub(crate) fn store_get(m: &DashMap<String, SharedDictEntry>, key: &str) -> (r: Option<SharedDictEntry>)
    ensures
        r is Some <==> stored_entries(*m).contains_key(key@),
        r matches Some(e) ==> e@ == stored_entries(*m)[key@],
{
    match m.get(key) {
        Some(entry) => Some(entry.value().clone()),
        None => None,
    }
}

/// `DashMap::contains_key`.
#[verifier::external_body]
pub(crate) fn store_contains(m: &DashMap<String, SharedDictEntry>, key: &str) -> (r: bool)
    ensures
        r == stored_entries(*m).contains_key(key@),
{
    m.contains_key(key)
}

/// `DashMap::insert`: the key now maps to the entry, every other key is
/// left as it was.
#[verifier::external_body]
pub(crate) fn store_insert(m: &mut DashMap<String, SharedDictEntry>, key: String, entry: SharedDictEntry)
    ensures
        stored_entries(*final(m)) == stored_entries(*old(m)).insert(key@, entry@),
        stored_entries(*final(m)).dom().finite(),
{
    m.insert(key, entry);
}

/// `DashMap::remove`: whether the key was there; it is gone afterwards.
#[verifier::external_body]
pub(crate) fn store_remove(m: &mut DashMap<String, SharedDictEntry>, key: &str) -> (r: bool)
    ensures
        r == stored_entries(*old(m)).contains_key(key@),
        stored_entries(*final(m)) == stored_entries(*old(m)).remove(key@),
        stored_entries(*final(m)).dom().finite(),
{
    m.remove(key).is_some()
}

/// `DashMap::clear`.
#[verifier::external_body]
pub(crate) fn store_clear(m: &mut DashMap<String, SharedDictEntry>)
    ensures
        stored_entries(*final(m)).dom() == Set::<Seq<char>>::empty(),
{
    m.clear();
}

/// `DashMap::retain`, keeping the entries that are live at `now`.
#[verifier::external_body]
pub(crate) fn store_retain_live(m: &mut DashMap<String, SharedDictEntry>, now: u64)
    ensures
        stored_entries(*final(m)) == purge_expired(stored_entries(*old(m)), now),
        stored_entries(*final(m)).dom().finite(),
{
    m.retain(|_, entry| entry.is_live_at(now));
}

/// `DashMap::len`: the number of entries.
#[verifier::external_body]
pub(crate) fn store_len(m: &DashMap<String, SharedDictEntry>) -> (r: usize)
    ensures
        r == stored_entries(*m).len(),
{
    m.len()
}

/// Every entry, copied out by `DashMap::iter`: each key once, in an order
/// the map does not promise.
#[verifier::external_body]
pub(crate) fn store_entries(m: &DashMap<String, SharedDictEntry>) -> (r: Vec<(String, SharedDictEntry)>)
    ensures
        lists_entries(stored_entries(*m), r@),
{
    let mut out = Vec::new();
    for entry in m.iter() {
        out.push((entry.key().clone(), entry.value().clone()));
    }
    out
}

} // verus!
