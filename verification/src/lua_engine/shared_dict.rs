//! Entries of the shared dictionaries scripts use, and the sizes
//! dictionaries are configured with.

use vstd::prelude::*;
use crate::text::{
    chars_of, chars_slice, spec_parse_unsigned_chars, parse_unsigned_chars, trim_spec, trim_chars,
    spec_parse_i64, parse_i64_chars, signed_decimal, ascii_bytes, i64_decimal_bytes,
    lemma_parse_signed_decimal, lemma_trim_unchanged,
};
use crate::unicode::{lossy_text, decode_utf8_lossy, ascii_chars, all_ascii_bytes, lemma_ascii_bytes_decode};
use crate::lua_engine::dict_store::{
    stored_entries, store_new, store_get, store_contains, store_insert, store_remove, store_clear,
    store_retain_live, store_len, store_entries,
};
use crate::lua_engine::dict_size::{
    entry_size, size_of_keys, total_size, used_size, has_room, lemma_size_empty, lemma_size_insert,
    lemma_total_insert, lemma_total_remove, lemma_size_nonneg,
};
use dashmap::DashMap;

verus! {

broadcast use vstd::string::group_string_axioms;

/// Nanoseconds since the Unix epoch, from the system clock. Trusted only
/// to return some number: the time is the machine's.
#[verifier::external_body]
fn clock_now_nanos() -> (r: u64) {
    match std::time::SystemTime::now().duration_since(std::time::UNIX_EPOCH) {
        Ok(d) => d.as_nanos() as u64,
        Err(_) => 0,
    }
}

/// A value in a shared dictionary. Times are clock readings in
/// nanoseconds.
#[derive(Clone, Debug)]
pub struct SharedDictEntry {
    /// The stored value.
    pub value: Vec<u8>,
    /// When it expires; never when `None`.
    pub expires_at: Option<u64>,
    /// Flags the script stored with it.
    pub user_flags: u32,
    /// When it was last used.
    pub last_access: u64,
}

/// What an entry holds, as a value.
pub struct EntryView {
    pub value: Seq<u8>,
    pub expires_at: Option<u64>,
    pub user_flags: u32,
    pub last_access: u64,
}

impl EntryView {
    /// Whether the entry has expired at `now`: it has an expiry and `now`
    /// is past it.
    pub open spec fn expired_at(self, now: u64) -> bool {
        self.expires_at matches Some(e) && now > e
    }

    pub open spec fn live_at(self, now: u64) -> bool {
        !self.expired_at(now)
    }
}

impl View for SharedDictEntry {
    type V = EntryView;

    open spec fn view(&self) -> EntryView {
        EntryView {
            value: self.value@,
            expires_at: self.expires_at,
            user_flags: self.user_flags,
            last_access: self.last_access,
        }
    }
}

/// Nanoseconds left at `now` before `expires_at` (none past it), or `None`
/// for no expiry.
pub open spec fn remaining_at(expires_at: Option<u64>, now: u64) -> Option<u64> {
    match expires_at {
        Some(e) => Some(if e >= now { (e - now) as u64 } else { 0u64 }),
        None => None,
    }
}

/// The expiry of an entry stored at `now` for `ttl` nanoseconds: none when
/// no lifetime (or a zero one) is given; otherwise `now + ttl`, or the latest
/// representable time when that would overflow.
pub open spec fn expiry_for(ttl: Option<u64>, now: u64) -> Option<u64> {
    match ttl {
        Some(t) => Some(if now + t > u64::MAX {
            u64::MAX
        } else {
            (now + t) as u64
        }),
        None => None,
    }
}

impl SharedDictEntry {
    /// An entry made at `now`, expiring `ttl` nanoseconds later when given
    /// (the latest representable time when that would overflow).
    pub fn full_at(value: Vec<u8>, ttl: Option<u64>, flags: u32, now: u64) -> (r: Self)
        ensures
            r.value@ == value@,
            r.expires_at == expiry_for(ttl, now),
            r.user_flags == flags,
            r.last_access == now,
    {
        let expires_at = match ttl {
            Some(t) => Some(now.saturating_add(t)),
            None => None,
        };
        SharedDictEntry { value, expires_at, user_flags: flags, last_access: now }
    }

    /// A new entry that never expires, without flags.
    pub fn new(value: Vec<u8>) -> (r: Self)
        ensures
            r.value@ == value@,
            r.expires_at is None,
            r.user_flags == 0,
    {
        Self::full_at(value, None, 0, clock_now_nanos())
    }

    /// A new entry that expires `ttl` nanoseconds from now.
    pub fn with_ttl(value: Vec<u8>, ttl: u64) -> (r: Self)
        ensures
            r.value@ == value@,
            r.expires_at matches Some(e) && e >= r.last_access && (r.last_access + ttl <= u64::MAX
                ==> e == r.last_access + ttl),
            r.user_flags == 0,
    {
        Self::full_at(value, Some(ttl), 0, clock_now_nanos())
    }

    /// A new entry with flags that never expires.
    pub fn with_flags(value: Vec<u8>, flags: u32) -> (r: Self)
        ensures
            r.value@ == value@,
            r.expires_at is None,
            r.user_flags == flags,
    {
        Self::full_at(value, None, flags, clock_now_nanos())
    }

    /// A new entry with an optional lifetime and flags.
    pub fn full(value: Vec<u8>, ttl: Option<u64>, flags: u32) -> (r: Self)
        ensures
            r.value@ == value@,
            ttl is None <==> r.expires_at is None,
            r.expires_at matches Some(e) ==> e >= r.last_access && (r.last_access + ttl->0
                <= u64::MAX ==> e == r.last_access + ttl->0),
            r.user_flags == flags,
    {
        Self::full_at(value, ttl, flags, clock_now_nanos())
    }

    /// Whether the entry has expired at `now`: it has an expiry and `now`
    /// is past it.
    pub fn is_expired_at(&self, now: u64) -> (r: bool)
        ensures
            r == (self.expires_at matches Some(e) && now > e),
    {
        match self.expires_at {
            Some(e) => now > e,
            None => false,
        }
    }

    /// Whether the entry is still live at `now`.
    pub fn is_live_at(&self, now: u64) -> (r: bool)
        ensures
            r == self@.live_at(now),
    {
        !self.is_expired_at(now)
    }

    /// Nanoseconds left at `now` before the entry expires (none past its
    /// expiry), or `None` for an entry that never expires.
    pub fn remaining_ttl_at(&self, now: u64) -> (r: Option<u64>)
        ensures
            r == remaining_at(self.expires_at, now),
    {
        match self.expires_at {
            Some(e) => Some(e.saturating_sub(now)),
            None => None,
        }
    }

    /// Nanoseconds left before the entry expires, or `None` for an entry
    /// that never expires.
    pub fn remaining_ttl(&self) -> (r: Option<u64>)
        ensures
            exists|now: u64| r == #[trigger] remaining_at(self.expires_at, now),
    {
        let now = clock_now_nanos();
        let r = self.remaining_ttl_at(now);
        assert(r == remaining_at(self.expires_at, now));
        r
    }

    /// Whether the entry has expired now. An entry without expiry never
    /// has.
    pub fn is_expired(&self) -> (r: bool)
        ensures
            exists|now: u64| r == #[trigger] self@.expired_at(now),
            self.expires_at is None ==> !r,
    {
        let now = clock_now_nanos();
        let r = self.is_expired_at(now);
        assert(r == self@.expired_at(now));
        r
    }

    /// Whether the entry is stale now, which is the same as expired.
    pub fn is_stale(&self) -> (r: bool)
        ensures
            exists|now: u64| r == #[trigger] self@.expired_at(now),
            self.expires_at is None ==> !r,
    {
        let now = clock_now_nanos();
        let r = self.is_expired_at(now);
        assert(r == self@.expired_at(now));
        r
    }

    /// Marks the entry used at `now`.
    pub fn touch_at(&mut self, now: u64)
        ensures
            final(self).last_access == now,
            final(self).value@ == old(self).value@,
            final(self).expires_at == old(self).expires_at,
            final(self).user_flags == old(self).user_flags,
    {
        self.last_access = now;
    }

    /// Marks the entry used now.
    pub fn touch(&mut self)
        ensures
            final(self).value@ == old(self).value@,
            final(self).expires_at == old(self).expires_at,
            final(self).user_flags == old(self).user_flags,
    {
        self.touch_at(clock_now_nanos());
    }
}

/// Why a dictionary operation failed.
#[derive(Clone, Debug, PartialEq, Eq, Structural)]
pub enum SharedDictError {
    /// No room left.
    NoMemory,
    /// The value is not a number.
    NotANumber,
    /// The key is absent.
    NotFound,
    /// The key is present.
    Exists,
}

impl SharedDictError {
    /// The message of the error.
    pub fn to_string(&self) -> (r: String)
        ensures
            r@ == match self {
                SharedDictError::NoMemory => "no memory"@,
                SharedDictError::NotANumber => "not a number"@,
                SharedDictError::NotFound => "not found"@,
                SharedDictError::Exists => "exists"@,
            },
    {
        match self {
            SharedDictError::NoMemory => "no memory".to_owned(),
            SharedDictError::NotANumber => "not a number".to_owned(),
            SharedDictError::NotFound => "not found".to_owned(),
            SharedDictError::Exists => "exists".to_owned(),
        }
    }
}

/// The outcome of storing a value.
#[derive(Clone, Debug)]
pub struct SetResult {
    /// Whether it was stored.
    pub success: bool,
    /// Why not, if it was not.
    pub err: Option<String>,
    /// Whether other entries were evicted to make room.
    pub forcible: bool,
}

/// A dictionary as configured: a name and a size such as `10k`, `10m`,
/// `1g` or a plain byte count.
#[derive(Clone, Debug)]
pub struct LuaSharedDict {
    pub name: String,
    pub size: String,
}

/// Why a dictionary size does not read.
#[derive(Clone, Debug, PartialEq, Eq, Structural)]
pub enum SizeError {
    /// Not a number with an optional unit.
    Invalid,
    /// Larger than memory can address.
    TooLarge,
}

/// The multiplier a unit letter stands for, in either case.
pub open spec fn unit_factor(c: char) -> Option<nat> {
    if c == 'k' || c == 'K' {
        Some(1024)
    } else if c == 'm' || c == 'M' {
        Some(1048576)
    } else if c == 'g' || c == 'G' {
        Some(1073741824)
    } else {
        None
    }
}

/// A size in bytes: a number, optionally followed by a unit letter.
pub open spec fn spec_parse_size(s: Seq<char>) -> Result<nat, SizeError> {
    let (digits, factor) = if s.len() > 0 && unit_factor(s.last()) is Some {
        (s.drop_last(), unit_factor(s.last())->0)
    } else {
        (s, 1nat)
    };
    match spec_parse_unsigned_chars(digits, usize::MAX as nat) {
        None => Err(SizeError::Invalid),
        Some(n) => if n * factor > usize::MAX {
            Err(SizeError::TooLarge)
        } else {
            Ok(n * factor)
        },
    }
}

impl LuaSharedDict {
    /// The configured size in bytes.
    pub fn parse_size(&self) -> (r: Result<usize, SizeError>)
        ensures
            match r {
                Ok(n) => spec_parse_size(self.size@) == Ok::<nat, SizeError>(n as nat),
                Err(e) => spec_parse_size(self.size@) == Err::<nat, SizeError>(e),
            },
    {
        let cs = chars_of(self.size.as_str());
        let n = cs.len();
        let (digits, factor): (Vec<char>, u64) = if n > 0 && (cs[n - 1] == 'k' || cs[n - 1] == 'K') {
            (chars_slice(&cs, 0, n - 1), 1024)
        } else if n > 0 && (cs[n - 1] == 'm' || cs[n - 1] == 'M') {
            (chars_slice(&cs, 0, n - 1), 1048576)
        } else if n > 0 && (cs[n - 1] == 'g' || cs[n - 1] == 'G') {
            (chars_slice(&cs, 0, n - 1), 1073741824)
        } else {
            (chars_slice(&cs, 0, n), 1)
        };
        proof {
            if n > 0 {
                assert(cs@.subrange(0, n - 1) == cs@.drop_last());
            }
            assert(cs@.subrange(0, n as int) == cs@);
        }
        match parse_unsigned_chars(&digits, usize::MAX as u64) {
            None => Err(SizeError::Invalid),
            Some(v) => {
                if v > (usize::MAX as u64) / factor {
                    proof {
                        assert(v * factor > usize::MAX) by (nonlinear_arith)
                            requires
                                v > (usize::MAX as u64) / factor,
                                factor > 0,
                        ;
                    }
                    Err(SizeError::TooLarge)
                } else {
                    proof {
                        assert(v * factor <= usize::MAX) by (nonlinear_arith)
                            requires
                                v <= (usize::MAX as u64) / factor,
                                factor > 0,
                        ;
                    }
                    Ok((v * factor) as usize)
                }
            },
        }
    }
}


// ---------------------------------------------------------------------------
// The dictionary.

/// `m` without its entries that have expired at `now`.
pub open spec fn purge_expired(m: Map<Seq<char>, EntryView>, now: u64) -> Map<Seq<char>, EntryView> {
    m.restrict(live_keys(m, now))
}

/// The keys of `m` whose entries are live at `now`.
pub open spec fn live_keys(m: Map<Seq<char>, EntryView>, now: u64) -> Set<Seq<char>> {
    m.dom().filter(|k: Seq<char>| m[k].live_at(now))
}

/// Whether `m` holds a live entry under `k` at `now`.
pub open spec fn key_live_at(m: Map<Seq<char>, EntryView>, k: Seq<char>, now: u64) -> bool {
    m.contains_key(k) && m[k].live_at(now)
}

/// `r` lists the entries of `m`: each key of `m` once, with its entry.
pub open spec fn lists_entries(m: Map<Seq<char>, EntryView>, r: Seq<(String, SharedDictEntry)>) -> bool {
    &&& forall|i: int| 0 <= i < r.len() ==> m.contains_key(#[trigger] r[i].0@) && m[r[i].0@] == r[i].1@
    &&& forall|i: int, j: int| 0 <= i < j < r.len() ==> r[i].0@ != r[j].0@
    &&& forall|k: Seq<char>| #[trigger] m.contains_key(k) ==> exists|i: int| 0 <= i < r.len() && r[i].0@ == k
}

/// A lifetime of zero counts as none.
pub open spec fn positive_ttl(ttl: Option<u64>) -> Option<u64> {
    match ttl {
        Some(t) => if t > 0 {
            Some(t)
        } else {
            None
        },
        None => None,
    }
}

/// The entry that storing `value` at `now` makes.
pub open spec fn new_entry(value: Seq<u8>, ttl: Option<u64>, flags: u32, now: u64) -> EntryView {
    EntryView { value, expires_at: expiry_for(positive_ttl(ttl), now), user_flags: flags, last_access: now }
}

/// `m` without the keys listed in `p`.
pub open spec fn without(m: Map<Seq<char>, EntryView>, p: Seq<Seq<char>>) -> Map<Seq<char>, EntryView> {
    Map::new(|k: Seq<char>| m.contains_key(k) && !p.contains(k), |k: Seq<char>| m[k])
}

/// The room the entries of `m` under the keys `p` take, in order.
pub open spec fn freed_by(m: Map<Seq<char>, EntryView>, p: Seq<Seq<char>>) -> int
    decreases p.len(),
{
    if p.len() == 0 {
        0
    } else {
        freed_by(m, p.drop_last()) + entry_size(p.last(), m[p.last()])
    }
}

/// The most entries one eviction removes.
pub const MAX_EVICTIONS: usize = 30;

/// `p` is what evicting for `required` bytes removes from `m`: least
/// recently used first (none left behind used less recently than one
/// removed), one at a time while less than `required` has been freed, at
/// most `MAX_EVICTIONS` of them, until enough is freed or none is left.
pub open spec fn lru_evicted(m: Map<Seq<char>, EntryView>, p: Seq<Seq<char>>, required: int) -> bool {
    &&& p.no_duplicates()
    &&& forall|i: int| 0 <= i < p.len() ==> m.contains_key(#[trigger] p[i])
    &&& forall|i: int, j: int|
        0 <= i < j < p.len() ==> m[#[trigger] p[i]].last_access <= m[#[trigger] p[j]].last_access
    &&& forall|i: int, k: Seq<char>|
        0 <= i < p.len() && #[trigger] m.contains_key(k) && !p.contains(k) ==> m[#[trigger] p[i]].last_access
            <= m[k].last_access
    &&& p.len() <= MAX_EVICTIONS
    &&& forall|j: int| 0 <= j < p.len() ==> freed_by(m, #[trigger] p.take(j)) < required
    &&& (p.len() == MAX_EVICTIONS || freed_by(m, p) >= required || forall|k: Seq<char>|
        #[trigger] m.contains_key(k) ==> p.contains(k))
}

/// What storing the entry `e` under `key` in `m` leaves, and whether it
/// succeeds and whether it evicts: when the entry does not fit, the expired
/// entries go first, then, if it still does not fit, the least recently
/// used ones; if it fits then, it is stored.
pub open spec fn set_outcome(
    m: Map<Seq<char>, EntryView>,
    capacity: usize,
    key: Seq<char>,
    e: EntryView,
    now: u64,
    result: Map<Seq<char>, EntryView>,
    success: bool,
    forcible: bool,
) -> bool {
    let size = entry_size(key, e);
    if has_room(m, capacity, size) {
        result == m.insert(key, e) && success && !forcible
    } else {
        let m1 = purge_expired(m, now);
        if has_room(m1, capacity, size) {
            result == m1.insert(key, e) && success && !forcible
        } else {
            exists|p: Seq<Seq<char>>|
                #![trigger without(m1, p)]
                lru_evicted(m1, p, size) && forcible == (p.len() > 0) && if has_room(
                    without(m1, p),
                    capacity,
                    size,
                ) {
                    result == without(m1, p).insert(key, e) && success
                } else {
                    result == without(m1, p) && !success
                }
        }
    }
}

/// The number an entry holds as a counter: its value read as text,
/// trimmed, as a signed 64-bit decimal.
pub open spec fn counter_value(e: EntryView) -> Option<int> {
    spec_parse_i64(trim_spec(lossy_text(e.value)))
}

/// The entry holding the counter `v`.
pub open spec fn counter_entry(v: int, expires_at: Option<u64>, flags: u32, now: u64) -> EntryView {
    EntryView { value: ascii_bytes(signed_decimal(v)), expires_at, user_flags: flags, last_access: now }
}

/// Adding `delta` at `now` stays within `i64`: for the live counter under
/// `key` when there is one, else for `init` when given.
pub open spec fn incr_fits_at(
    m: Map<Seq<char>, EntryView>,
    key: Seq<char>,
    delta: int,
    init: Option<i64>,
    now: u64,
) -> bool {
    if m.contains_key(key) && m[key].live_at(now) {
        counter_value(m[key]) matches Some(c) ==> i64::MIN <= c + delta <= i64::MAX
    } else {
        init matches Some(i) ==> i64::MIN <= i + delta <= i64::MAX
    }
}

/// What adding `delta` to the counter under `key` at `now` answers and
/// leaves: a live counter is increased in place (keeping its expiry and
/// flags); a live entry that is no number is refused; an absent or expired
/// one is started from `init` with lifetime `ttl` if it is given and fits
/// (counted as its key and 32 bytes).
pub open spec fn incr_outcome(
    m: Map<Seq<char>, EntryView>,
    capacity: usize,
    key: Seq<char>,
    delta: int,
    init: Option<i64>,
    ttl: Option<u64>,
    now: u64,
    result: Map<Seq<char>, EntryView>,
    r: Result<i64, SharedDictError>,
) -> bool {
    if m.contains_key(key) && m[key].live_at(now) {
        match counter_value(m[key]) {
            None => r == Err::<i64, SharedDictError>(SharedDictError::NotANumber) && result == m,
            Some(c) => r == Ok::<i64, SharedDictError>((c + delta) as i64) && result == m.insert(
                key,
                counter_entry(c + delta, m[key].expires_at, m[key].user_flags, now),
            ),
        }
    } else {
        match init {
            None => r == Err::<i64, SharedDictError>(SharedDictError::NotFound) && result == m,
            Some(i) => if has_room(m, capacity, (vstd::utf8::encode_utf8(key).len() + 32) as int) {
                r == Ok::<i64, SharedDictError>((i + delta) as i64) && result == m.insert(
                    key,
                    counter_entry(i + delta, expiry_for(positive_ttl(ttl), now), 0, now),
                )
            } else {
                r == Err::<i64, SharedDictError>(SharedDictError::NoMemory) && result == m
            },
        }
    }
}

/// Whether at most `n` keys are asked for, `n` being above zero, while more
/// are live.
pub open spec fn keys_truncated(max_count: Option<usize>, live: nat) -> bool {
    max_count matches Some(n) && n > 0 && live > n
}

/// A concurrent key-value store shared by scripts, with a capacity in
/// bytes and entries that may expire.
pub struct SharedDict {
    /// The dictionary's name.
    pub name: String,
    /// How many bytes its entries may take.
    pub capacity: usize,
    /// The entries, by key.
    pub data: DashMap<String, SharedDictEntry>,
}

impl View for SharedDict {
    type V = Map<Seq<char>, EntryView>;

    open spec fn view(&self) -> Map<Seq<char>, EntryView> {
        stored_entries(self.data)
    }
}

impl SharedDict {
    /// A dictionary's entries are finitely many.
    pub open spec fn wf(&self) -> bool {
        self@.dom().finite()
    }

    /// An empty dictionary.
    pub fn new(name: String, capacity: usize) -> (r: Self)
        ensures
            r.wf(),
            r@.dom() == Set::<Seq<char>>::empty(),
            r.name@ == name@,
            r.capacity == capacity,
    {
        let data = store_new();
        proof {
            assert(stored_entries(data).dom() =~= Set::<Seq<char>>::empty());
        }
        SharedDict { name, capacity, data }
    }

    /// The bytes the entries are counted as taking: for each, its key's and
    /// its value's length plus 32.
    pub fn used_capacity(&self) -> (r: usize)
        requires
            self.wf(),
        ensures
            r == used_size(self@),
    {
        let entries = store_entries(&self.data);
        let ghost m = self@;
        let mut sum: usize = 0;
        let mut i: usize = 0;
        let ghost mut seen = Set::<Seq<char>>::empty();
        proof {
            lemma_size_empty(m);
        }
        while i < entries.len()
            invariant
                m == self@,
                m.dom().finite(),
                lists_entries(m, entries@),
                0 <= i <= entries.len(),
                seen.finite(),
                seen.subset_of(m.dom()),
                forall|k: Seq<char>| #[trigger]
                    seen.contains(k) ==> exists|j: int| 0 <= j < i && entries@[j].0@ == k,
                forall|j: int| 0 <= j < i ==> seen.contains(#[trigger] entries@[j].0@),
                sum == (if size_of_keys(m, seen) > usize::MAX {
                    usize::MAX as int
                } else {
                    size_of_keys(m, seen)
                }),
            decreases entries.len() - i,
        {
            let key = &entries[i].0;
            let entry = &entries[i].1;
            let kb = key.as_str().as_bytes();
            let size: u128 = kb.len() as u128 + entry.value.len() as u128 + 32;
            let total: u128 = sum as u128 + size;
            proof {
                let k = entries@[i as int].0@;
                assert(m.contains_key(k));
                if seen.contains(k) {
                    let j = choose|j: int| 0 <= j < i && entries@[j].0@ == k;
                    assert(entries@[j].0@ != entries@[i as int].0@);
                }
                lemma_size_insert(m, seen, k);
                assert(size == entry_size(k, m[k]));
                seen = seen.insert(k);
            }
            sum = if total > usize::MAX as u128 {
                usize::MAX
            } else {
                total as usize
            };
            i = i + 1;
        }
        proof {
            assert forall|k: Seq<char>| m.contains_key(k) implies #[trigger] seen.contains(k) by {
                let j = choose|j: int| 0 <= j < entries@.len() && entries@[j].0@ == k;
                assert(seen.contains(entries@[j].0@));
            }
            assert(seen =~= m.dom());
        }
        sum
    }

    fn room_for(&self, additional: u128) -> (r: bool)
        requires
            self.wf(),
            additional <= u64::MAX as u128 * 4,
        ensures
            r == has_room(self@, self.capacity, additional as int),
    {
        let used = self.used_capacity();
        used as u128 + additional <= self.capacity as u128
    }

    /// Whether `additional` more bytes fit within the capacity.
    pub fn has_capacity(&self, additional: usize) -> (r: bool)
        requires
            self.wf(),
        ensures
            r == has_room(self@, self.capacity, additional as int),
    {
        self.room_for(additional as u128)
    }

    /// The value and flags stored under `key`, if it is there and live at
    /// `now`.
    pub fn get_at(&self, key: &str, now: u64) -> (r: Option<(Vec<u8>, u32)>)
        ensures
            r is Some <==> self@.contains_key(key@) && self@[key@].live_at(now),
            r matches Some((v, f)) ==> v@ == self@[key@].value && f == self@[key@].user_flags,
    {
        match store_get(&self.data, key) {
            Some(entry) => {
                if entry.is_expired_at(now) {
                    None
                } else {
                    Some((entry.value, entry.user_flags))
                }
            },
            None => None,
        }
    }

    /// The value and flags stored under `key`, if it is there and live.
    pub fn get(&self, key: &str) -> (r: Option<(Vec<u8>, u32)>)
        ensures
            exists|now: u64| (r is Some <==> #[trigger] key_live_at(self@, key@, now)),
            r is Some ==> self@.contains_key(key@),
            !self@.contains_key(key@) ==> r is None,
            self@.contains_key(key@) && self@[key@].expires_at is None ==> r is Some,
            r matches Some((v, f)) ==> v@ == self@[key@].value && f == self@[key@].user_flags,
    {
        let now = clock_now_nanos();
        let r = self.get_at(key, now);
        assert(r is Some <==> key_live_at(self@, key@, now));
        r
    }

    /// The value and flags stored under `key`, expired or not, and whether
    /// it has expired at `now`.
    pub fn get_stale_at(&self, key: &str, now: u64) -> (r: Option<(Vec<u8>, u32, bool)>)
        ensures
            r is Some <==> self@.contains_key(key@),
            r matches Some((v, f, stale)) ==> v@ == self@[key@].value && f == self@[key@].user_flags
                && stale == self@[key@].expired_at(now),
    {
        match store_get(&self.data, key) {
            Some(entry) => {
                let stale = entry.is_expired_at(now);
                Some((entry.value, entry.user_flags, stale))
            },
            None => None,
        }
    }

    /// The value and flags stored under `key`, expired or not, and whether
    /// it has expired.
    pub fn get_stale(&self, key: &str) -> (r: Option<(Vec<u8>, u32, bool)>)
        ensures
            r is Some <==> self@.contains_key(key@),
            r matches Some((v, f, stale)) ==> v@ == self@[key@].value && f == self@[key@].user_flags
                && (self@[key@].expires_at is None ==> !stale) && exists|now: u64| stale == #[trigger] self@[key@].expired_at(now),
    {
        let now = clock_now_nanos();
        let r = self.get_stale_at(key, now);
        assert(r is Some ==> r->Some_0.2 == self@[key@].expired_at(now));
        r
    }

    /// Removes `key`; whether it was there.
    pub fn delete(&mut self, key: &str) -> (r: bool)
        requires
            old(self).wf(),
        ensures
            final(self).wf(),
            r == old(self)@.contains_key(key@),
            final(self)@ == old(self)@.remove(key@),
            final(self).capacity == old(self).capacity,
            final(self).name@ == old(self).name@,
    {
        store_remove(&mut self.data, key)
    }

    /// Removes every entry.
    pub fn flush_all(&mut self)
        requires
            old(self).wf(),
        ensures
            final(self).wf(),
            final(self)@.dom() == Set::<Seq<char>>::empty(),
            final(self).capacity == old(self).capacity,
            final(self).name@ == old(self).name@,
    {
        store_clear(&mut self.data);
        proof {
            assert(self@.dom() =~= Set::<Seq<char>>::empty());
        }
    }

    /// Removes the entries that have expired at `now`; how many.
    pub fn flush_expired_at(&mut self, now: u64) -> (r: usize)
        requires
            old(self).wf(),
        ensures
            final(self).wf(),
            final(self)@ == purge_expired(old(self)@, now),
            r == old(self)@.len() - final(self)@.len(),
            final(self).capacity == old(self).capacity,
            final(self).name@ == old(self).name@,
    {
        let before = store_len(&self.data);
        let ghost m0 = self@;
        store_retain_live(&mut self.data, now);
        let after = store_len(&self.data);
        proof {
            assert(self@.dom() =~= live_keys(m0, now));
            vstd::set_lib::lemma_len_subset(live_keys(m0, now), m0.dom());
        }
        before - after
    }

    fn key_size(key: &str) -> (r: u128)
        ensures
            r == vstd::utf8::encode_utf8(key@).len(),
            r <= usize::MAX,
    {
        key.as_bytes().len() as u128
    }

    fn store_entry(&mut self, key: &str, entry: SharedDictEntry)
        requires
            old(self).wf(),
        ensures
            final(self).wf(),
            final(self)@ == old(self)@.insert(key@, entry@),
            final(self).capacity == old(self).capacity,
            final(self).name@ == old(self).name@,
    {
        store_insert(&mut self.data, key.to_string(), entry);
    }

    /// Removes least recently used entries, as `lru_evicted` describes,
    /// until `required` bytes are freed; whether any was removed.
    fn evict_lru(&mut self, required: u128) -> (r: bool)
        requires
            old(self).wf(),
            required <= u64::MAX as u128 * 4,
        ensures
            final(self).wf(),
            final(self).capacity == old(self).capacity,
            final(self).name@ == old(self).name@,
            exists|p: Seq<Seq<char>>|
                #![trigger without(old(self)@, p)]
                lru_evicted(old(self)@, p, required as int) && final(self)@ == without(old(self)@, p) && r
                    == (p.len() > 0),
    {
        let entries = store_entries(&self.data);
        let ghost m = self@;
        let n = entries.len();
        let mut removed: Vec<bool> = Vec::new();
        let mut z: usize = 0;
        while z < n
            invariant
                z <= n,
                removed.len() == z,
                forall|i: int| 0 <= i < z ==> !removed@[i],
            decreases n - z,
        {
            removed.push(false);
            z = z + 1;
        }
        let mut freed: u128 = 0;
        let mut count: usize = 0;
        let ghost mut p: Seq<Seq<char>> = Seq::empty();
        assert(self@ =~= without(m, p));
        loop
            invariant
                m.dom().finite(),
                lists_entries(m, entries@),
                n == entries.len(),
                removed.len() == n,
                required <= u64::MAX as u128 * 4,
                forall|i: int| 0 <= i < n ==> (#[trigger] removed@[i] <==> p.contains(entries@[i].0@)),
                p.no_duplicates(),
                forall|i: int| 0 <= i < p.len() ==> m.contains_key(#[trigger] p[i]),
                forall|i: int, j: int|
                    0 <= i < j < p.len() ==> m[#[trigger] p[i]].last_access <= m[#[trigger] p[j]].last_access,
                forall|i: int, k: Seq<char>|
                    0 <= i < p.len() && #[trigger] m.contains_key(k) && !p.contains(k) ==> m[#[trigger] p[i]].last_access
                        <= m[k].last_access,
                count == p.len(),
                count <= MAX_EVICTIONS,
                freed == freed_by(m, p),
                forall|j: int| 0 <= j < p.len() ==> freed_by(m, #[trigger] p.take(j)) < required,
                self@ == without(m, p),
                self.wf(),
                self.capacity == old(self).capacity,
                self.name@ == old(self).name@,
            ensures
                lru_evicted(m, p, required as int),
                self@ == without(m, p),
                self.wf(),
                count == p.len(),
                self.capacity == old(self).capacity,
                self.name@ == old(self).name@,
            decreases MAX_EVICTIONS - count,
        {
            if count >= MAX_EVICTIONS || freed >= required {
                break;
            }
            let mut best: Option<usize> = None;
            let mut j: usize = 0;
            while j < n
                invariant
                    j <= n,
                    n == entries.len(),
                    removed.len() == n,
                    best matches Some(b) ==> b < j && !removed@[b as int] && forall|i: int|
                        0 <= i < j && !removed@[i] ==> entries@[b as int].1.last_access
                            <= #[trigger] entries@[i].1.last_access,
                    best is None ==> forall|i: int| 0 <= i < j ==> #[trigger] removed@[i],
                decreases n - j,
            {
                if !removed[j] {
                    match best {
                        None => {
                            best = Some(j);
                        },
                        Some(b) => {
                            if entries[j].1.last_access < entries[b].1.last_access {
                                best = Some(j);
                            }
                        },
                    }
                }
                j = j + 1;
            }
            match best {
                None => {
                    proof {
                        assert forall|k: Seq<char>| #[trigger] m.contains_key(k) implies p.contains(k) by {
                            let i = choose|i: int| 0 <= i < entries@.len() && entries@[i].0@ == k;
                            assert(removed@[i]);
                        }
                    }
                    break;
                },
                Some(b) => {
                    let key = entries[b].0.as_str();
                    let ghost k = entries@[b as int].0@;
                    let size: u128 = Self::key_size(key) + entries[b].1.value.len() as u128 + 32;
                    proof {
                        assert(m.contains_key(k));
                        assert(m[k] == entries@[b as int].1@);
                        assert(!p.contains(k));
                    }
                    store_remove(&mut self.data, key);
                    removed.set(b, true);
                    let ghost p0 = p;
                    proof {
                        p = p.push(k);
                        assert(p.drop_last() =~= p0);
                        assert(p.last() == k);
                        assert(freed_by(m, p) == freed_by(m, p0) + entry_size(k, m[k]));
                        assert forall|x: Seq<char>| #[trigger] p.contains(x) <==> p0.contains(x) || x == k by {
                            if p.contains(x) {
                                let i = choose|i: int| 0 <= i < p.len() && p[i] == x;
                                if i < p0.len() {
                                    assert(p0[i] == x);
                                }
                            }
                            if p0.contains(x) {
                                let i = choose|i: int| 0 <= i < p0.len() && p0[i] == x;
                                assert(p[i] == x);
                            }
                            if x == k {
                                assert(p[p0.len() as int] == x);
                            }
                        }
                        assert(self@ =~= without(m, p));
                        assert forall|i: int| 0 <= i < n implies (#[trigger] removed@[i] <==> p.contains(
                            entries@[i].0@,
                        )) by {
                            if i != b {
                                assert(entries@[i].0@ != k);
                            }
                        }
                        assert forall|i: int, k2: Seq<char>|
                            0 <= i < p.len() && #[trigger] m.contains_key(k2) && !p.contains(k2) implies m[#[trigger] p[i]].last_access
                            <= m[k2].last_access by {
                            let w = choose|w: int| 0 <= w < entries@.len() && entries@[w].0@ == k2;
                            assert(!removed@[w]);
                            if i < p0.len() {
                                assert(p[i] == p0[i]);
                            } else {
                                assert(entries@[w].1.last_access == m[k2].last_access);
                            }
                        }
                        assert forall|i: int, j2: int|
                            0 <= i < j2 < p.len() implies m[#[trigger] p[i]].last_access
                            <= m[#[trigger] p[j2]].last_access by {
                            if j2 == p0.len() {
                                assert(p[i] == p0[i]);
                                assert(m.contains_key(k) && !p0.contains(k));
                            } else {
                                assert(p[i] == p0[i] && p[j2] == p0[j2]);
                            }
                        }
                        assert forall|jj: int| 0 <= jj < p.len() implies freed_by(m, #[trigger] p.take(jj))
                            < required by {
                            if jj < p0.len() {
                                assert(p.take(jj) =~= p0.take(jj));
                            } else {
                                assert(p.take(jj) =~= p0);
                            }
                        }
                        assert(p.no_duplicates());
                    }
                    freed = freed + size;
                    count = count + 1;
                },
            }
        }
        proof {
            if !(p.len() == MAX_EVICTIONS || freed_by(m, p) >= required) {
            }
        }
        count > 0
    }

    /// Stores `value` under `key` at `now` for `ttl` nanoseconds (for ever
    /// when `None` or zero), making room as `set_outcome` describes.
    pub fn set_at(&mut self, key: &str, value: Vec<u8>, ttl: Option<u64>, flags: u32, now: u64) -> (r:
        SetResult)
        requires
            old(self).wf(),
        ensures
            final(self).wf(),
            final(self).capacity == old(self).capacity,
            final(self).name@ == old(self).name@,
            set_outcome(
                old(self)@,
                old(self).capacity,
                key@,
                new_entry(value@, ttl, flags, now),
                now,
                final(self)@,
                r.success,
                r.forcible,
            ),
            r.err is None <==> r.success,
            r.err matches Some(msg) ==> msg@ == "no memory"@,
    {
        let ttl = match ttl {
            Some(t) => if t > 0 {
                Some(t)
            } else {
                None
            },
            None => None,
        };
        let size: u128 = Self::key_size(key) + value.len() as u128 + 32;
        let entry = SharedDictEntry::full_at(value, ttl, flags, now);
        let ghost e = entry@;
        let ghost m0 = self@;
        let mut forcible = false;
        if !self.room_for(size) {
            self.flush_expired_at(now);
            if !self.room_for(size) {
                forcible = self.evict_lru(size);
                if !self.room_for(size) {
                    return SetResult { success: false, err: Some("no memory".to_string()), forcible };
                }
            }
        }
        self.store_entry(key, entry);
        SetResult { success: true, err: None, forcible }
    }

    /// Stores `value` under `key` for `ttl` nanoseconds (for ever when
    /// `None` or zero), making room as `set_outcome` describes.
    pub fn set(&mut self, key: &str, value: Vec<u8>, ttl: Option<u64>, flags: u32) -> (r: SetResult)
        requires
            old(self).wf(),
        ensures
            final(self).wf(),
            final(self).capacity == old(self).capacity,
            final(self).name@ == old(self).name@,
            exists|now: u64|
                set_outcome(
                    old(self)@,
                    old(self).capacity,
                    key@,
                    #[trigger] new_entry(value@, ttl, flags, now),
                    now,
                    final(self)@,
                    r.success,
                    r.forcible,
                ),
            r.err is None <==> r.success,
            r.err matches Some(msg) ==> msg@ == "no memory"@,
    {
        let now = clock_now_nanos();
        let r = self.set_at(key, value, ttl, flags, now);
        assert(set_outcome(
            old(self)@,
            old(self).capacity,
            key@,
            new_entry(value@, ttl, flags, now),
            now,
            self@,
            r.success,
            r.forcible,
        ));
        r
    }

    /// Stores `value` under `key` at `now` only if it fits without removing
    /// anything: `Ok(true)` when it replaced an entry, `Ok(false)` when the
    /// key is new, `NoMemory` (and nothing changed) when it does not fit.
    pub fn safe_set_at(&mut self, key: &str, value: Vec<u8>, ttl: Option<u64>, flags: u32, now: u64) -> (r:
        Result<bool, SharedDictError>)
        requires
            old(self).wf(),
        ensures
            final(self).wf(),
            final(self).capacity == old(self).capacity,
            final(self).name@ == old(self).name@,
            ({
                let e = new_entry(value@, ttl, flags, now);
                if has_room(old(self)@, old(self).capacity, entry_size(key@, e)) {
                    r == Ok::<bool, SharedDictError>(old(self)@.contains_key(key@)) && final(self)@ == old(
                        self,
                    )@.insert(key@, e)
                } else {
                    r == Err::<bool, SharedDictError>(SharedDictError::NoMemory) && final(self)@ == old(
                        self,
                    )@
                }
            }),
    {
        let size: u128 = Self::key_size(key) + value.len() as u128 + 32;
        if !self.room_for(size) {
            return Err(SharedDictError::NoMemory);
        }
        let ttl = match ttl {
            Some(t) => if t > 0 {
                Some(t)
            } else {
                None
            },
            None => None,
        };
        let entry = SharedDictEntry::full_at(value, ttl, flags, now);
        let existed = store_contains(&self.data, key);
        self.store_entry(key, entry);
        Ok(existed)
    }

    /// `safe_set_at` at the present time.
    pub fn safe_set(&mut self, key: &str, value: Vec<u8>, ttl: Option<u64>, flags: u32) -> (r: Result<
        bool,
        SharedDictError,
    >)
        requires
            old(self).wf(),
        ensures
            final(self).wf(),
            final(self).capacity == old(self).capacity,
            final(self).name@ == old(self).name@,
            exists|now: u64|
                {
                    let e = #[trigger] new_entry(value@, ttl, flags, now);
                    if has_room(old(self)@, old(self).capacity, entry_size(key@, e)) {
                        r == Ok::<bool, SharedDictError>(old(self)@.contains_key(key@)) && final(self)@
                            == old(self)@.insert(key@, e)
                    } else {
                        r == Err::<bool, SharedDictError>(SharedDictError::NoMemory) && final(self)@
                            == old(self)@
                    }
                },
    {
        let now = clock_now_nanos();
        let r = self.safe_set_at(key, value, ttl, flags, now);
        let ghost e = new_entry(value@, ttl, flags, now);
        r
    }

    /// Stores `value` under `key` at `now` only if the key is absent
    /// (expired entries count as present): `Ok(false)` and nothing changed
    /// when it is present; otherwise, when the entry does not fit, the
    /// expired entries are removed first, and if it still does not fit the
    /// answer is `NoMemory`; else it is stored and the answer is `Ok(true)`.
    pub fn add_at(&mut self, key: &str, value: Vec<u8>, ttl: Option<u64>, flags: u32, now: u64) -> (r: Result<
        bool,
        SharedDictError,
    >)
        requires
            old(self).wf(),
        ensures
            final(self).wf(),
            final(self).capacity == old(self).capacity,
            final(self).name@ == old(self).name@,
            ({
                let m = old(self)@;
                let e = new_entry(value@, ttl, flags, now);
                let size = entry_size(key@, e);
                let m1 = purge_expired(m, now);
                if m.contains_key(key@) {
                    r == Ok::<bool, SharedDictError>(false) && final(self)@ == m
                } else if has_room(m, old(self).capacity, size) {
                    r == Ok::<bool, SharedDictError>(true) && final(self)@ == m.insert(key@, e)
                } else if has_room(m1, old(self).capacity, size) {
                    r == Ok::<bool, SharedDictError>(true) && final(self)@ == m1.insert(key@, e)
                } else {
                    r == Err::<bool, SharedDictError>(SharedDictError::NoMemory) && final(self)@ == m1
                }
            }),
    {
        if store_contains(&self.data, key) {
            return Ok(false);
        }
        let size: u128 = Self::key_size(key) + value.len() as u128 + 32;
        if !self.room_for(size) {
            self.flush_expired_at(now);
            if !self.room_for(size) {
                return Err(SharedDictError::NoMemory);
            }
        }
        let ttl = match ttl {
            Some(t) => if t > 0 {
                Some(t)
            } else {
                None
            },
            None => None,
        };
        let entry = SharedDictEntry::full_at(value, ttl, flags, now);
        self.store_entry(key, entry);
        Ok(true)
    }

    /// `add_at` at the present time.
    pub fn add(&mut self, key: &str, value: Vec<u8>, ttl: Option<u64>, flags: u32) -> (r: Result<
        bool,
        SharedDictError,
    >)
        requires
            old(self).wf(),
        ensures
            final(self).wf(),
            final(self).capacity == old(self).capacity,
            final(self).name@ == old(self).name@,
            old(self)@.contains_key(key@) ==> r == Ok::<bool, SharedDictError>(false) && final(self)@ == old(
                self,
            )@,
            exists|now: u64|
                {
                    let m = old(self)@;
                    let e = #[trigger] new_entry(value@, ttl, flags, now);
                    let size = entry_size(key@, e);
                    let m1 = purge_expired(m, now);
                    if m.contains_key(key@) {
                        r == Ok::<bool, SharedDictError>(false) && final(self)@ == m
                    } else if has_room(m, old(self).capacity, size) {
                        r == Ok::<bool, SharedDictError>(true) && final(self)@ == m.insert(key@, e)
                    } else if has_room(m1, old(self).capacity, size) {
                        r == Ok::<bool, SharedDictError>(true) && final(self)@ == m1.insert(key@, e)
                    } else {
                        r == Err::<bool, SharedDictError>(SharedDictError::NoMemory) && final(self)@ == m1
                    }
                },
    {
        let now = clock_now_nanos();
        let r = self.add_at(key, value, ttl, flags, now);
        let ghost e = new_entry(value@, ttl, flags, now);
        r
    }

    /// Stores `value` under `key` at `now` only if the key is absent and
    /// the entry fits without removing anything: `Ok(false)` when present,
    /// `NoMemory` when it does not fit, `Ok(true)` when stored.
    pub fn safe_add_at(&mut self, key: &str, value: Vec<u8>, ttl: Option<u64>, flags: u32, now: u64) -> (r:
        Result<bool, SharedDictError>)
        requires
            old(self).wf(),
        ensures
            final(self).wf(),
            final(self).capacity == old(self).capacity,
            final(self).name@ == old(self).name@,
            ({
                let m = old(self)@;
                let e = new_entry(value@, ttl, flags, now);
                if m.contains_key(key@) {
                    r == Ok::<bool, SharedDictError>(false) && final(self)@ == m
                } else if has_room(m, old(self).capacity, entry_size(key@, e)) {
                    r == Ok::<bool, SharedDictError>(true) && final(self)@ == m.insert(key@, e)
                } else {
                    r == Err::<bool, SharedDictError>(SharedDictError::NoMemory) && final(self)@ == m
                }
            }),
    {
        if store_contains(&self.data, key) {
            return Ok(false);
        }
        let size: u128 = Self::key_size(key) + value.len() as u128 + 32;
        if !self.room_for(size) {
            return Err(SharedDictError::NoMemory);
        }
        let ttl = match ttl {
            Some(t) => if t > 0 {
                Some(t)
            } else {
                None
            },
            None => None,
        };
        let entry = SharedDictEntry::full_at(value, ttl, flags, now);
        self.store_entry(key, entry);
        Ok(true)
    }

    /// `safe_add_at` at the present time.
    pub fn safe_add(&mut self, key: &str, value: Vec<u8>, ttl: Option<u64>, flags: u32) -> (r: Result<
        bool,
        SharedDictError,
    >)
        requires
            old(self).wf(),
        ensures
            final(self).wf(),
            final(self).capacity == old(self).capacity,
            final(self).name@ == old(self).name@,
            exists|now: u64|
                {
                    let m = old(self)@;
                    let e = #[trigger] new_entry(value@, ttl, flags, now);
                    if m.contains_key(key@) {
                        r == Ok::<bool, SharedDictError>(false) && final(self)@ == m
                    } else if has_room(m, old(self).capacity, entry_size(key@, e)) {
                        r == Ok::<bool, SharedDictError>(true) && final(self)@ == m.insert(key@, e)
                    } else {
                        r == Err::<bool, SharedDictError>(SharedDictError::NoMemory) && final(self)@ == m
                    }
                },
    {
        let now = clock_now_nanos();
        let r = self.safe_add_at(key, value, ttl, flags, now);
        let ghost e = new_entry(value@, ttl, flags, now);
        r
    }

    /// Stores `value` under `key` at `now` only if the key is present
    /// (expired entries count as present): `Ok(false)` and nothing changed
    /// when absent; otherwise as `set_at`, answering `Ok(true)` when stored
    /// and `NoMemory` when not.
    pub fn replace_at(&mut self, key: &str, value: Vec<u8>, ttl: Option<u64>, flags: u32, now: u64) -> (r:
        Result<bool, SharedDictError>)
        requires
            old(self).wf(),
        ensures
            final(self).wf(),
            final(self).capacity == old(self).capacity,
            final(self).name@ == old(self).name@,
            !old(self)@.contains_key(key@) ==> r == Ok::<bool, SharedDictError>(false) && final(self)@ == old(
                self,
            )@,
            old(self)@.contains_key(key@) ==> exists|success: bool, forcible: bool|
                set_outcome(
                    old(self)@,
                    old(self).capacity,
                    key@,
                    new_entry(value@, ttl, flags, now),
                    now,
                    final(self)@,
                    success,
                    forcible,
                ) && r == (if success {
                    Ok::<bool, SharedDictError>(true)
                } else {
                    Err::<bool, SharedDictError>(SharedDictError::NoMemory)
                }),
    {
        if !store_contains(&self.data, key) {
            return Ok(false);
        }
        let res = self.set_at(key, value, ttl, flags, now);
        if res.success {
            Ok(true)
        } else {
            Err(SharedDictError::NoMemory)
        }
    }

    /// `replace_at` at the present time.
    pub fn replace(&mut self, key: &str, value: Vec<u8>, ttl: Option<u64>, flags: u32) -> (r: Result<
        bool,
        SharedDictError,
    >)
        requires
            old(self).wf(),
        ensures
            final(self).wf(),
            final(self).capacity == old(self).capacity,
            final(self).name@ == old(self).name@,
            !old(self)@.contains_key(key@) ==> r == Ok::<bool, SharedDictError>(false) && final(self)@ == old(
                self,
            )@,
            old(self)@.contains_key(key@) ==> exists|now: u64, success: bool, forcible: bool|
                #[trigger] set_outcome(
                    old(self)@,
                    old(self).capacity,
                    key@,
                    new_entry(value@, ttl, flags, now),
                    now,
                    final(self)@,
                    success,
                    forcible,
                ) && r == (if success {
                    Ok::<bool, SharedDictError>(true)
                } else {
                    Err::<bool, SharedDictError>(SharedDictError::NoMemory)
                }),
    {
        let now = clock_now_nanos();
        let r = self.replace_at(key, value, ttl, flags, now);
        let ghost e = new_entry(value@, ttl, flags, now);
        r
    }

    fn incr_init_at(&mut self, key: &str, init: Option<i64>, delta: i64, ttl: Option<u64>, now: u64) -> (r:
        Result<i64, SharedDictError>)
        requires
            old(self).wf(),
            init matches Some(i) ==> i64::MIN <= i + delta <= i64::MAX,
        ensures
            final(self).wf(),
            final(self).capacity == old(self).capacity,
            final(self).name@ == old(self).name@,
            match init {
                None => r == Err::<i64, SharedDictError>(SharedDictError::NotFound) && final(self)@ == old(
                    self,
                )@,
                Some(i) => if has_room(old(self)@, old(self).capacity, (vstd::utf8::encode_utf8(key@).len() + 32) as int) {
                    r == Ok::<i64, SharedDictError>((i + delta) as i64) && final(self)@ == old(self)@.insert(
                        key@,
                        counter_entry(i + delta, expiry_for(positive_ttl(ttl), now), 0, now),
                    )
                } else {
                    r == Err::<i64, SharedDictError>(SharedDictError::NoMemory) && final(self)@ == old(
                        self,
                    )@
                },
            },
    {
        match init {
            None => Err(SharedDictError::NotFound),
            Some(i) => {
                let size: u128 = Self::key_size(key) + 32;
                if !self.room_for(size) {
                    return Err(SharedDictError::NoMemory);
                }
                let v = i + delta;
                let ttl = match ttl {
                    Some(t) => if t > 0 {
                        Some(t)
                    } else {
                        None
                    },
                    None => None,
                };
                let entry = SharedDictEntry::full_at(i64_decimal_bytes(v), ttl, 0, now);
                self.store_entry(key, entry);
                Ok(v)
            },
        }
    }

    /// Adds `delta` to the counter under `key` at `now`, as `incr_outcome`
    /// describes; the new value.
    pub fn incr_at(&mut self, key: &str, delta: i64, init: Option<i64>, init_ttl: Option<u64>, now: u64) -> (r:
        Result<i64, SharedDictError>)
        requires
            old(self).wf(),
            incr_fits_at(old(self)@, key@, delta as int, init, now),
        ensures
            final(self).wf(),
            final(self).capacity == old(self).capacity,
            final(self).name@ == old(self).name@,
            incr_outcome(
                old(self)@,
                old(self).capacity,
                key@,
                delta as int,
                init,
                init_ttl,
                now,
                final(self)@,
                r,
            ),
    {
        match store_get(&self.data, key) {
            Some(entry) => {
                if entry.is_expired_at(now) {
                    self.incr_init_at(key, init, delta, init_ttl, now)
                } else {
                    let text = decode_utf8_lossy(entry.value.as_slice());
                    let cs = chars_of(text.as_str());
                    let t = trim_chars(&cs);
                    match parse_i64_chars(&t) {
                        None => Err(SharedDictError::NotANumber),
                        Some(c) => {
                            let v = c + delta;
                            let updated = SharedDictEntry {
                                value: i64_decimal_bytes(v),
                                expires_at: entry.expires_at,
                                user_flags: entry.user_flags,
                                last_access: now,
                            };
                            self.store_entry(key, updated);
                            Ok(v)
                        },
                    }
                }
            },
            None => self.incr_init_at(key, init, delta, init_ttl, now),
        }
    }

    /// Adds `delta` to the counter under `key`, as `incr_outcome` describes;
    /// the new value. The sum must stay within `i64` for the stored counter
    /// and for `init`.
    pub fn incr(&mut self, key: &str, delta: i64, init: Option<i64>, init_ttl: Option<u64>) -> (r: Result<
        i64,
        SharedDictError,
    >)
        requires
            old(self).wf(),
            old(self)@.contains_key(key@) && counter_value(old(self)@[key@]) is Some ==> i64::MIN
                <= counter_value(old(self)@[key@])->0 + delta <= i64::MAX,
            init matches Some(i) ==> i64::MIN <= i + delta <= i64::MAX,
        ensures
            final(self).wf(),
            final(self).capacity == old(self).capacity,
            final(self).name@ == old(self).name@,
            exists|now: u64|
                #[trigger] incr_outcome(
                    old(self)@,
                    old(self).capacity,
                    key@,
                    delta as int,
                    init,
                    init_ttl,
                    now,
                    final(self)@,
                    r,
                ),
    {
        let now = clock_now_nanos();
        self.incr_at(key, delta, init, init_ttl, now)
    }

    /// The keys live at `now`, each once.
    fn live_key_list(&self, now: u64) -> (r: Vec<String>)
        requires
            self.wf(),
        ensures
            forall|i: int| 0 <= i < r.len() ==> #[trigger] live_keys(self@, now).contains(r@[i]@),
            forall|i: int, j: int| 0 <= i < j < r.len() ==> r@[i]@ != r@[j]@,
            forall|k: Seq<char>| #[trigger]
                live_keys(self@, now).contains(k) ==> exists|i: int| 0 <= i < r.len() && r@[i]@ == k,
            r.len() == live_keys(self@, now).len(),
    {
        let entries = store_entries(&self.data);
        let ghost m = self@;
        let ghost live = live_keys(m, now);
        let mut out: Vec<String> = Vec::new();
        let ghost mut ls = Set::<Seq<char>>::empty();
        let mut i: usize = 0;
        while i < entries.len()
            invariant
                m == self@,
                m.dom().finite(),
                live == live_keys(m, now),
                lists_entries(m, entries@),
                i <= entries.len(),
                ls.finite(),
                ls.len() == out.len(),
                ls.subset_of(live),
                forall|j: int| 0 <= j < out.len() ==> #[trigger] ls.contains(out@[j]@),
                forall|k: Seq<char>| #[trigger] ls.contains(k) ==> exists|j: int| 0 <= j < out.len() && out@[j]@ == k,
                forall|k: Seq<char>| #[trigger]
                    ls.contains(k) ==> exists|j: int| 0 <= j < i && entries@[j].0@ == k,
                forall|j: int, l: int| 0 <= j < l < out.len() ==> out@[j]@ != out@[l]@,
                forall|j: int|
                    0 <= j < i && (#[trigger] entries@[j].1@).live_at(now) ==> ls.contains(entries@[j].0@),
            decreases entries.len() - i,
        {
            let entry = &entries[i].1;
            if entry.is_live_at(now) {
                let key = entries[i].0.clone();
                proof {
                    let k = entries@[i as int].0@;
                    assert(m.contains_key(k));
                    assert(m[k] == entries@[i as int].1@);
                    if ls.contains(k) {
                        let j = choose|j: int| 0 <= j < i && entries@[j].0@ == k;
                        assert(entries@[j].0@ != entries@[i as int].0@);
                    }
                    assert(live.contains(k));
                }
                let ghost old_out = out@;
                out.push(key);
                proof {
                    let k = entries@[i as int].0@;
                    assert(out@[old_out.len() as int]@ == k);
                    ls = ls.insert(k);
                    assert forall|j: int| 0 <= j < out.len() implies #[trigger] ls.contains(out@[j]@) by {
                        if j < old_out.len() {
                            assert(out@[j] == old_out[j]);
                        }
                    }
                    assert forall|k2: Seq<char>| #[trigger] ls.contains(k2) implies exists|j: int|
                        0 <= j < out.len() && out@[j]@ == k2 by {
                        if k2 != k {
                            let j = choose|j: int| 0 <= j < old_out.len() && old_out[j]@ == k2;
                            assert(out@[j] == old_out[j]);
                        } else {
                            assert(out@[old_out.len() as int]@ == k2);
                        }
                    }
                    assert forall|j: int, l: int| 0 <= j < l < out.len() implies out@[j]@ != out@[l]@ by {
                        if l < old_out.len() {
                            assert(out@[j] == old_out[j] && out@[l] == old_out[l]);
                        } else {
                            assert(out@[j] == old_out[j]);
                            assert(ls.remove(k).contains(old_out[j]@) || old_out[j]@ == k);
                        }
                    }
                }
            }
            i = i + 1;
        }
        proof {
            assert forall|k: Seq<char>| live.contains(k) implies #[trigger] ls.contains(k) by {
                let j = choose|j: int| 0 <= j < entries@.len() && entries@[j].0@ == k;
                assert(entries@[j].1@.live_at(now));
            }
            assert(ls =~= live);
        }
        out
    }

    /// The keys live at `now`, each once, in no promised order; at most
    /// `n` of them when `Some(n)` with `n` above zero is asked for.
    pub fn get_keys_at(&self, max_count: Option<usize>, now: u64) -> (r: Vec<String>)
        requires
            self.wf(),
        ensures
            forall|i: int| 0 <= i < r.len() ==> #[trigger] live_keys(self@, now).contains(r@[i]@),
            forall|i: int, j: int| 0 <= i < j < r.len() ==> r@[i]@ != r@[j]@,
            if keys_truncated(max_count, live_keys(self@, now).len()) {
                r.len() == max_count->0
            } else {
                r.len() == live_keys(self@, now).len() && forall|k: Seq<char>| #[trigger]
                    live_keys(self@, now).contains(k) ==> exists|i: int| 0 <= i < r.len() && r@[i]@ == k
            },
    {
        let keys = self.live_key_list(now);
        match max_count {
            Some(n) => {
                if n > 0 && keys.len() > n {
                    let mut out: Vec<String> = Vec::new();
                    let mut i: usize = 0;
                    while i < n
                        invariant
                            i <= n,
                            n < keys.len(),
                            out.len() == i,
                            forall|j: int| 0 <= j < i ==> out@[j] == keys@[j],
                        decreases n - i,
                    {
                        out.push(keys[i].clone());
                        i = i + 1;
                    }
                    return out;
                }
                keys
            },
            None => keys,
        }
    }

    /// The keys live now, each once, in no promised order; at most `n` of
    /// them when `Some(n)` with `n` above zero is asked for.
    pub fn get_keys(&self, max_count: Option<usize>) -> (r: Vec<String>)
        requires
            self.wf(),
        ensures
            forall|i: int| 0 <= i < r.len() ==> #[trigger] self@.contains_key(r@[i]@),
            forall|i: int, j: int| 0 <= i < j < r.len() ==> r@[i]@ != r@[j]@,
            (max_count matches Some(n) && n > 0) ==> r.len() <= max_count->0,
            exists|now: u64|
                if keys_truncated(max_count, #[trigger] live_keys(self@, now).len()) {
                    r.len() == max_count->0
                } else {
                    r.len() == live_keys(self@, now).len() && forall|k: Seq<char>| #[trigger]
                        live_keys(self@, now).contains(k) ==> exists|i: int| 0 <= i < r.len() && r@[i]@ == k
                },
    {
        let now = clock_now_nanos();
        let r = self.get_keys_at(max_count, now);
        assert forall|i: int| 0 <= i < r.len() implies #[trigger] self@.contains_key(r@[i]@) by {
            assert(live_keys(self@, now).contains(r@[i]@));
        }
        assert(live_keys(self@, now).len() == live_keys(self@, now).len());
        r
    }

    /// How many entries are live at `now`.
    pub fn len_at(&self, now: u64) -> (r: usize)
        requires
            self.wf(),
        ensures
            r == live_keys(self@, now).len(),
    {
        self.live_key_list(now).len()
    }

    /// How many entries are live.
    pub fn len(&self) -> (r: usize)
        requires
            self.wf(),
        ensures
            exists|now: u64| r == #[trigger] live_keys(self@, now).len(),
    {
        let now = clock_now_nanos();
        self.len_at(now)
    }

    /// Whether no entry is live at `now`.
    pub fn is_empty_at(&self, now: u64) -> (r: bool)
        requires
            self.wf(),
        ensures
            r == (live_keys(self@, now).len() == 0),
    {
        self.len_at(now) == 0
    }

    /// Whether no entry is live.
    pub fn is_empty(&self) -> (r: bool)
        requires
            self.wf(),
        ensures
            exists|now: u64| r == (#[trigger] live_keys(self@, now).len() == 0),
    {
        let now = clock_now_nanos();
        self.is_empty_at(now)
    }

    /// Removes the entries that have expired; how many.
    pub fn flush_expired(&mut self) -> (r: usize)
        requires
            old(self).wf(),
        ensures
            final(self).wf(),
            exists|now: u64| final(self)@ == purge_expired(old(self)@, now),
            r == old(self)@.len() - final(self)@.len(),
            final(self).capacity == old(self).capacity,
            final(self).name@ == old(self).name@,
    {
        self.flush_expired_at(clock_now_nanos())
    }
}


// ---------------------------------------------------------------------------
// Laws of the dictionary.

/// After a successful store, the key holds the new entry.
pub proof fn lemma_set_then_get(
    m: Map<Seq<char>, EntryView>,
    capacity: usize,
    key: Seq<char>,
    e: EntryView,
    now: u64,
    result: Map<Seq<char>, EntryView>,
    forcible: bool,
)
    requires
        set_outcome(m, capacity, key, e, now, result, true, forcible),
    ensures
        result.contains_key(key),
        result[key] == e,
{
    let size = entry_size(key, e);
    if !has_room(m, capacity, size) && !has_room(purge_expired(m, now), capacity, size) {
        let m1 = purge_expired(m, now);
        let p = choose|p: Seq<Seq<char>>|
            #![trigger without(m1, p)]
            lru_evicted(m1, p, size) && forcible == (p.len() > 0) && if has_room(without(m1, p), capacity, size) {
                result == without(m1, p).insert(key, e) && true
            } else {
                result == without(m1, p) && !true
            };
    }
}

/// A store only ever removes entries or writes its own key: every other
/// key it leaves holds the entry it held before.
pub proof fn lemma_set_leaves_others(
    m: Map<Seq<char>, EntryView>,
    capacity: usize,
    key: Seq<char>,
    e: EntryView,
    now: u64,
    result: Map<Seq<char>, EntryView>,
    success: bool,
    forcible: bool,
    other: Seq<char>,
)
    requires
        set_outcome(m, capacity, key, e, now, result, success, forcible),
        other != key,
        result.contains_key(other),
    ensures
        m.contains_key(other),
        result[other] == m[other],
{
    let size = entry_size(key, e);
    if !has_room(m, capacity, size) && !has_room(purge_expired(m, now), capacity, size) {
        let m1 = purge_expired(m, now);
        let p = choose|p: Seq<Seq<char>>|
            #![trigger without(m1, p)]
            lru_evicted(m1, p, size) && forcible == (p.len() > 0) && if has_room(without(m1, p), capacity, size) {
                result == without(m1, p).insert(key, e) && success
            } else {
                result == without(m1, p) && !success
            };
    }
}

/// A successful store leaves the entries within the capacity.
pub proof fn lemma_set_within_capacity(
    m: Map<Seq<char>, EntryView>,
    capacity: usize,
    key: Seq<char>,
    e: EntryView,
    now: u64,
    result: Map<Seq<char>, EntryView>,
    forcible: bool,
)
    requires
        m.dom().finite(),
        set_outcome(m, capacity, key, e, now, result, true, forcible),
    ensures
        total_size(result) <= capacity,
{
    let size = entry_size(key, e);
    let m1 = purge_expired(m, now);
    let before = if has_room(m, capacity, size) {
        m
    } else if has_room(m1, capacity, size) {
        m1
    } else {
        let p = choose|p: Seq<Seq<char>>|
            #![trigger without(m1, p)]
            lru_evicted(m1, p, size) && forcible == (p.len() > 0) && if has_room(without(m1, p), capacity, size) {
                result == without(m1, p).insert(key, e) && true
            } else {
                result == without(m1, p) && !true
            };
        without(m1, p)
    };
    assert(has_room(before, capacity, size) && result == before.insert(key, e));
    assert(before.dom().subset_of(m.dom()));
    vstd::set_lib::lemma_len_subset(before.dom(), m.dom());
    lemma_total_insert(before, key, e);
    if before.contains_key(key) {
        lemma_total_remove(before, key);
    } else {
        assert(before.remove(key) =~= before);
    }
    lemma_size_nonneg(before, before.dom());
    vstd::set_lib::lemma_len_subset(before.remove(key).dom(), m.dom());
    lemma_size_nonneg(before.remove(key), before.remove(key).dom());
}

/// A counter reads back as the number it was stored with.
pub proof fn lemma_counter_round_trip(v: int, expires_at: Option<u64>, flags: u32, now: u64)
    requires
        i64::MIN <= v <= i64::MAX,
    ensures
        counter_value(counter_entry(v, expires_at, flags, now)) == Some(v),
{
    let text = signed_decimal(v);
    lemma_parse_signed_decimal(v);
    let b = ascii_bytes(text);
    assert(all_ascii_bytes(b)) by {
        assert forall|i: int| 0 <= i < b.len() implies #[trigger] b[i] < 128 by {
            assert((text[i] as u32) < 128);
        }
    }
    lemma_ascii_bytes_decode(b);
    assert(ascii_chars(b) =~= text) by {
        assert forall|i: int| 0 <= i < text.len() implies ascii_chars(b)[i] == text[i] by {
            let x = text[i] as u32;
            assert(x < 128);
            assert(b[i] == x as u8);
            assert(b[i] as u32 == x);
            assert(ascii_chars(b)[i] == (b[i] as u32) as char);
            vstd::utf8::char_u32_cast(text[i], x);
        }
    }
    lemma_trim_unchanged(text);
}

/// Adding to a counter twice adds both amounts: the second addition,
/// while the counter is live, answers the first answer plus its amount.
pub proof fn lemma_incr_twice(
    m0: Map<Seq<char>, EntryView>,
    capacity: usize,
    key: Seq<char>,
    d1: int,
    init: Option<i64>,
    ttl: Option<u64>,
    now1: u64,
    m1: Map<Seq<char>, EntryView>,
    v1: i64,
    d2: int,
    now2: u64,
    m2: Map<Seq<char>, EntryView>,
    r2: Result<i64, SharedDictError>,
)
    requires
        incr_fits_at(m0, key, d1, init, now1),
        incr_outcome(m0, capacity, key, d1, init, ttl, now1, m1, Ok(v1)),
        m1[key].live_at(now2),
        incr_outcome(m1, capacity, key, d2, None, ttl, now2, m2, r2),
    ensures
        r2 == Ok::<i64, SharedDictError>((v1 + d2) as i64),
        m2[key].value == ascii_bytes(signed_decimal(v1 + d2)),
{
    lemma_counter_round_trip(v1 as int, m1[key].expires_at, m1[key].user_flags, m1[key].last_access);
    assert(m1.contains_key(key));
    assert(m1[key] == counter_entry(v1 as int, m1[key].expires_at, m1[key].user_flags, m1[key].last_access));
}

} // verus!
