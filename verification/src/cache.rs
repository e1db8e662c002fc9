//! Caching judge answers.
//!
//! The decorator sees a judge and a cache. A cache fault is never a judgment
//! failure; it degrades to a miss and is counted in [`CacheStats`]. Only
//! successful answer sets are stored.

use crate::cache_key;
use crate::cache_key::CacheKey;
use crate::event::Payload;
use crate::judge;
use crate::judge::JudgeError;
use crate::lifecycle;
use crate::num::NonZeroUsize;
use crate::ordered;
use crate::question;
use crate::question::{AnswerSet, QuestionSet};
use crate::time;
use crate::time::{Duration, Instant};
use lru::{DefaultHasher, LruCache};
use vstd::prelude::*;

verus! {

/// How long a cached answer stays valid.
///
/// Invariant: non-zero. Its view is the time in nanoseconds.
#[derive(Debug, Clone, Copy, PartialEq, Eq, PartialOrd, Ord)]
pub struct Ttl {
    duration: Duration,
}

/// A zero time-to-live.
#[derive(Debug, Clone, Copy, PartialEq, Eq, Structural)]
pub struct ZeroTtl;

impl ZeroTtl {
    /// What went wrong, in words.
    pub fn message(&self) -> (text: String)
        ensures
            text@ == "ttl must be greater than zero"@,
    {
        "ttl must be greater than zero".to_owned()
    }
}

impl Ttl {
    #[verifier::type_invariant]
    spec fn non_zero(self) -> bool {
        self.duration@ > 0
    }
}

impl View for Ttl {
    type V = nat;

    closed spec fn view(&self) -> nat {
        self.duration@
    }
}

impl Ttl {
    /// One day.
    pub fn day() -> (ttl: Ttl)
        ensures
            ttl@ == 86_400 * time::NANOS_PER_SEC,
    {
        Ttl { duration: Duration::from_secs(86_400) }
    }

    /// Validates that `duration` is non-zero.
    pub fn new(duration: Duration) -> (checked: Result<Ttl, ZeroTtl>)
        ensures
            checked is Ok <==> duration@ > 0,
            checked matches Ok(ttl) ==> ttl@ == duration@,
    {
        if duration.is_zero() {
            Err(ZeroTtl)
        } else {
            Ok(Ttl { duration })
        }
    }

    /// The duration, which is not zero.
    pub fn duration(self) -> (duration: Duration)
        ensures
            duration@ == self@,
            duration@ > 0,
    {
        proof {
            use_type_invariant(&self);
        }
        self.duration
    }
}

impl Default for Ttl {
    /// 24 hours.
    fn default() -> (ttl: Ttl)
        ensures
            ttl@ == 86_400 * time::NANOS_PER_SEC,
    {
        Ttl::day()
    }
}

/// Why a cache operation failed. The decorator treats any of these as a miss.
#[derive(Debug, PartialEq, Eq)]
pub enum CacheError {
    /// The backend could not be reached.
    Unavailable {
        /// Backend detail.
        reason: String,
    },
    /// The backend returned something that is not an answer set.
    Corrupt {
        /// What was wrong.
        reason: String,
    },
    /// A previous writer panicked while holding the cache lock.
    Poisoned,
}

/// What a [`CacheError`] stands for.
#[verifier::ext_equal]
pub enum CacheErrorView {
    /// The backend could not be reached.
    Unavailable { reason: Seq<char> },
    /// The backend returned something that is not an answer set.
    Corrupt { reason: Seq<char> },
    /// A previous writer panicked while holding the cache lock.
    Poisoned,
}

impl View for CacheError {
    type V = CacheErrorView;

    open spec fn view(&self) -> CacheErrorView {
        match *self {
            CacheError::Unavailable { reason } => CacheErrorView::Unavailable { reason: reason@ },
            CacheError::Corrupt { reason } => CacheErrorView::Corrupt { reason: reason@ },
            CacheError::Poisoned => CacheErrorView::Poisoned,
        }
    }
}

/// A cache error in words.
pub open spec fn cache_error_text(error: CacheErrorView) -> Seq<char> {
    match error {
        CacheErrorView::Unavailable { reason } => "cache unavailable: "@ + reason,
        CacheErrorView::Corrupt { reason } => "cache entry corrupt: "@ + reason,
        CacheErrorView::Poisoned => "cache lock poisoned"@,
    }
}

impl CacheError {
    /// What went wrong, in words.
    pub fn message(&self) -> (text: String)
        ensures
            text@ == cache_error_text(self@),
    {
        match self {
            CacheError::Unavailable { reason } => {
                let mut text = "cache unavailable: ".to_owned();
                text.append(reason.as_str());
                text
            },
            CacheError::Corrupt { reason } => {
                let mut text = "cache entry corrupt: ".to_owned();
                text.append(reason.as_str());
                text
            },
            CacheError::Poisoned => "cache lock poisoned".to_owned(),
        }
    }
}

impl Clone for CacheError {
    fn clone(&self) -> (copy: CacheError)
        ensures
            copy == *self,
    {
        match self {
            CacheError::Unavailable { reason } => CacheError::Unavailable {
                reason: reason.clone(),
            },
            CacheError::Corrupt { reason } => CacheError::Corrupt { reason: reason.clone() },
            CacheError::Poisoned => CacheError::Poisoned,
        }
    }
}

/// What an [`Entry`] stands for.
#[verifier::ext_equal]
pub struct EntryView {
    /// The cached answers.
    pub answers: Map<Seq<char>, question::AnswerView>,
    /// When they expire, in nanoseconds since the clock's origin.
    pub expires_at: nat,
}

/// Cached answers and when they expire.
#[derive(Debug)]
pub struct Entry {
    answers: AnswerSet,
    expires_at: Instant,
}

impl View for Entry {
    type V = EntryView;

    closed spec fn view(&self) -> EntryView {
        EntryView { answers: self.answers@, expires_at: self.expires_at@ }
    }
}

impl Entry {
    /// Semantic predicate: the entry is still valid at `now`.
    pub fn is_live_at(&self, now: Instant) -> (live: bool)
        ensures
            live <==> now@ < self@.expires_at,
    {
        now.is_before(self.expires_at)
    }
}

/// The hasher that `lru` picks for its caches.
#[verifier::external_type_specification]
#[verifier::external_body]
pub struct ExDefaultHasher(DefaultHasher);

/// The bounded, least-recently-used map of the `lru` crate.
#[verifier::external_type_specification]
#[verifier::external_body]
#[verifier::reject_recursive_types(K)]
#[verifier::reject_recursive_types(V)]
#[verifier::reject_recursive_types(S)]
pub struct ExLruCache<K, V, S>(LruCache<K, V, S>);

/// What the cache holds, the most recently used entry first.
pub uninterp spec fn lru_contents(cache: LruCache<[u8; 32], Entry>) -> Seq<(Seq<u8>, EntryView)>;

/// The most entries that the cache was made to hold.
pub uninterp spec fn lru_capacity(cache: LruCache<[u8; 32], Entry>) -> nat;

/// Some position holds `key`.
pub open spec fn present(held: Seq<(Seq<u8>, EntryView)>, key: Seq<u8>) -> bool {
    exists|i: int| ordered::holds_at(held, key, i)
}

/// `LruCache::new`: an empty cache that holds at most `capacity` entries. Its
/// table takes some dozens of bytes per entry up front, which the bound keeps
/// within what can be allocated.
#[verifier::external_body]
fn lru_new(capacity: usize) -> (cache: LruCache<[u8; 32], Entry>)
    requires
        0 < capacity <= usize::MAX / 128,
    ensures
        lru_contents(cache) == Seq::<(Seq<u8>, EntryView)>::empty(),
        lru_capacity(cache) == capacity,
{
    LruCache::new(std::num::NonZeroUsize::new(capacity).unwrap())
}

/// `LruCache::len`: the number of entries held.
#[verifier::external_body]
fn lru_len(cache: &LruCache<[u8; 32], Entry>) -> (len: usize)
    ensures
        len == lru_contents(*cache).len(),
{
    cache.len()
}

/// `LruCache::get`: the value under `key`, whose entry becomes the most
/// recently used one; without such an entry nothing changes.
#[verifier::external_body]
fn lru_get<'a>(cache: &'a mut LruCache<[u8; 32], Entry>, key: &[u8; 32]) -> (found: Option<
    &'a Entry,
>)
    ensures
        lru_capacity(*final(cache)) == lru_capacity(*old(cache)),
        match found {
            Some(entry) => exists|i: int|
                #![trigger lru_contents(*old(cache))[i]]
                ordered::holds_at(lru_contents(*old(cache)), key@, i) && entry@ == lru_contents(
                    *old(cache),
                )[i].1 && lru_contents(*final(cache)) == seq![lru_contents(*old(cache))[i]]
                    + lru_contents(*old(cache)).remove(i),
            None => !present(lru_contents(*old(cache)), key@) && lru_contents(*final(cache))
                == lru_contents(*old(cache)),
        },
{
    cache.get(key)
}

/// `LruCache::put`: files `entry` under `key` as the most recently used entry,
/// in place of one already there, which is returned. A new key in a full cache
/// pushes out the least recently used entry, which is not returned.
#[verifier::external_body]
fn lru_put(cache: &mut LruCache<[u8; 32], Entry>, key: [u8; 32], entry: Entry) -> (replaced:
    Option<Entry>)
    ensures
        lru_capacity(*final(cache)) == lru_capacity(*old(cache)),
        match replaced {
            Some(earlier) => exists|i: int|
                #![trigger lru_contents(*old(cache))[i]]
                ordered::holds_at(lru_contents(*old(cache)), key@, i) && earlier@ == lru_contents(
                    *old(cache),
                )[i].1 && lru_contents(*final(cache)) == seq![(key@, entry@)] + lru_contents(
                    *old(cache),
                ).remove(i),
            None => !present(lru_contents(*old(cache)), key@) && lru_contents(*final(cache))
                == seq![(key@, entry@)] + (if lru_contents(*old(cache)).len() == lru_capacity(
                *old(cache),
            ) {
                lru_contents(*old(cache)).drop_last()
            } else {
                lru_contents(*old(cache))
            }),
        },
{
    cache.put(key, entry)
}

/// `LruCache::pop`: takes out the entry under `key`, if there is one.
#[verifier::external_body]
fn lru_pop(cache: &mut LruCache<[u8; 32], Entry>, key: &[u8; 32]) -> (taken: Option<Entry>)
    ensures
        lru_capacity(*final(cache)) == lru_capacity(*old(cache)),
        match taken {
            Some(entry) => exists|i: int|
                #![trigger lru_contents(*old(cache))[i]]
                ordered::holds_at(lru_contents(*old(cache)), key@, i) && entry@ == lru_contents(
                    *old(cache),
                )[i].1 && lru_contents(*final(cache)) == lru_contents(*old(cache)).remove(i),
            None => !present(lru_contents(*old(cache)), key@) && lru_contents(*final(cache))
                == lru_contents(*old(cache)),
        },
{
    cache.pop(key)
}

/// What a [`MemoryLru`] holds.
#[verifier::ext_equal]
pub struct LruView {
    /// The entries, the most recently used one first.
    pub held: Seq<(Seq<u8>, EntryView)>,
    /// The most entries it may hold.
    pub capacity: nat,
}

/// Where the entry under `key` stands.
pub open spec fn position(held: Seq<(Seq<u8>, EntryView)>, key: Seq<u8>) -> int {
    choose|i: int| ordered::holds_at(held, key, i)
}

/// No key repeats, and no more is held than may be.
pub open spec fn well_kept(cache: LruView) -> bool {
    &&& ordered::distinct_keys(cache.held)
    &&& cache.held.len() <= cache.capacity
    &&& cache.capacity > 0
}

/// The answers that a lookup at `now` finds under `key`: those of an entry that
/// has not expired.
pub open spec fn found_at(cache: LruView, key: Seq<u8>, now: nat) -> Option<
    Map<Seq<char>, question::AnswerView>,
> {
    if present(cache.held, key) && now < cache.held[position(cache.held, key)].1.expires_at {
        Some(cache.held[position(cache.held, key)].1.answers)
    } else {
        None
    }
}

/// The cache after a lookup at `now`: an entry that has not expired becomes the
/// most recently used one, an expired one is gone.
pub open spec fn after_get(cache: LruView, key: Seq<u8>, now: nat) -> LruView {
    let i = position(cache.held, key);
    if !present(cache.held, key) {
        cache
    } else if now < cache.held[i].1.expires_at {
        LruView { held: seq![cache.held[i]] + cache.held.remove(i), ..cache }
    } else {
        LruView { held: cache.held.remove(i), ..cache }
    }
}

/// The cache after `entry` was filed under `key`: it is the most recently used
/// one, in place of an earlier one under that key; else the least recently used
/// entry makes room where the cache is full.
pub open spec fn after_put(cache: LruView, key: Seq<u8>, entry: EntryView) -> LruView {
    let others = if present(cache.held, key) {
        cache.held.remove(position(cache.held, key))
    } else if cache.held.len() == cache.capacity {
        cache.held.drop_last()
    } else {
        cache.held
    };
    LruView { held: seq![(key, entry)] + others, ..cache }
}

proof fn lemma_position(held: Seq<(Seq<u8>, EntryView)>, key: Seq<u8>, i: int)
    requires
        ordered::distinct_keys(held),
        ordered::holds_at(held, key, i),
    ensures
        present(held, key),
        position(held, key) == i,
{
    let j = position(held, key);
    if i < j || j < i {
        assert(held[i].0 != held[j].0);
    }
}

/// Law: looking up and filing keep every key at one place and the cache within
/// its capacity.
pub proof fn law_lru_stays_well_kept(cache: LruView, key: Seq<u8>, entry: EntryView, now: nat)
    requires
        well_kept(cache),
    ensures
        well_kept(after_get(cache, key, now)),
        well_kept(after_put(cache, key, entry)),
{
    let held = cache.held;
    let i = position(held, key);
    if present(held, key) {
        lemma_without(held, key, i);
    } else {
        assert forall|j: int| 0 <= j < held.len() implies (#[trigger] held[j]).0 != key by {
            if held[j].0 == key {
                assert(ordered::holds_at(held, key, j));
            }
        }
        let others = if held.len() == cache.capacity {
            held.drop_last()
        } else {
            held
        };
        lemma_fronted(others, (key, entry));
    }
    if present(held, key) {
        lemma_fronted(held.remove(i), (key, entry));
        lemma_fronted(held.remove(i), held[i]);
    }
}

proof fn lemma_without(held: Seq<(Seq<u8>, EntryView)>, key: Seq<u8>, i: int)
    requires
        ordered::distinct_keys(held),
        ordered::holds_at(held, key, i),
    ensures
        ordered::distinct_keys(held.remove(i)),
        forall|j: int| 0 <= j < held.remove(i).len() ==> (#[trigger] held.remove(i)[j]).0 != key,
{
    let rest = held.remove(i);
    assert forall|j: int| 0 <= j < rest.len() implies (#[trigger] rest[j]).0 != key by {
        let o = if j < i { j } else { j + 1 };
        assert(rest[j] == held[o]);
        assert(held[o].0 != held[i].0);
    }
    assert forall|a: int, b: int| 0 <= a < b < rest.len() implies (#[trigger] rest[a]).0 != (
    #[trigger] rest[b]).0 by {
        let oa = if a < i { a } else { a + 1 };
        let ob = if b < i { b } else { b + 1 };
        assert(held[oa].0 != held[ob].0);
    }
}

proof fn lemma_fronted(others: Seq<(Seq<u8>, EntryView)>, front: (Seq<u8>, EntryView))
    requires
        ordered::distinct_keys(others),
        forall|j: int| 0 <= j < others.len() ==> (#[trigger] others[j]).0 != front.0,
    ensures
        ordered::distinct_keys(seq![front] + others),
{
    let all = seq![front] + others;
    assert forall|a: int, b: int| 0 <= a < b < all.len() implies (#[trigger] all[a]).0 != (
    #[trigger] all[b]).0 by {
        assert(all[b] == others[b - 1]);
        if a > 0 {
            assert(all[a] == others[a - 1]);
        }
    }
}

/// Law: until it expires, a read gives back what was written last.
pub proof fn law_read_gives_back_the_write(
    cache: LruView,
    key: Seq<u8>,
    entry: EntryView,
    now: nat,
)
    requires
        well_kept(cache),
    ensures
        found_at(after_put(cache, key, entry), key, now) == if now < entry.expires_at {
            Some(entry.answers)
        } else {
            None
        },
{
    let after = after_put(cache, key, entry);
    law_lru_stays_well_kept(cache, key, entry, now);
    assert(ordered::holds_at(after.held, key, 0));
    lemma_position(after.held, key, 0);
}

/// Law: an expired entry is never returned, and looking it up removes it.
pub proof fn law_expired_entries_are_gone(cache: LruView, key: Seq<u8>, now: nat, later: nat)
    requires
        well_kept(cache),
        found_at(cache, key, now) is None,
    ensures
        !present(after_get(cache, key, now).held, key),
        found_at(after_get(cache, key, now), key, later) is None,
{
    let held = cache.held;
    if present(held, key) {
        lemma_without(held, key, position(held, key));
    }
}

/// Law: a lookup changes nothing that another key finds.
pub proof fn law_lookup_disturbs_no_other_key(
    cache: LruView,
    key: Seq<u8>,
    now: nat,
    other: Seq<u8>,
    later: nat,
)
    requires
        well_kept(cache),
        key != other,
    ensures
        found_at(after_get(cache, key, now), other, later) == found_at(cache, other, later),
{
    let held = cache.held;
    let after = after_get(cache, key, now);
    if present(held, key) {
        let i = position(held, key);
        law_lru_stays_well_kept(
            cache,
            key,
            EntryView { answers: Map::empty(), expires_at: 0 },
            now,
        );
        let shift: int = if now < held[i].1.expires_at { 1 } else { 0 };
        if present(held, other) {
            let j = position(held, other);
            let o = shift + if j < i { j } else { j - 1 };
            assert(after.held[o] == held[j]);
            assert(ordered::holds_at(after.held, other, o));
            lemma_position(after.held, other, o);
            lemma_position(held, other, j);
        } else if present(after.held, other) {
            let o = position(after.held, other);
            let r = o - shift;
            assert(r >= 0);
            let j = if r < i { r } else { r + 1 };
            assert(after.held[o] == held[j]);
            assert(ordered::holds_at(held, other, j));
        }
    }
}

/// Law: filing under a key pushes out at most one other entry: the least
/// recently used one, and only where the cache is full and the key is new.
pub proof fn law_only_the_least_recent_entry_makes_room(
    cache: LruView,
    key: Seq<u8>,
    entry: EntryView,
    other: Seq<u8>,
    now: nat,
)
    requires
        well_kept(cache),
        key != other,
    ensures
        found_at(after_put(cache, key, entry), other, now) == if !present(cache.held, key)
            && cache.held.len() == cache.capacity && cache.held.last().0 == other {
            None
        } else {
            found_at(cache, other, now)
        },
{
    let held = cache.held;
    let after = after_put(cache, key, entry);
    law_lru_stays_well_kept(cache, key, entry, now);
    let evicts = !present(held, key) && held.len() == cache.capacity;
    let i = position(held, key);
    if present(held, other) {
        let j = position(held, other);
        lemma_position(held, other, j);
        let kept = !(evicts && j == held.len() - 1);
        if evicts && held.last().0 == other {
            lemma_position(held, other, held.len() - 1);
        }
        if kept {
            let o = 1 + if present(held, key) && j > i { j - 1 } else { j };
            assert(after.held[o] == held[j]);
            assert(ordered::holds_at(after.held, other, o));
            lemma_position(after.held, other, o);
        }
    }
    if present(after.held, other) {
        let o = position(after.held, other);
        let r = o - 1;
        let j = if present(held, key) && r >= i { r + 1 } else { r };
        assert(after.held[o] == held[j]);
        assert(ordered::holds_at(held, other, j));
        lemma_position(held, other, j);
        if evicts {
            assert(j < held.len() - 1);
            assert(held[j].0 != held[held.len() - 1].0);
        }
    }
}

/// An in-process, bounded, least-recently-used cache with per-entry expiry.
///
/// Time is told to it: each operation takes the current instant.
pub struct MemoryLru {
    entries: LruCache<[u8; 32], Entry>,
}

impl View for MemoryLru {
    type V = LruView;

    closed spec fn view(&self) -> LruView {
        LruView { held: lru_contents(self.entries), capacity: lru_capacity(self.entries) }
    }
}

impl MemoryLru {
    /// No key repeats, and no more is held than may be.
    pub open spec fn well_formed(&self) -> bool {
        well_kept(self@)
    }

    /// A cache holding at most `capacity` entries. Its table is laid out up
    /// front, so `capacity` stays within what can be addressed.
    pub fn new(capacity: NonZeroUsize) -> (cache: MemoryLru)
        requires
            capacity@ <= usize::MAX / 128,
        ensures
            cache@ == (LruView { held: Seq::empty(), capacity: capacity@ as nat }),
            cache.well_formed(),
    {
        let entries = lru_new(capacity.get());
        MemoryLru { entries }
    }

    /// Entries currently held, expired ones included until they are touched.
    pub fn len(&self) -> (len: usize)
        ensures
            len == self@.held.len(),
    {
        lru_len(&self.entries)
    }

    /// Semantic predicate: nothing is held.
    pub fn is_empty(&self) -> (empty: bool)
        ensures
            empty <==> self@.held.len() == 0,
    {
        self.len() == 0
    }

    /// The unexpired answers under `key` at `now`, if any.
    pub fn get(&mut self, key: &CacheKey, now: Instant) -> (found: Option<AnswerSet>)
        requires
            old(self).well_formed(),
        ensures
            final(self).well_formed(),
            final(self)@ == after_get(old(self)@, key@, now@),
            found_at(old(self)@, key@, now@) == match found {
                Some(answers) => Some(answers@),
                None => None,
            },
    {
        let ghost before = self@;
        proof {
            law_lru_stays_well_kept(
                before,
                key@,
                EntryView { answers: Map::empty(), expires_at: 0 },
                now@,
            );
        }
        let expired = match lru_get(&mut self.entries, key.bytes()) {
            None => false,
            Some(entry) => {
                proof {
                    let i = choose|i: int|
                        #![trigger before.held[i]]
                        ordered::holds_at(before.held, key@, i) && entry@ == before.held[i].1;
                    lemma_position(before.held, key@, i);
                    lemma_touched(before.held, key@);
                }
                if entry.is_live_at(now) {
                    return Some(entry.answers.clone());
                }
                true
            },
        };
        if expired {
            let ghost touched = self@.held;
            let _gone = lru_pop(&mut self.entries, key.bytes());
            proof {
                assert(ordered::holds_at(touched, key@, 0));
                lemma_position(touched, key@, 0);
                assert(touched.remove(0) =~= before.held.remove(position(before.held, key@)));
            }
        }
        None
    }

    /// Stores `answers` under `key` for `ttl` from `now` on.
    pub fn put(&mut self, key: CacheKey, answers: AnswerSet, ttl: Ttl, now: Instant)
        requires
            old(self).well_formed(),
            now@ + ttl@ <= time::longest(),
        ensures
            final(self).well_formed(),
            final(self)@ == after_put(
                old(self)@,
                key@,
                (EntryView { answers: answers@, expires_at: now@ + ttl@ }),
            ),
    {
        let ghost before = self@;
        if let Some(expires_at) = now.after(ttl.duration()) {
            let entry = Entry { answers, expires_at };
            proof {
                law_lru_stays_well_kept(before, key@, entry@, now@);
            }
            let _replaced = lru_put(&mut self.entries, *key.bytes(), entry);
            proof {
                assert forall|i: int| ordered::holds_at(before.held, key@, i) implies position(
                    before.held,
                    key@,
                ) == i by {
                    lemma_position(before.held, key@, i);
                }
            }
        }
    }
}

proof fn lemma_touched(held: Seq<(Seq<u8>, EntryView)>, key: Seq<u8>)
    requires
        ordered::distinct_keys(held),
        present(held, key),
    ensures
        ordered::distinct_keys(
            seq![held[position(held, key)]] + held.remove(position(held, key)),
        ),
{
    let i = position(held, key);
    lemma_without(held, key, i);
    lemma_fronted(held.remove(i), held[i]);
}

/// Counters kept by [`Cached`].
#[derive(Debug, Clone, Copy, PartialEq, Eq, Structural)]
pub struct CacheStats {
    /// Answers served from the cache.
    pub hits: u64,
    /// Answers obtained from the judge.
    pub misses: u64,
    /// Cache operations that failed and were treated as misses.
    pub faults: u64,
}

impl Default for CacheStats {
    fn default() -> (stats: CacheStats)
        ensures
            stats == (CacheStats { hits: 0, misses: 0, faults: 0 }),
    {
        CacheStats { hits: 0, misses: 0, faults: 0 }
    }
}

/// A counter one further on; the largest one wraps around to zero.
pub open spec fn bumped(counter: u64) -> u64 {
    if counter == u64::MAX {
        0
    } else {
        (counter + 1) as u64
    }
}

fn bump(counter: u64) -> (next: u64)
    ensures
        next == bumped(counter),
{
    if counter == u64::MAX {
        0
    } else {
        counter + 1
    }
}

/// Look in the cache.
pub struct LookupStep {
    key: CacheKey,
}

/// Ask the inner judge.
pub struct InnerStep {
    key: CacheKey,
}

/// Store the answers.
pub struct StoreStep {
    key: CacheKey,
    answers: AnswerSet,
}

/// What a [`StoreStep`] stands for.
#[verifier::ext_equal]
pub struct StoreStepView {
    /// What the answers are filed under.
    pub key: Seq<u8>,
    /// The answers.
    pub answers: Map<Seq<char>, question::AnswerView>,
}

impl View for LookupStep {
    type V = Seq<u8>;

    closed spec fn view(&self) -> Seq<u8> {
        self.key@
    }
}

impl View for InnerStep {
    type V = Seq<u8>;

    closed spec fn view(&self) -> Seq<u8> {
        self.key@
    }
}

impl View for StoreStep {
    type V = StoreStepView;

    closed spec fn view(&self) -> StoreStepView {
        StoreStepView { key: self.key@, answers: self.answers@ }
    }
}

/// What follows in a cached judgment.
pub enum CacheStep {
    /// Ask the inner judge.
    Ask(InnerStep),
    /// Store the answers.
    Store(StoreStep),
    /// The judgment.
    Done(Result<AnswerSet, JudgeError>),
}

/// The answers, or the error, of a judgment.
pub type JudgmentView = Result<Map<Seq<char>, question::AnswerView>, judge::JudgeErrorView>;

/// What a [`CacheStep`] stands for.
#[verifier::ext_equal]
pub enum CacheStepView {
    /// Ask the inner judge; its answers are filed under this key.
    Ask(Seq<u8>),
    /// Store the answers.
    Store(StoreStepView),
    /// The judgment.
    Done(JudgmentView),
}

impl View for CacheStep {
    type V = CacheStepView;

    open spec fn view(&self) -> CacheStepView {
        match *self {
            CacheStep::Ask(step) => CacheStepView::Ask(step@),
            CacheStep::Store(step) => CacheStepView::Store(step@),
            CacheStep::Done(result) => CacheStepView::Done(lifecycle::result_view(result)),
        }
    }
}

/// What a lookup brought.
pub type LookupView = Result<Option<Map<Seq<char>, question::AnswerView>>, CacheErrorView>;

/// A lookup's reply by its view.
pub open spec fn lookup_view(reply: Result<Option<AnswerSet>, CacheError>) -> LookupView {
    match reply {
        Ok(Some(answers)) => Ok(Some(answers@)),
        Ok(None) => Ok(None),
        Err(error) => Err(error@),
    }
}

/// The step after a lookup: a hit is the judgment, anything else asks the judge.
pub open spec fn after_lookup(key: Seq<u8>, reply: LookupView) -> CacheStepView {
    match reply {
        Ok(Some(answers)) => CacheStepView::Done(Ok(answers)),
        _ => CacheStepView::Ask(key),
    }
}

/// The counters after a lookup. Without a hit the judge is asked, and it is not
/// yet known whether it has answers.
pub open spec fn counted_lookup(stats: CacheStats, reply: LookupView) -> CacheStats {
    match reply {
        Ok(Some(_)) => CacheStats { hits: bumped(stats.hits), ..stats },
        Ok(None) => stats,
        Err(_) => CacheStats { faults: bumped(stats.faults), ..stats },
    }
}

/// The step after the inner judge replied: only answers are stored.
pub open spec fn after_judge(key: Seq<u8>, result: JudgmentView) -> CacheStepView {
    match result {
        Ok(answers) => CacheStepView::Store(StoreStepView { key, answers }),
        Err(error) => CacheStepView::Done(Err(error)),
    }
}

/// The counters after answers obtained from the judge were stored, or could not
/// be.
pub open spec fn counted_store(stats: CacheStats, stored: bool) -> CacheStats {
    CacheStats {
        misses: bumped(stats.misses),
        faults: if stored {
            stats.faults
        } else {
            bumped(stats.faults)
        },
        ..stats
    }
}

/// A judge that consults a cache before its inner judge.
///
/// The judge and the cache are asked by the caller, who performs each step and
/// hands back what came of it.
#[derive(Debug)]
pub struct Cached<J, C> {
    inner: J,
    cache: C,
    ttl: Ttl,
    counters: CacheStats,
}

/// What a [`Cached`] stands for.
pub struct CachedView<J, C> {
    /// The wrapped judge.
    pub inner: J,
    /// The cache.
    pub cache: C,
    /// How long answers are kept, in nanoseconds.
    pub ttl: nat,
    /// Hits, misses and faults so far.
    pub stats: CacheStats,
}

impl<J, C> View for Cached<J, C> {
    type V = CachedView<J, C>;

    closed spec fn view(&self) -> CachedView<J, C> {
        CachedView {
            inner: self.inner,
            cache: self.cache,
            ttl: self.ttl@,
            stats: self.counters,
        }
    }
}

impl<J, C> Cached<J, C> {
    /// Wraps `inner`, storing its successful answers in `cache` for `ttl`.
    pub fn new(inner: J, cache: C, ttl: Ttl) -> (cached: Cached<J, C>)
        ensures
            cached@ == (CachedView {
                inner,
                cache,
                ttl: ttl@,
                stats: CacheStats { hits: 0, misses: 0, faults: 0 },
            }),
    {
        Cached { inner, cache, ttl, counters: CacheStats::default() }
    }

    /// Hits, misses and faults so far.
    pub fn stats(&self) -> (stats: CacheStats)
        ensures
            stats == self@.stats,
    {
        self.counters
    }

    /// The wrapped judge.
    pub fn inner(&self) -> (inner: &J)
        ensures
            *inner == self@.inner,
    {
        &self.inner
    }

    /// The cache.
    pub fn cache(&self) -> (cache: &C)
        ensures
            *cache == self@.cache,
    {
        &self.cache
    }

    /// How long answers are kept.
    pub fn ttl(&self) -> (ttl: Ttl)
        ensures
            ttl@ == self@.ttl,
    {
        self.ttl
    }

    /// Starts a judgment: a lookup under the digest of what is asked.
    pub fn begin(&self, payload: &Payload, questions: &QuestionSet) -> (step: LookupStep)
        ensures
            step@ == cache_key::sha256_digest(cache_key::encoding_of(payload@, questions@)),
    {
        LookupStep { key: CacheKey::of(payload, questions) }
    }

    /// The cache replied to the lookup.
    pub fn looked_up(
        &mut self,
        step: LookupStep,
        reply: Result<Option<AnswerSet>, CacheError>,
    ) -> (next: CacheStep)
        ensures
            next@ == after_lookup(step@, lookup_view(reply)),
            final(self)@ == (CachedView {
                stats: counted_lookup(old(self)@.stats, lookup_view(reply)),
                ..old(self)@
            }),
    {
        match reply {
            Ok(Some(answers)) => {
                self.counters.hits = bump(self.counters.hits);
                CacheStep::Done(Ok(answers))
            },
            Ok(None) => CacheStep::Ask(InnerStep { key: step.key }),
            Err(_) => {
                self.counters.faults = bump(self.counters.faults);
                CacheStep::Ask(InnerStep { key: step.key })
            },
        }
    }

    /// The cache replied to the store of answers obtained from the judge.
    pub fn stored(&mut self, step: StoreStep, reply: Result<(), CacheError>) -> (next: CacheStep)
        ensures
            next@ == CacheStepView::Done(Ok(step@.answers)),
            final(self)@ == (CachedView {
                stats: counted_store(old(self)@.stats, reply is Ok),
                ..old(self)@
            }),
    {
        self.counters.misses = bump(self.counters.misses);
        if reply.is_err() {
            self.counters.faults = bump(self.counters.faults);
        }
        CacheStep::Done(Ok(step.answers))
    }
}

impl LookupStep {
    /// What to look under.
    pub fn key(&self) -> (key: &CacheKey)
        ensures
            key@ == self@,
    {
        &self.key
    }
}

impl InnerStep {
    /// The inner judge replied.
    pub fn judged(self, result: Result<AnswerSet, JudgeError>) -> (next: CacheStep)
        ensures
            next@ == after_judge(self@, lifecycle::result_view(result)),
    {
        match result {
            Ok(answers) => CacheStep::Store(StoreStep { key: self.key, answers }),
            Err(error) => CacheStep::Done(Err(error)),
        }
    }
}

impl StoreStep {
    /// What to file the answers under.
    pub fn key(&self) -> (key: CacheKey)
        ensures
            key@ == self@.key,
    {
        self.key
    }

    /// The answers to store.
    pub fn answers(&self) -> (answers: AnswerSet)
        ensures
            answers@ == self@.answers,
    {
        self.answers.clone()
    }
}

/// The judgment that comes of a lookup's reply and of what the inner judge
/// says where it is asked, whatever comes of the store.
pub open spec fn judgment(key: Seq<u8>, lookup: LookupView, inner: JudgmentView) -> JudgmentView {
    match after_lookup(key, lookup) {
        CacheStepView::Done(result) => result,
        _ => match after_judge(key, inner) {
            CacheStepView::Store(step) => Ok(step.answers),
            CacheStepView::Done(result) => result,
            CacheStepView::Ask(_) => inner,
        },
    }
}

/// Law: a cache fault is never a judgment failure. Without a hit the judgment
/// is the inner judge's; with a hit it is what the cache held.
pub proof fn law_cache_faults_degrade_to_misses(
    key: Seq<u8>,
    lookup: LookupView,
    inner: JudgmentView,
)
    ensures
        judgment(key, lookup, inner) == match lookup {
            Ok(Some(answers)) => Ok(answers),
            _ => inner,
        },
        lookup is Err ==> after_lookup(key, lookup) == after_lookup(key, Ok(None)),
{
}

/// The counters after a judgment, given what came of the lookup, of the inner
/// judge where it was asked, and of the store where there was one.
pub open spec fn counted_judgment(
    stats: CacheStats,
    lookup: LookupView,
    inner: JudgmentView,
    stored: bool,
) -> CacheStats {
    let looked_up = counted_lookup(stats, lookup);
    if after_lookup(Seq::empty(), lookup) is Ask && after_judge(Seq::empty(), inner) is Store {
        counted_store(looked_up, stored)
    } else {
        looked_up
    }
}

/// Law: hits count the answers served from the cache, misses the answers
/// obtained from the judge, and faults the cache operations that failed. Where
/// both operations of a judgment fail, both are counted.
pub proof fn law_counters_count_what_they_name(
    stats: CacheStats,
    lookup: LookupView,
    inner: JudgmentView,
    stored: bool,
)
    ensures
        ({
            let hit = lookup matches Ok(Some(_));
            let answered = !hit && inner is Ok;
            let after = counted_judgment(stats, lookup, inner, stored);
            let once = if lookup is Err {
                bumped(stats.faults)
            } else {
                stats.faults
            };
            &&& after.hits == if hit {
                bumped(stats.hits)
            } else {
                stats.hits
            }
            &&& after.misses == if answered {
                bumped(stats.misses)
            } else {
                stats.misses
            }
            &&& after.faults == if answered && !stored {
                bumped(once)
            } else {
                once
            }
        }),
{
}

/// Law: only successful answer sets are stored, as they are, under the digest
/// that was looked up.
pub proof fn law_only_answers_are_stored(key: Seq<u8>, inner: JudgmentView)
    ensures
        after_judge(key, inner) is Store <==> inner is Ok,
        inner matches Ok(answers) ==> after_judge(key, inner) == CacheStepView::Store(
            StoreStepView { key, answers },
        ),
{
}

/// Law: what a judgment stored is what the next one about the same payload and
/// questions is served, until it expires.
pub proof fn law_second_request_is_served_from_the_cache(
    cache: LruView,
    payload: Seq<char>,
    questions: Map<Seq<char>, question::QuestionView>,
    answers: Map<Seq<char>, question::AnswerView>,
    stored_at: nat,
    ttl: nat,
    now: nat,
    inner: JudgmentView,
)
    requires
        well_kept(cache),
        now < stored_at + ttl,
    ensures
        ({
            let key = cache_key::sha256_digest(cache_key::encoding_of(payload, questions));
            let entry = EntryView { answers, expires_at: stored_at + ttl };
            judgment(key, Ok(found_at(after_put(cache, key, entry), key, now)), inner) == Ok::<
                _,
                judge::JudgeErrorView,
            >(answers)
        }),
{
    let key = cache_key::sha256_digest(cache_key::encoding_of(payload, questions));
    law_read_gives_back_the_write(
        cache,
        key,
        EntryView { answers, expires_at: stored_at + ttl },
        now,
    );
}

/// Law: a lookup finds exactly what is filed under its key and has not expired.
/// An entry is live until the instant at which it expires, and gone from then
/// on.
pub proof fn law_a_lookup_finds_what_is_live(cache: LruView, key: Seq<u8>, now: nat, i: int)
    requires
        well_kept(cache),
        0 <= i < cache.held.len(),
    ensures
        found_at(cache, cache.held[i].0, now) == if now < cache.held[i].1.expires_at {
            Some(cache.held[i].1.answers)
        } else {
            None
        },
        (forall|j: int| 0 <= j < cache.held.len() ==> (#[trigger] cache.held[j]).0 != key)
            ==> found_at(cache, key, now) is None,
{
    lemma_position(cache.held, cache.held[i].0, i);
}

/// Law: what is used becomes the most recent. An entry that is found goes to the
/// front, the others stay in their order; an expired one leaves and the others
/// stay; without an entry nothing changes.
pub proof fn law_what_is_used_becomes_the_most_recent(cache: LruView, now: nat, i: int)
    requires
        well_kept(cache),
        0 <= i < cache.held.len(),
    ensures
        ({
            let after = after_get(cache, cache.held[i].0, now);
            &&& after.capacity == cache.capacity
            &&& after.held == if now < cache.held[i].1.expires_at {
                seq![cache.held[i]] + cache.held.remove(i)
            } else {
                cache.held.remove(i)
            }
        }),
        forall|key: Seq<u8>|
            (forall|j: int| 0 <= j < cache.held.len() ==> (#[trigger] cache.held[j]).0 != key)
                ==> #[trigger] after_get(cache, key, now) == cache,
{
    lemma_position(cache.held, cache.held[i].0, i);
}

/// Law: what is filed becomes the most recent, in place of what was under its
/// key. The others stay in their order, but for the least recent one of a full
/// cache that has to take a new key.
pub proof fn law_what_is_filed_becomes_the_most_recent(
    cache: LruView,
    key: Seq<u8>,
    entry: EntryView,
    i: int,
)
    requires
        well_kept(cache),
    ensures
        ({
            let after = after_put(cache, key, entry);
            let fresh = forall|j: int|
                0 <= j < cache.held.len() ==> (#[trigger] cache.held[j]).0 != key;
            &&& after.capacity == cache.capacity
            &&& after.held.len() > 0
            &&& after.held[0] == (key, entry)
            &&& 0 <= i < cache.held.len() && cache.held[i].0 == key ==> after.held.drop_first()
                == cache.held.remove(i)
            &&& fresh && cache.held.len() < cache.capacity ==> after.held.drop_first()
                == cache.held
            &&& fresh && cache.held.len() == cache.capacity ==> after.held.drop_first()
                == cache.held.drop_last()
        }),
{
    let after = after_put(cache, key, entry);
    if 0 <= i < cache.held.len() && cache.held[i].0 == key {
        lemma_position(cache.held, key, i);
        assert(after.held.drop_first() =~= cache.held.remove(i));
    }
    if !present(cache.held, key) {
        assert(after.held.drop_first() =~= if cache.held.len() == cache.capacity {
            cache.held.drop_last()
        } else {
            cache.held
        });
    }
}

/// Law: a hit is the judgment and counts as one; anything else asks the judge.
/// What the judge answers is counted, stored under the key that was looked up,
/// and is the judgment whatever comes of the store; its error is the judgment
/// and is neither counted nor stored. Each failed cache operation is counted,
/// and counters wrap around.
pub proof fn law_a_cached_judgment_step_by_step(
    key: Seq<u8>,
    answers: Map<Seq<char>, question::AnswerView>,
    fault: CacheErrorView,
    error: judge::JudgeErrorView,
    stats: CacheStats,
    stored: bool,
)
    ensures
        after_lookup(key, Ok(Some(answers))) == CacheStepView::Done(Ok(answers)),
        after_lookup(key, Ok(None)) == CacheStepView::Ask(key),
        after_lookup(key, Err(fault)) == CacheStepView::Ask(key),
        after_judge(key, Ok(answers)) == CacheStepView::Store(StoreStepView { key, answers }),
        after_judge(key, Err(error)) == CacheStepView::Done(Err(error)),
        counted_lookup(stats, Ok(None)) == stats,
        ({
            let hit = counted_lookup(stats, Ok(Some(answers)));
            let failed = counted_lookup(stats, Err(fault));
            let kept = counted_store(stats, stored);
            &&& hit.hits == (stats.hits + 1) % 0x1_0000_0000_0000_0000
            &&& hit.misses == stats.misses && hit.faults == stats.faults
            &&& failed.faults == (stats.faults + 1) % 0x1_0000_0000_0000_0000
            &&& failed.hits == stats.hits && failed.misses == stats.misses
            &&& kept.misses == (stats.misses + 1) % 0x1_0000_0000_0000_0000
            &&& kept.hits == stats.hits
            &&& stored ==> kept.faults == stats.faults
            &&& !stored ==> kept.faults == (stats.faults + 1) % 0x1_0000_0000_0000_0000
        }),
{
}

/// Law: a cache error says in words what it is and why.
pub proof fn law_cache_errors_end_with_their_reason(reason: Seq<char>)
    ensures
        cache_error_text(CacheErrorView::Unavailable { reason }) == "cache unavailable: "@ + reason,
        cache_error_text(CacheErrorView::Corrupt { reason }) == "cache entry corrupt: "@ + reason,
        cache_error_text(CacheErrorView::Poisoned) == "cache lock poisoned"@,
{
}

/// Law: what the cache answered to a lookup is taken as it is.
pub proof fn law_what_the_cache_answered_is_taken_as_it_is(answers: AnswerSet, error: CacheError)
    ensures
        lookup_view(Ok(Some(answers))) == Ok::<_, CacheErrorView>(Some(answers@)),
        lookup_view(Ok(None)) == Ok::<_, CacheErrorView>(
            None::<Map<Seq<char>, question::AnswerView>>,
        ),
        lookup_view(Err(error)) == Err::<Option<Map<Seq<char>, question::AnswerView>>, _>(error@),
{
}

} // verus!
