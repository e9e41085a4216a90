//! A cache in memory, with a clock that its owner moves.

use crate::cache::{has_prefix, within, without_prefix, Cache, NoopCache};
use crate::cached::lemma_coherent_when_less;
use crate::db::AppState;
use crate::search::SearchEngine;
use crate::seqs::{lemma_views_push, views};
use crate::text::chars_of;
use vstd::prelude::*;

verus! {

/// One thing that the cache was given: bytes under a key, and the time at
/// which they are no longer served, if there is one.
pub struct Slot {
    pub key: Vec<char>,
    pub value: Vec<u8>,
    pub expires_at: Option<u64>,
}

pub ghost struct SlotView {
    pub key: Seq<char>,
    pub value: Seq<u8>,
    pub expires_at: Option<u64>,
}

impl View for Slot {
    type V = SlotView;

    open spec fn view(&self) -> SlotView {
        SlotView { key: self.key@, value: self.value@, expires_at: self.expires_at }
    }
}

/// Whether a slot is still served at the time `now`.
pub open spec fn is_live(s: SlotView, now: u64) -> bool {
    s.expires_at matches Some(end) ==> now < end
}

/// What the slots serve at the time `now`: for each key what the last slot
/// with that key holds, if that slot is still served.
pub open spec fn served(slots: Seq<SlotView>, now: u64) -> Map<Seq<char>, Seq<u8>>
    decreases slots.len(),
{
    if slots.len() == 0 {
        Map::empty()
    } else {
        let before = served(slots.drop_last(), now);
        let s = slots.last();
        if is_live(s, now) {
            before.insert(s.key, s.value)
        } else {
            before.remove(s.key)
        }
    }
}

/// Whether what is given at the time `now` for `ttl` seconds is still
/// served at the time `time`: it is where no end is set, where the end lies
/// beyond the last time that the clock can show, and before the end.
pub open spec fn outlives(now: u64, ttl: Option<u64>, time: u64) -> bool {
    match ttl {
        Some(seconds) => now + seconds > u64::MAX || time < now + seconds,
        None => true,
    }
}

/// The time that the clock shows `seconds` after it showed `now`: it stays
/// at the last time that it can show.
pub open spec fn time_after(now: u64, seconds: u64) -> u64 {
    if now + seconds <= u64::MAX {
        (now + seconds) as u64
    } else {
        u64::MAX
    }
}

/// The test that keeps the slots of other keys than `key`.
pub open spec fn key_is_not(key: Seq<char>) -> spec_fn(SlotView) -> bool {
    |s: SlotView| s.key != key
}

/// The test that keeps the slots whose key does not start with `prefix`.
pub open spec fn key_starts_otherwise(prefix: Seq<char>) -> spec_fn(SlotView) -> bool {
    |s: SlotView| !has_prefix(s.key, prefix)
}

proof fn lemma_served_push(slots: Seq<SlotView>, s: SlotView, now: u64)
    ensures
        served(slots.push(s), now) == if is_live(s, now) {
            served(slots, now).insert(s.key, s.value)
        } else {
            served(slots, now).remove(s.key)
        },
{
    assert(slots.push(s).drop_last() =~= slots);
}

proof fn lemma_served_without_key(slots: Seq<SlotView>, now: u64, key: Seq<char>)
    ensures
        served(slots.filter(key_is_not(key)), now) == served(slots, now).remove(key),
    decreases slots.len(),
{
    reveal(Seq::filter);
    let keep = key_is_not(key);
    if slots.len() == 0 {
        assert(served(slots, now).remove(key) =~= Map::empty());
    } else {
        let head = slots.drop_last();
        let s = slots.last();
        lemma_served_without_key(head, now, key);
        if keep(s) {
            lemma_served_push(head.filter(keep), s, now);
        }
        assert(served(slots.filter(keep), now) =~= served(slots, now).remove(key));
    }
}

proof fn lemma_served_without_prefix(slots: Seq<SlotView>, now: u64, prefix: Seq<char>)
    ensures
        served(slots.filter(key_starts_otherwise(prefix)), now) == without_prefix(
            served(slots, now),
            prefix,
        ),
    decreases slots.len(),
{
    reveal(Seq::filter);
    let keep = key_starts_otherwise(prefix);
    if slots.len() == 0 {
        assert(without_prefix(served(slots, now), prefix) =~= Map::empty());
    } else {
        let head = slots.drop_last();
        let s = slots.last();
        lemma_served_without_prefix(head, now, prefix);
        if keep(s) {
            lemma_served_push(head.filter(keep), s, now);
        }
        assert(served(slots.filter(keep), now) =~= without_prefix(served(slots, now), prefix));
    }
}

/// What is served later was served before.
proof fn lemma_served_later(slots: Seq<SlotView>, now: u64, later: u64)
    requires
        now <= later,
    ensures
        within(served(slots, later), served(slots, now)),
    decreases slots.len(),
{
    if slots.len() > 0 {
        lemma_served_later(slots.drop_last(), now, later);
    }
}

/// Whether two texts are the same.
pub fn same_text(a: &Vec<char>, b: &Vec<char>) -> (out: bool)
    ensures
        out == (a@ == b@),
{
    if a.len() != b.len() {
        return false;
    }
    let mut i: usize = 0;
    while i < a.len()
        invariant
            i <= a.len(),
            a.len() == b.len(),
            forall|k: int| 0 <= k < i ==> a@[k] == b@[k],
        decreases a.len() - i,
    {
        if a[i] != b[i] {
            return false;
        }
        i += 1;
    }
    proof {
        assert(a@ =~= b@);
    }
    true
}

/// Whether `key` starts with `prefix`.
fn starts_with(key: &Vec<char>, prefix: &Vec<char>) -> (out: bool)
    ensures
        out == has_prefix(key@, prefix@),
{
    if prefix.len() > key.len() {
        return false;
    }
    let mut i: usize = 0;
    while i < prefix.len()
        invariant
            i <= prefix.len(),
            prefix.len() <= key.len(),
            forall|k: int| 0 <= k < i ==> key@[k] == prefix@[k],
        decreases prefix.len() - i,
    {
        if key[i] != prefix[i] {
            proof {
                assert(key@.take(prefix.len() as int)[i as int] == key@[i as int]);
            }
            return false;
        }
        i += 1;
    }
    proof {
        assert(key@.take(prefix.len() as int) =~= prefix@);
    }
    true
}

/// The slots of other keys than `key`.
fn slots_but(slots: Vec<Slot>, key: &Vec<char>) -> (out: Vec<Slot>)
    ensures
        views(out@) == views(slots@).filter(key_is_not(key@)),
{
    let ghost all = views(slots@);
    let ghost keep = key_is_not(key@);
    let mut out: Vec<Slot> = Vec::new();
    proof {
        reveal(Seq::filter);
        assert(views(out@) =~= all.take(0).filter(keep));
    }
    for s in it: slots
        invariant
            it.seq() == slots@,
            all == views(slots@),
            keep == key_is_not(key@),
            views(out@) == all.take(it.index() as int).filter(keep),
    {
        proof {
            let i = it.index() as int;
            assert(all.take(i + 1) =~= all.take(i).push(s@));
            all.take(i).lemma_filter_push(s@, keep);
            lemma_views_push(out@, s);
        }
        if !same_text(&s.key, key) {
            out.push(s);
        }
    }
    proof {
        assert(all.take(all.len() as int) =~= all);
    }
    out
}

/// The slots whose key does not start with `prefix`.
fn slots_outside(slots: Vec<Slot>, prefix: &Vec<char>) -> (out: Vec<Slot>)
    ensures
        views(out@) == views(slots@).filter(key_starts_otherwise(prefix@)),
{
    let ghost all = views(slots@);
    let ghost keep = key_starts_otherwise(prefix@);
    let mut out: Vec<Slot> = Vec::new();
    proof {
        reveal(Seq::filter);
        assert(views(out@) =~= all.take(0).filter(keep));
    }
    for s in it: slots
        invariant
            it.seq() == slots@,
            all == views(slots@),
            keep == key_starts_otherwise(prefix@),
            views(out@) == all.take(it.index() as int).filter(keep),
    {
        proof {
            let i = it.index() as int;
            assert(all.take(i + 1) =~= all.take(i).push(s@));
            all.take(i).lemma_filter_push(s@, keep);
            lemma_views_push(out@, s);
        }
        if !starts_with(&s.key, prefix) {
            out.push(s);
        }
    }
    proof {
        assert(all.take(all.len() as int) =~= all);
    }
    out
}

/// A copy of `bytes`.
fn copy_bytes(bytes: &[u8]) -> (out: Vec<u8>)
    ensures
        out@ == bytes@,
{
    let mut out: Vec<u8> = Vec::new();
    let mut i: usize = 0;
    while i < bytes.len()
        invariant
            i <= bytes.len(),
            out@ == bytes@.take(i as int),
        decreases bytes.len() - i,
    {
        out.push(bytes[i]);
        proof {
            assert(bytes@.take(i as int + 1) =~= bytes@.take(i as int).push(bytes@[i as int]));
        }
        i += 1;
    }
    proof {
        assert(bytes@.take(bytes.len() as int) =~= bytes@);
    }
    out
}

/// A cache in memory. It keeps what it is given until that is forgotten or
/// its time is over; the time is a count of seconds that `advance` moves.
pub struct MemoryCache {
    slots: Vec<Slot>,
    now: u64,
}

impl MemoryCache {
    /// An empty cache at time zero.
    pub fn new() -> (out: MemoryCache)
        ensures
            out.entries() == Map::<Seq<char>, Seq<u8>>::empty(),
            out.now() == 0,
            forall|time: u64| #[trigger] out.served_at(time) == Map::<Seq<char>, Seq<u8>>::empty(),
    {
        MemoryCache { slots: Vec::new(), now: 0 }
    }

    /// The time of the cache, in seconds.
    pub closed spec fn now(&self) -> u64 {
        self.now
    }

    /// What the cache serves once its time is `time`, if nothing is given
    /// to it or forgotten until then.
    pub closed spec fn served_at(&self, time: u64) -> Map<Seq<char>, Seq<u8>> {
        served(views(self.slots@), time)
    }

    /// What the cache serves is what it serves at its time.
    pub proof fn lemma_entries_now(&self)
        ensures
            self.entries() == self.served_at(self.now()),
    {
    }

    /// Moves the time on by `seconds`. What is served afterwards was
    /// served before.
    pub fn advance(&mut self, seconds: u64)
        ensures
            final(self).now() == time_after(old(self).now(), seconds),
            forall|time: u64| #[trigger] final(self).served_at(time) == old(self).served_at(time),
            final(self).entries() == old(self).served_at(final(self).now()),
            within(final(self).entries(), old(self).entries()),
            seconds == 0 ==> final(self).entries() == old(self).entries(),
    {
        let later = if seconds <= u64::MAX - self.now {
            self.now + seconds
        } else {
            u64::MAX
        };
        proof {
            lemma_served_later(views(self.slots@), self.now, later);
        }
        self.now = later;
    }
}

impl Cache for MemoryCache {
    closed spec fn entries(&self) -> Map<Seq<char>, Seq<u8>> {
        served(views(self.slots@), self.now)
    }

    open spec fn exact(&self) -> bool {
        true
    }

    fn get(&self, key: &str) -> (out: Option<Vec<u8>>)
        ensures
            out is Some <==> self.entries().contains_key(key@),
    {
        let wanted = chars_of(key);
        let ghost all = views(self.slots@);
        let mut i: usize = self.slots.len();
        proof {
            assert(all.take(i as int) =~= all);
        }
        while i > 0
            invariant
                i <= self.slots.len(),
                all == views(self.slots@),
                wanted@ == key@,
                served(all, self.now).contains_key(key@) == served(
                    all.take(i as int),
                    self.now,
                ).contains_key(key@),
                served(all, self.now).contains_key(key@) ==> served(all, self.now)[key@] == served(
                    all.take(i as int),
                    self.now,
                )[key@],
            decreases i,
        {
            let slot = &self.slots[i - 1];
            proof {
                assert(all.take(i as int).drop_last() =~= all.take(i as int - 1));
                assert(all.take(i as int).last() == slot@);
            }
            if same_text(&slot.key, &wanted) {
                let live = match slot.expires_at {
                    Some(end) => self.now < end,
                    None => true,
                };
                if live {
                    return Some(copy_bytes(slot.value.as_slice()));
                } else {
                    return None;
                }
            }
            i -= 1;
        }
        None
    }

    fn set(&mut self, key: &str, value: &[u8], ttl: Option<u64>)
        ensures
            final(self).now() == old(self).now(),
            forall|time: u64| #[trigger]
                final(self).served_at(time) == if outlives(old(self).now(), ttl, time) {
                    old(self).served_at(time).insert(key@, value@)
                } else {
                    old(self).served_at(time).remove(key@)
                },
    {
        let wanted = chars_of(key);
        let expires_at = match ttl {
            Some(seconds) => if seconds <= u64::MAX - self.now {
                Some(self.now + seconds)
            } else {
                None
            },
            None => None,
        };
        let ghost before = views(self.slots@);
        let mut slots: Vec<Slot> = Vec::new();
        core::mem::swap(&mut self.slots, &mut slots);
        let mut kept = slots_but(slots, &wanted);
        let slot = Slot { key: wanted, value: copy_bytes(value), expires_at };
        proof {
            lemma_views_push(kept@, slot);
            assert forall|time: u64|
                served(views(kept@).push(slot@), time) == if outlives(self.now, ttl, time) {
                    served(before, time).insert(key@, value@)
                } else {
                    served(before, time).remove(key@)
                } by {
                lemma_served_without_key(before, time, key@);
                lemma_served_push(views(kept@), slot@, time);
                let m = served(before, time);
                assert(m.remove(key@).insert(key@, value@) =~= m.insert(key@, value@));
                assert(m.remove(key@).remove(key@) =~= m.remove(key@));
            }
            assert(outlives(self.now, ttl, self.now) <==> ttl != Some(0u64));
        }
        kept.push(slot);
        self.slots = kept;
    }

    fn del(&mut self, key: &str)
        ensures
            final(self).now() == old(self).now(),
            forall|time: u64| #[trigger]
                final(self).served_at(time) == old(self).served_at(time).remove(key@),
    {
        let wanted = chars_of(key);
        proof {
            assert forall|time: u64|
                served(views(self.slots@).filter(key_is_not(key@)), time) == served(
                    views(self.slots@),
                    time,
                ).remove(key@) by {
                lemma_served_without_key(views(self.slots@), time, key@);
            }
        }
        let mut slots: Vec<Slot> = Vec::new();
        core::mem::swap(&mut self.slots, &mut slots);
        self.slots = slots_but(slots, &wanted);
    }

    fn del_prefix(&mut self, prefix: &str)
        ensures
            final(self).now() == old(self).now(),
            forall|time: u64| #[trigger]
                final(self).served_at(time) == without_prefix(old(self).served_at(time), prefix@),
    {
        let wanted = chars_of(prefix);
        proof {
            assert forall|time: u64|
                served(views(self.slots@).filter(key_starts_otherwise(prefix@)), time)
                    == without_prefix(served(views(self.slots@), time), prefix@) by {
                lemma_served_without_prefix(views(self.slots@), time, prefix@);
            }
        }
        let mut slots: Vec<Slot> = Vec::new();
        core::mem::swap(&mut self.slots, &mut slots);
        self.slots = slots_outside(slots, &wanted);
    }
}

/// Whether `after` is the cache in memory `before` once its time has moved
/// on by `seconds`: it shows the later time, and serves at each time what
/// `before` was to serve at that time.
pub open spec fn moved_on(before: MemoryCache, after: MemoryCache, seconds: u64) -> bool {
    &&& after.now() == time_after(before.now(), seconds)
    &&& forall|time: u64| #[trigger] after.served_at(time) == before.served_at(time)
    &&& after.entries() == before.served_at(after.now())
}

/// Whether `after` is the chosen cache `before` once its time has moved on
/// by `seconds`. The cache that keeps nothing stays as it is.
pub open spec fn advanced(before: ChosenCache, after: ChosenCache, seconds: u64) -> bool {
    match before {
        ChosenCache::Off(_) => after == before,
        ChosenCache::Memory(c) => after is Memory && moved_on(c, after->Memory_0, seconds),
    }
}

/// The cache that the settings choose: none, or one in memory.
pub enum ChosenCache {
    Off(NoopCache),
    Memory(MemoryCache),
}

impl ChosenCache {
    /// The cache in memory if `enabled`, else the cache that keeps nothing.
    pub fn select(enabled: bool) -> (out: ChosenCache)
        ensures
            out.entries() == Map::<Seq<char>, Seq<u8>>::empty(),
            out.exact() == enabled,
    {
        if enabled {
            ChosenCache::Memory(MemoryCache::new())
        } else {
            ChosenCache::Off(NoopCache)
        }
    }

    /// Moves the time of the cache on by `seconds`: of the cache in memory
    /// as its own `advance` does; the cache that keeps nothing has no time.
    pub fn advance(&mut self, seconds: u64)
        ensures
            advanced(*old(self), *final(self), seconds),
            within(final(self).entries(), old(self).entries()),
            final(self).exact() == old(self).exact(),
    {
        match self {
            ChosenCache::Off(_) => {},
            ChosenCache::Memory(c) => {
                c.advance(seconds);
            },
        }
    }
}

impl Cache for ChosenCache {
    open spec fn entries(&self) -> Map<Seq<char>, Seq<u8>> {
        match self {
            ChosenCache::Off(c) => c.entries(),
            ChosenCache::Memory(c) => c.entries(),
        }
    }

    open spec fn exact(&self) -> bool {
        self is Memory
    }

    fn get(&self, key: &str) -> (out: Option<Vec<u8>>) {
        match self {
            ChosenCache::Off(c) => c.get(key),
            ChosenCache::Memory(c) => c.get(key),
        }
    }

    fn set(&mut self, key: &str, value: &[u8], ttl: Option<u64>) {
        match self {
            ChosenCache::Off(c) => {
                c.set(key, value, ttl);
            },
            ChosenCache::Memory(c) => {
                c.set(key, value, ttl);
            },
        }
    }

    fn del(&mut self, key: &str) {
        match self {
            ChosenCache::Off(c) => {
                c.del(key);
            },
            ChosenCache::Memory(c) => {
                c.del(key);
            },
        }
    }

    fn del_prefix(&mut self, prefix: &str) {
        match self {
            ChosenCache::Off(c) => {
                c.del_prefix(prefix);
            },
            ChosenCache::Memory(c) => {
                c.del_prefix(prefix);
            },
        }
    }
}

impl<S: SearchEngine> AppState<MemoryCache, S> {
    /// Moves the time of the cache on by `seconds`: afterwards the cache
    /// serves what it was to serve at the later time, which it served
    /// before. The store and the search index stay as they are.
    pub fn advance_cache(&mut self, seconds: u64)
        requires
            old(self).in_step(),
        ensures
            moved_on(old(self).cache_held(), final(self).cache_held(), seconds),
            final(self).store() == old(self).store(),
            final(self).index() == old(self).index(),
            within(final(self).cached(), old(self).cached()),
            seconds == 0 ==> final(self).cached() == old(self).cached(),
            final(self).in_step(),
    {
        let ghost before = self.cache.entries();
        self.cache.advance(seconds);
        proof {
            lemma_coherent_when_less(before, self.cache.entries(), self.db@);
        }
    }
}

impl<S: SearchEngine> AppState<ChosenCache, S> {
    /// Moves the time of the cache on by `seconds`: afterwards the cache in
    /// memory serves what it was to serve at the later time, which it
    /// served before; the cache that keeps nothing stays as it is. The
    /// store and the search index stay as they are.
    pub fn advance_cache(&mut self, seconds: u64)
        requires
            old(self).in_step(),
        ensures
            advanced(old(self).cache_held(), final(self).cache_held(), seconds),
            final(self).store() == old(self).store(),
            final(self).index() == old(self).index(),
            within(final(self).cached(), old(self).cached()),
            final(self).in_step(),
            final(self).cache_is_exact() == old(self).cache_is_exact(),
    {
        let ghost before = self.cache.entries();
        self.cache.advance(seconds);
        proof {
            lemma_coherent_when_less(before, self.cache.entries(), self.db@);
        }
    }
}

} // verus!
