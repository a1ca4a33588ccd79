//! A keyed store whose entries carry an absolute expiry.
//!
//! Time is a count of milliseconds on a clock that never runs backwards. The
//! store never reads a clock itself: every operation that needs the present
//! moment takes it as an argument.

use crate::keyed::{
    distinct, holds_key, index_of, lemma_lists_matches_count, lemma_lists_matches_step,
    lemma_model_absent, lemma_model_at, lemma_model_dom, lemma_model_push, lemma_model_remove,
    lemma_model_update, lists_matches, model_of, position, Slot,
};
use crate::text::has_prefix;
use vstd::prelude::*;

verus! {

/// A stored value and the moment from which it counts as expired.
pub struct CacheEntry<T> {
    pub value: T,
    pub exp: u64,
}

/// A mapping from string keys to entries, held in insertion order.
pub struct MemDB<T> {
    slots: Vec<Slot<CacheEntry<T>>>,
}

/// The expiry of an entry made at `now` to live `ttl_secs` seconds: the
/// moment `now + 1000 * ttl_secs`, or the last moment of the clock where that
/// sum lies beyond it.
pub open spec fn expiry(now: u64, ttl_secs: u64) -> u64 {
    if now + ttl_secs * 1000 <= u64::MAX {
        (now + ttl_secs * 1000) as u64
    } else {
        u64::MAX
    }
}

/// What is left of `m` once every entry with `exp <= now` is dropped.
pub open spec fn live_at<T>(m: Map<Seq<char>, CacheEntry<T>>, now: u64) -> Map<
    Seq<char>,
    CacheEntry<T>,
> {
    Map::new(|k: Seq<char>| m.contains_key(k) && m[k].exp > now, |k: Seq<char>| m[k])
}

/// The keys of `m` that begin with `prefix`.
pub open spec fn keys_with_prefix<V>(m: Map<Seq<char>, V>, prefix: Seq<char>) -> Set<Seq<char>> {
    m.dom().filter(|k: Seq<char>| prefix.is_prefix_of(k))
}

/// Computes `expiry(now, ttl_secs)`.
pub fn expiry_of(now: u64, ttl_secs: u64) -> (exp: u64)
    ensures
        exp == expiry(now, ttl_secs),
{
    let span: u128 = ttl_secs as u128 * 1000;
    let sum: u128 = now as u128 + span;
    if sum <= u64::MAX as u128 {
        sum as u64
    } else {
        u64::MAX
    }
}

spec fn came_from<T>(slots: Seq<Slot<CacheEntry<T>>>, x: Slot<CacheEntry<T>>, from: int) -> bool {
    exists|a: int| from <= a < slots.len() && #[trigger] slots[a] == x
}

/// Whether `kept` holds exactly the slots of `all[from..]` that are live at `now`.
spec fn kept_live<T>(all: Seq<Slot<CacheEntry<T>>>, kept: Seq<Slot<CacheEntry<T>>>, from: int, now: u64) -> bool {
    &&& distinct(kept)
    &&& forall|j: int|
        0 <= j < kept.len() ==> came_from(all, #[trigger] kept[j], from) && kept[j].value.exp > now
    &&& forall|a: int|
        from <= a < all.len() && (#[trigger] all[a]).value.exp > now ==> came_from(kept, all[a], 0)
}

/// Going back by one slot, the kept slots grow by that slot exactly where it is live.
proof fn lemma_kept_live_step<T>(all: Seq<Slot<CacheEntry<T>>>, kept: Seq<Slot<CacheEntry<T>>>, from: int, now: u64)
    requires
        distinct(all),
        0 < from <= all.len(),
        kept_live(all, kept, from, now),
    ensures
        all[from - 1].value.exp > now ==> kept_live(all, kept.push(all[from - 1]), from - 1, now),
        all[from - 1].value.exp <= now ==> kept_live(all, kept, from - 1, now),
{
    let x = all[from - 1];
    if x.value.exp > now {
        let next = kept.push(x);
        assert forall|i: int, j: int| 0 <= i < j < next.len() implies (#[trigger] next[i]).key@ != (
        #[trigger] next[j]).key@ by {
            if j == kept.len() {
                assert(came_from(all, kept[i], from));
                let a = choose|a: int| from <= a < all.len() && #[trigger] all[a] == kept[i];
                assert(all[from - 1].key@ != all[a].key@);
            } else {
                assert(kept[i].key@ != kept[j].key@);
            }
        }
        assert forall|j: int| 0 <= j < next.len() implies came_from(
            all,
            #[trigger] next[j],
            from - 1,
        ) && next[j].value.exp > now by {
            if j == kept.len() {
                assert(all[from - 1] == next[j]);
            } else {
                assert(came_from(all, kept[j], from));
                let a = choose|a: int| from <= a < all.len() && #[trigger] all[a] == kept[j];
                assert(all[a] == next[j]);
            }
        }
        assert forall|a: int| from - 1 <= a < all.len() && (#[trigger] all[a]).value.exp
            > now implies came_from(next, all[a], 0) by {
            if a == from - 1 {
                assert(next[kept.len() as int] == all[a]);
            } else {
                assert(came_from(kept, all[a], 0));
                let j = choose|j: int| 0 <= j < kept.len() && #[trigger] kept[j] == all[a];
                assert(next[j] == all[a]);
            }
        }
    } else {
        assert forall|j: int| 0 <= j < kept.len() implies came_from(
            all,
            #[trigger] kept[j],
            from - 1,
        ) && kept[j].value.exp > now by {
            assert(came_from(all, kept[j], from));
            let a = choose|a: int| from <= a < all.len() && #[trigger] all[a] == kept[j];
            assert(all[a] == kept[j]);
        }
    }
}

/// Once every slot was looked at, the kept slots stand for the live part of the map.
proof fn lemma_kept_live_model<T>(all: Seq<Slot<CacheEntry<T>>>, kept: Seq<Slot<CacheEntry<T>>>, now: u64)
    requires
        distinct(all),
        kept_live(all, kept, 0, now),
    ensures
        model_of(kept) == live_at(model_of(all), now),
{
    let target = live_at(model_of(all), now);
    assert forall|k: Seq<char>| #[trigger] model_of(kept).contains_key(k) == target.contains_key(
        k,
    ) by {
        if holds_key(kept, k) {
            let j = index_of(kept, k);
            assert(came_from(all, kept[j], 0));
            let a = choose|a: int| 0 <= a < all.len() && #[trigger] all[a] == kept[j];
            lemma_model_at(all, a);
        }
        if target.contains_key(k) {
            let a = index_of(all, k);
            lemma_model_at(all, a);
            assert(came_from(kept, all[a], 0));
            let j = choose|j: int| 0 <= j < kept.len() && #[trigger] kept[j] == all[a];
            assert(kept[j].key@ == k);
        }
    }
    assert forall|k: Seq<char>| model_of(kept).contains_key(k) implies #[trigger] model_of(
        kept,
    )[k] == target[k] by {
        let j = index_of(kept, k);
        lemma_model_at(kept, j);
        assert(came_from(all, kept[j], 0));
        let a = choose|a: int| 0 <= a < all.len() && #[trigger] all[a] == kept[j];
        lemma_model_at(all, a);
    }
    assert(model_of(kept) =~= target);
}

/// Whether one of the first `upto` slots has the key `k`.
impl<T> View for MemDB<T> {
    type V = Map<Seq<char>, CacheEntry<T>>;

    closed spec fn view(&self) -> Map<Seq<char>, CacheEntry<T>> {
        model_of(self.slots@)
    }
}

impl<T> MemDB<T> {
    /// No key is held twice.
    #[verifier::type_invariant]
    spec fn well_formed(self) -> bool {
        distinct(self.slots@)
    }

    /// An empty store.
    pub fn new() -> (db: Self)
        ensures
            db@ == Map::<Seq<char>, CacheEntry<T>>::empty(),
            db@.dom().finite(),
    {
        let db = MemDB { slots: Vec::new() };
        assert(db@ =~= Map::<Seq<char>, CacheEntry<T>>::empty());
        db
    }

    fn put(&mut self, key: &str, entry: CacheEntry<T>)
        ensures
            final(self)@ == old(self)@.insert(key@, entry),
            old(self)@.dom().finite(),
            final(self)@.dom().finite(),
    {
        proof {
            use_type_invariant(&*self);
            lemma_model_dom(self.slots@);
        }
        let slot = Slot { key: key.to_owned(), value: entry };
        let found = position(&self.slots, key);
        let mut slots = self.take_slots();
        match found {
            Some(i) => {
                proof {
                    lemma_model_update(slots@, i as int, slot);
                }
                slots.set(i, slot);
            },
            None => {
                proof {
                    lemma_model_push(slots@, slot);
                }
                slots.push(slot);
            },
        }
        proof {
            lemma_model_dom(slots@);
        }
        self.slots = slots;
    }

    /// Moves the slots out, leaving the store empty, so that they can be
    /// changed and put back in one assignment.
    fn take_slots(&mut self) -> (slots: Vec<Slot<CacheEntry<T>>>)
        ensures
            slots == old(self).slots,
            final(self).slots@.len() == 0,
    {
        let mut slots = Vec::new();
        core::mem::swap(&mut self.slots, &mut slots);
        slots
    }

    /// Stores `value` under `key`, to expire `ttl_secs` seconds after `now`.
    /// An entry already under `key` is replaced. Never fails.
    pub fn insert(&mut self, key: &str, value: T, ttl_secs: u64, now: u64) -> (done: Result<
        (),
        String,
    >)
        ensures
            done is Ok,
            final(self)@ == old(self)@.insert(
                key@,
                CacheEntry { value, exp: expiry(now, ttl_secs) },
            ),
            old(self)@.dom().finite(),
            final(self)@.dom().finite(),
    {
        let exp = expiry_of(now, ttl_secs);
        self.put(key, CacheEntry { value, exp });
        Ok(())
    }

    /// Stores `value` under `key` with the expiry `exp` as given, so that a
    /// changed value keeps the lifetime of the one it replaces. Never fails.
    pub fn update(&mut self, key: &str, value: T, exp: u64) -> (done: Result<(), String>)
        ensures
            done is Ok,
            final(self)@ == old(self)@.insert(key@, CacheEntry { value, exp }),
            old(self)@.dom().finite(),
            final(self)@.dom().finite(),
    {
        self.put(key, CacheEntry { value, exp });
        Ok(())
    }

    /// Takes the entry under `key` out of the store and returns it, if there
    /// is one.
    pub fn remove(&mut self, key: &str) -> (taken: Option<CacheEntry<T>>)
        ensures
            final(self)@ == old(self)@.remove(key@),
            taken == if old(self)@.contains_key(key@) {
                Some(old(self)@[key@])
            } else {
                None
            },
            old(self)@.dom().finite(),
            final(self)@.dom().finite(),
    {
        proof {
            use_type_invariant(&*self);
            lemma_model_dom(self.slots@);
        }
        match position(&self.slots, key) {
            Some(i) => {
                proof {
                    lemma_model_at(self.slots@, i as int);
                    lemma_model_remove(self.slots@, i as int);
                }
                let mut slots = self.take_slots();
                let slot = slots.remove(i);
                proof {
                    lemma_model_dom(slots@);
                }
                self.slots = slots;
                Some(slot.value)
            },
            None => {
                proof {
                    lemma_model_absent(self.slots@, key@);
                    assert(self@.remove(key@) =~= self@);
                }
                None
            },
        }
    }

    /// Drops every entry whose expiry is `now` or earlier, and returns how
    /// many were dropped.
    pub fn sweep(&mut self, now: u64) -> (dropped: usize)
        ensures
            final(self)@ == live_at(old(self)@, now),
            dropped == old(self)@.dom().len() - final(self)@.dom().len(),
            old(self)@.dom().finite(),
            final(self)@.dom().finite(),
    {
        proof {
            use_type_invariant(&*self);
        }
        let mut slots = self.take_slots();
        let ghost all = slots@;
        let total = slots.len();
        let mut kept: Vec<Slot<CacheEntry<T>>> = Vec::new();
        let mut dropped: usize = 0;
        while slots.len() > 0
            invariant
                distinct(all),
                all.len() == total,
                slots@ == all.take(slots@.len() as int),
                slots@.len() <= all.len(),
                kept_live(all, kept@, slots@.len() as int, now),
                kept@.len() + dropped + slots@.len() == all.len(),
            decreases slots@.len(),
        {
            proof {
                lemma_kept_live_step(all, kept@, slots@.len() as int, now);
            }
            let slot = slots.pop().unwrap();
            if slot.value.exp > now {
                kept.push(slot);
            } else {
                dropped += 1;
            }
        }
        proof {
            lemma_kept_live_model(all, kept@, now);
            lemma_model_dom(all);
            lemma_model_dom(kept@);
        }
        self.slots = kept;
        dropped
    }

    /// The number of entries.
    pub fn len(&self) -> (count: usize)
        ensures
            count == self@.dom().len(),
            self@.dom().finite(),
    {
        proof {
            use_type_invariant(self);
            lemma_model_dom(self.slots@);
        }
        self.slots.len()
    }

    /// The number of keys that begin with `prefix`, counted no further than
    /// `limit`: the walk over the keys ends as soon as `limit` is reached.
    pub fn count_prefix(&self, prefix: &str, limit: usize) -> (count: usize)
        ensures
            self@.dom().finite(),
            keys_with_prefix(self@, prefix@).finite(),
            count == if keys_with_prefix(self@, prefix@).len() < limit {
                keys_with_prefix(self@, prefix@).len()
            } else {
                limit as nat
            },
    {
        proof {
            use_type_invariant(self);
            lemma_model_dom(self.slots@);
        }
        let mut count: usize = 0;
        let mut i: usize = 0;
        let ghost mut matched: Seq<Seq<char>> = Seq::empty();
        while i < self.slots.len() && count < limit
            invariant
                distinct(self.slots@),
                i <= self.slots@.len(),
                count <= limit,
                count == matched.len(),
                lists_matches(self.slots@, i as int, prefix@, matched),
            decreases self.slots@.len() - i,
        {
            proof {
                lemma_lists_matches_step(self.slots@, i as int, prefix@, matched);
            }
            if has_prefix(self.slots[i].key.as_str(), prefix) {
                count += 1;
                proof {
                    matched = matched.push(self.slots@[i as int].key@);
                }
            }
            i += 1;
        }
        proof {
            lemma_lists_matches_count(self.slots@, i as int, prefix@, matched);
        }
        count
    }

    /// Whether an entry is stored under `key`.
    pub fn contains_key(&self, key: &str) -> (found: bool)
        ensures
            found == self@.contains_key(key@),
            self@.dom().finite(),
    {
        self.get(key).is_some()
    }

    /// The entry under `key`, if there is one. Expiry is not looked at: an
    /// entry stays until it is swept, replaced or removed.
    pub fn get(&self, key: &str) -> (found: Option<&CacheEntry<T>>)
        ensures
            match found {
                Some(entry) => self@.contains_key(key@) && *entry == self@[key@],
                None => !self@.contains_key(key@),
            },
            self@.dom().finite(),
    {
        proof {
            use_type_invariant(self);
            lemma_model_dom(self.slots@);
        }
        match position(&self.slots, key) {
            Some(i) => {
                proof {
                    lemma_model_at(self.slots@, i as int);
                }
                Some(&self.slots[i].value)
            },
            None => None,
        }
    }
}

/// How long the sweeper rests between two sweeps, in milliseconds.
pub const SWEEP_INTERVAL_MS: u64 = 1000;

/// What a sweep did: how many entries it dropped, and how many it left.
#[derive(Clone, Copy, Debug, PartialEq, Eq, Structural)]
pub struct SweepReport {
    pub removed: usize,
    pub remaining: usize,
}

/// The sweeper of one store. It remembers how many entries the store held
/// when it last had something to report.
pub struct Sweeper {
    last_count: usize,
}

impl View for Sweeper {
    type V = usize;

    closed spec fn view(&self) -> usize {
        self.last_count
    }
}

impl Sweeper {
    /// A sweeper that has reported nothing yet: its count is zero.
    pub fn new() -> (sweeper: Self)
        ensures
            sweeper@ == 0,
    {
        Sweeper { last_count: 0 }
    }

    /// Sweeps the store at `now`. There is something to report where the
    /// sweep dropped an entry, or left another number of entries than was
    /// last reported; the number left is remembered.
    pub fn tick<T>(&mut self, db: &mut MemDB<T>, now: u64) -> (report: Option<SweepReport>)
        ensures
            final(db)@ == live_at(old(db)@, now),
            old(db)@.dom().finite(),
            final(db)@.dom().finite(),
            final(self)@ == final(db)@.dom().len(),
            report == if old(db)@.dom().len() != final(db)@.dom().len() || final(db)@.dom().len()
                != old(self)@ {
                Some(
                    SweepReport {
                        removed: (old(db)@.dom().len() - final(db)@.dom().len()) as usize,
                        remaining: final(db)@.dom().len() as usize,
                    },
                )
            } else {
                None
            },
    {
        let removed = db.sweep(now);
        let remaining = db.len();
        if removed != 0 || remaining != self.last_count {
            self.last_count = remaining;
            Some(SweepReport { removed, remaining })
        } else {
            None
        }
    }
}

/// An entry made at `made` to live `ttl_secs` seconds, with no change to it
/// since, is found with its value after any sweep before `made + 1000 *
/// ttl_secs`, and is gone after any sweep at that moment or later. The sum
/// must lie on the clock.
pub proof fn lemma_insert_then_sweep<T>(
    m: Map<Seq<char>, CacheEntry<T>>,
    key: Seq<char>,
    value: T,
    ttl_secs: u64,
    made: u64,
    now: u64,
)
    requires
        ttl_secs > 0,
        made + ttl_secs * 1000 <= u64::MAX,
        made <= now,
    ensures
        ({
            let stored = m.insert(key, CacheEntry { value, exp: expiry(made, ttl_secs) });
            let swept = live_at(stored, now);
            &&& stored.contains_key(key) && stored[key].value == value
            &&& now < made + ttl_secs * 1000 ==> swept.contains_key(key) && swept[key].value
                == value
            &&& now >= made + ttl_secs * 1000 ==> !swept.contains_key(key)
        }),
{
}

/// Sweeping twice leaves what one sweep at the later of the two moments
/// leaves: however often the store is swept up to a moment, an entry that
/// expires after it stays.
pub proof fn lemma_sweeps_compose<T>(m: Map<Seq<char>, CacheEntry<T>>, first: u64, second: u64)
    ensures
        live_at(live_at(m, first), second) == live_at(
            m,
            if first >= second {
                first
            } else {
                second
            },
        ),
{
    let later = if first >= second {
        first
    } else {
        second
    };
    assert(live_at(live_at(m, first), second) =~= live_at(m, later));
}

/// A sweep drops entries and changes none: what is left is part of what was
/// there, and an entry that is not yet expired is left as it was.
pub proof fn lemma_sweep_keeps_live<T>(m: Map<Seq<char>, CacheEntry<T>>, now: u64)
    ensures
        live_at(m, now).dom().subset_of(m.dom()),
        forall|k: Seq<char>| #[trigger]
            live_at(m, now).contains_key(k) ==> live_at(m, now)[k] == m[k],
        forall|k: Seq<char>|
            m.contains_key(k) && m[k].exp > now ==> #[trigger] live_at(m, now).contains_key(k),
{
}

/// Of a store that holds part of what another holds, no more keys begin
/// with a prefix.
pub proof fn lemma_fewer_keys_fewer_matches<V>(
    part: Map<Seq<char>, V>,
    whole: Map<Seq<char>, V>,
    prefix: Seq<char>,
)
    requires
        whole.dom().finite(),
        part.dom().subset_of(whole.dom()),
    ensures
        keys_with_prefix(part, prefix).finite(),
        keys_with_prefix(part, prefix).len() <= keys_with_prefix(whole, prefix).len(),
{
    whole.dom().lemma_len_filter(|k: Seq<char>| prefix.is_prefix_of(k));
    assert(keys_with_prefix(part, prefix).subset_of(keys_with_prefix(whole, prefix)));
    vstd::set_lib::lemma_len_subset(
        keys_with_prefix(part, prefix),
        keys_with_prefix(whole, prefix),
    );
}

/// Putting one entry into a store adds at most one to the number of keys
/// that begin with a prefix, and nothing where the entry's key does not
/// begin with it.
pub proof fn lemma_put_adds_one_match<V>(
    before: Map<Seq<char>, V>,
    key: Seq<char>,
    value: V,
    prefix: Seq<char>,
)
    requires
        before.dom().finite(),
    ensures
        keys_with_prefix(before, prefix).finite(),
        keys_with_prefix(before.insert(key, value), prefix).finite(),
        keys_with_prefix(before.insert(key, value), prefix).len() <= keys_with_prefix(
            before,
            prefix,
        ).len() + 1,
        !prefix.is_prefix_of(key) ==> keys_with_prefix(before.insert(key, value), prefix)
            == keys_with_prefix(before, prefix),
{
    let old_keys = keys_with_prefix(before, prefix);
    let new_keys = keys_with_prefix(before.insert(key, value), prefix);
    before.dom().lemma_len_filter(|k: Seq<char>| prefix.is_prefix_of(k));
    if prefix.is_prefix_of(key) {
        assert(new_keys =~= old_keys.insert(key));
    } else {
        assert(new_keys =~= old_keys);
    }
}

} // verus!
