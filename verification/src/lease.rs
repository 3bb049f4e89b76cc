//! The storage lease manager: a keyed store whose entries expire.
//!
//! Every entry carries the last sequence position at which it can still be
//! read. An entry whose lease has lapsed behaves as if it had never been
//! written. Reading or writing through [`LeaseStore::get`] and
//! [`LeaseStore::set`] renews the lease under the one policy that all entries
//! share.

use vstd::prelude::*;
use crate::storage_types::{fits, DataKey, Value, LEASE_BUMP_AMOUNT, LEASE_LIFETIME_THRESHOLD};

verus! {

/// A stored value and the last sequence position at which it is readable.
#[derive(Debug, PartialEq, Eq)]
pub struct Lease {
    pub value: Value,
    pub live_until: u32,
}

/// The contents of a store: each key that was ever written, with its lease.
pub type Entries = Map<DataKey, Lease>;

/// Whether `key` can be read at position `now`.
pub open spec fn is_live(entries: Entries, now: u32, key: DataKey) -> bool {
    entries.contains_key(key) && entries[key].live_until >= now
}

/// What a read of `key` at position `now` finds.
pub open spec fn value_at(entries: Entries, now: u32, key: DataKey) -> Option<Value> {
    if is_live(entries, now, key) {
        Some(entries[key].value)
    } else {
        None
    }
}

/// The position `extend_to` ahead of `now`, or the last position there is.
pub open spec fn lease_end(now: u32, extend_to: u32) -> u32 {
    if now + extend_to > u32::MAX {
        u32::MAX
    } else {
        (now + extend_to) as u32
    }
}

/// The contents after `value` was written under `key` at position `now`. A
/// live entry keeps its lease; any other starts with a lease that ends at
/// `now`.
pub open spec fn written(entries: Entries, now: u32, key: DataKey, value: Value) -> Entries {
    let live_until = if is_live(entries, now, key) {
        entries[key].live_until
    } else {
        now
    };
    entries.insert(key, Lease { value, live_until })
}

/// The contents after the lease of `key` was renewed at position `now`: a
/// live entry with fewer than `min_remaining` positions left now ends
/// `extend_to` ahead of `now`, unless it already ends later. Nothing else
/// changes, and a lapsed entry stays lapsed.
pub open spec fn renewed(
    entries: Entries,
    now: u32,
    key: DataKey,
    min_remaining: u32,
    extend_to: u32,
) -> Entries {
    if is_live(entries, now, key) && entries[key].live_until - now < min_remaining && lease_end(
        now,
        extend_to,
    ) > entries[key].live_until {
        entries.insert(
            key,
            Lease { value: entries[key].value, live_until: lease_end(now, extend_to) },
        )
    } else {
        entries
    }
}

/// The contents after an access to `key` at position `now` under the shared
/// lease policy.
pub open spec fn touched(entries: Entries, now: u32, key: DataKey) -> Entries {
    renewed(entries, now, key, LEASE_LIFETIME_THRESHOLD, LEASE_BUMP_AMOUNT)
}

/// The contents after `value` was stored under `key` at position `now` and
/// its lease renewed under the shared policy.
pub open spec fn stored(entries: Entries, now: u32, key: DataKey, value: Value) -> Entries {
    touched(written(entries, now, key, value), now, key)
}

/// Every value is of the kind its key is for, and within its bounds.
pub open spec fn valid(entries: Entries) -> bool {
    forall|key: DataKey| #[trigger] entries.contains_key(key) ==> fits(key, entries[key].value)
}

/// Two stores that a reader at position `now` cannot tell apart.
pub open spec fn same_data(left: Entries, right: Entries, now: u32) -> bool {
    forall|key: DataKey| #[trigger] value_at(left, now, key) == value_at(right, now, key)
}

struct Slot {
    key: DataKey,
    lease: Lease,
}

/// A keyed store with leases.
pub struct LeaseStore {
    slots: Vec<Slot>,
}

impl View for LeaseStore {
    type V = Entries;

    closed spec fn view(&self) -> Entries {
        Map::new(
            |key: DataKey| exists|i: int| 0 <= i < self.slots@.len() && self.slots@[i].key == key,
            |key: DataKey| self.slots@[self.index_of(key)].lease,
        )
    }
}

impl LeaseStore {
    /// A slot that holds `key`, where there is one.
    closed spec fn index_of(&self, key: DataKey) -> int {
        choose|i: int| 0 <= i < self.slots@.len() && self.slots@[i].key == key
    }

    /// No key is held twice.
    pub closed spec fn keys_distinct(&self) -> bool {
        forall|i: int, j: int|
            0 <= i < j < self.slots@.len() ==> self.slots@[i].key != self.slots@[j].key
    }

    /// The store's invariant.
    pub open spec fn wf(&self) -> bool {
        self.keys_distinct() && valid(self@)
    }

    proof fn lemma_slot(&self, i: int)
        requires
            self.keys_distinct(),
            0 <= i < self.slots@.len(),
        ensures
            self@.contains_key(self.slots@[i].key),
            self@[self.slots@[i].key] == self.slots@[i].lease,
    {
        let key = self.slots@[i].key;
        let j = self.index_of(key);
        assert(i == j);
    }

    /// An empty store.
    pub fn new() -> (store: LeaseStore)
        ensures
            store.wf(),
            store@ == Entries::empty(),
    {
        let store = LeaseStore { slots: Vec::new() };
        assert(store@ =~= Entries::empty());
        store
    }

    fn find(&self, key: DataKey) -> (found: Option<usize>)
        requires
            self.keys_distinct(),
        ensures
            match found {
                Some(i) => i < self.slots@.len() && self.slots@[i as int].key == key
                    && self@.contains_key(key) && self@[key] == self.slots@[i as int].lease,
                None => !self@.contains_key(key),
            },
    {
        let mut i: usize = 0;
        while i < self.slots.len()
            invariant
                self.keys_distinct(),
                i <= self.slots@.len(),
                forall|j: int| 0 <= j < i ==> self.slots@[j].key != key,
            decreases self.slots@.len() - i,
        {
            if self.slots[i].key == key {
                proof {
                    self.lemma_slot(i as int);
                }
                return Some(i);
            }
            i += 1;
        }
        None
    }

    /// The last position at which `key` is readable, if it was ever written.
    pub fn live_until(&self, key: DataKey) -> (end: Option<u32>)
        requires
            self.wf(),
        ensures
            end == (if self@.contains_key(key) {
                Some(self@[key].live_until)
            } else {
                None
            }),
    {
        match self.find(key) {
            Some(i) => Some(self.slots[i].lease.live_until),
            None => None,
        }
    }

    /// Reads `key` at position `now`. The lease is left as it is.
    pub fn read(&self, now: u32, key: DataKey) -> (value: Option<Value>)
        requires
            self.wf(),
        ensures
            value == value_at(self@, now, key),
    {
        match self.find(key) {
            Some(i) => {
                if self.slots[i].lease.live_until >= now {
                    Some(self.slots[i].lease.value.clone())
                } else {
                    None
                }
            },
            None => None,
        }
    }

    /// Writes `value` under `key` at position `now`, replacing what was there.
    pub fn write(&mut self, now: u32, key: DataKey, value: Value)
        requires
            old(self).wf(),
            fits(key, value),
        ensures
            final(self).wf(),
            final(self)@ == written(old(self)@, now, key, value),
    {
        match self.find(key) {
            Some(i) => {
                let held: u32 = self.slots[i].lease.live_until;
                let live_until: u32 = if held >= now {
                    held
                } else {
                    now
                };
                self.slots.set(i, Slot { key, lease: Lease { value, live_until } });
                proof {
                    self.lemma_replaced(*old(self), i as int);
                }
            },
            None => {
                self.slots.push(Slot { key, lease: Lease { value, live_until: now } });
                proof {
                    self.lemma_appended(*old(self));
                }
            },
        }
    }

    /// Renews the lease of `key` at position `now`.
    pub fn renew(&mut self, now: u32, key: DataKey, min_remaining: u32, extend_to: u32)
        requires
            old(self).wf(),
        ensures
            final(self).wf(),
            final(self)@ == renewed(old(self)@, now, key, min_remaining, extend_to),
    {
        match self.find(key) {
            Some(i) => {
                let held: u32 = self.slots[i].lease.live_until;
                let end: u32 = match now.checked_add(extend_to) {
                    Some(end) => end,
                    None => u32::MAX,
                };
                if held >= now && held - now < min_remaining && end > held {
                    let value = self.slots[i].lease.value.clone();
                    self.slots.set(i, Slot { key, lease: Lease { value, live_until: end } });
                    proof {
                        self.lemma_replaced(*old(self), i as int);
                    }
                }
            },
            None => {},
        }
    }

    /// Reads `key` at position `now` and renews its lease under the shared
    /// policy.
    pub fn get(&mut self, now: u32, key: DataKey) -> (value: Option<Value>)
        requires
            old(self).wf(),
        ensures
            final(self).wf(),
            final(self)@ == touched(old(self)@, now, key),
            value == value_at(old(self)@, now, key),
    {
        self.renew(now, key, LEASE_LIFETIME_THRESHOLD, LEASE_BUMP_AMOUNT);
        self.read(now, key)
    }

    /// Stores `value` under `key` at position `now` and renews its lease
    /// under the shared policy.
    pub fn set(&mut self, now: u32, key: DataKey, value: Value)
        requires
            old(self).wf(),
            fits(key, value),
        ensures
            final(self).wf(),
            final(self)@ == stored(old(self)@, now, key, value),
    {
        self.write(now, key, value);
        self.renew(now, key, LEASE_LIFETIME_THRESHOLD, LEASE_BUMP_AMOUNT);
    }

    proof fn lemma_replaced(&self, before: LeaseStore, i: int)
        requires
            before.keys_distinct(),
            0 <= i < before.slots@.len(),
            self.slots@.len() == before.slots@.len(),
            self.slots@[i].key == before.slots@[i].key,
            forall|j: int|
                0 <= j < before.slots@.len() && j != i ==> self.slots@[j] == before.slots@[j],
        ensures
            self.keys_distinct(),
            self@ == before@.insert(self.slots@[i].key, self.slots@[i].lease),
    {
        assert(self.keys_distinct()) by {
            assert forall|a: int, b: int| 0 <= a < b < self.slots@.len() implies self.slots@[a].key
                != self.slots@[b].key by {
                assert(self.slots@[a].key == before.slots@[a].key);
                assert(self.slots@[b].key == before.slots@[b].key);
            }
        }
        let target = before@.insert(self.slots@[i].key, self.slots@[i].lease);
        assert forall|key: DataKey| self@.contains_key(key) == target.contains_key(key) by {
            if self@.contains_key(key) {
                let j = self.index_of(key);
                assert(before.slots@[j].key == key);
            }
            if before@.contains_key(key) {
                let j = before.index_of(key);
                assert(self.slots@[j].key == key);
            }
            if key == self.slots@[i].key {
                self.lemma_slot(i);
            }
        }
        assert forall|key: DataKey| self@.contains_key(key) implies self@[key] == target[key] by {
            let j = self.index_of(key);
            self.lemma_slot(j);
            before.lemma_slot(j);
        }
        assert(self@ =~= target);
    }

    proof fn lemma_appended(&self, before: LeaseStore)
        requires
            before.keys_distinct(),
            self.slots@.len() == before.slots@.len() + 1,
            forall|j: int| 0 <= j < before.slots@.len() ==> self.slots@[j] == before.slots@[j],
            !before@.contains_key(self.slots@.last().key),
        ensures
            self.keys_distinct(),
            self@ == before@.insert(self.slots@.last().key, self.slots@.last().lease),
    {
        let n = before.slots@.len() as int;
        assert(self.keys_distinct()) by {
            assert forall|a: int, b: int| 0 <= a < b < self.slots@.len() implies self.slots@[a].key
                != self.slots@[b].key by {
                assert(self.slots@[a].key == before.slots@[a].key);
                if b < n {
                    assert(self.slots@[b].key == before.slots@[b].key);
                } else {
                    before.lemma_slot(a);
                }
            }
        }
        let target = before@.insert(self.slots@[n].key, self.slots@[n].lease);
        assert forall|key: DataKey| self@.contains_key(key) == target.contains_key(key) by {
            if self@.contains_key(key) {
                let j = self.index_of(key);
                if j < n {
                    assert(before.slots@[j].key == key);
                }
            }
            if before@.contains_key(key) {
                let j = before.index_of(key);
                assert(self.slots@[j].key == key);
            }
            if key == self.slots@[n].key {
                self.lemma_slot(n);
            }
        }
        assert forall|key: DataKey| self@.contains_key(key) implies self@[key] == target[key] by {
            let j = self.index_of(key);
            self.lemma_slot(j);
            if j < n {
                before.lemma_slot(j);
            }
        }
        assert(self@ =~= target);
    }
}

/// A renewal changes no value and wakes no lapsed entry: a reader at `now`
/// sees what it saw before, and a valid store stays valid.
pub proof fn lemma_renewal_keeps_data(
    entries: Entries,
    now: u32,
    key: DataKey,
    min_remaining: u32,
    extend_to: u32,
)
    ensures
        same_data(entries, renewed(entries, now, key, min_remaining, extend_to), now),
        valid(entries) ==> valid(renewed(entries, now, key, min_remaining, extend_to)),
{
    let after = renewed(entries, now, key, min_remaining, extend_to);
    assert forall|other: DataKey| #[trigger]
        value_at(entries, now, other) == value_at(after, now, other) by {}
    if valid(entries) {
        assert forall|other: DataKey| #[trigger] after.contains_key(other) implies fits(
            other,
            after[other].value,
        ) by {
            assert(entries.contains_key(other));
        }
    }
}

/// A renewal of `key` leaves every other key as it was, at every position,
/// and what is read under `key` at `now` as it was.
pub proof fn lemma_touched_frame(
    entries: Entries,
    now: u32,
    key: DataKey,
    other: DataKey,
    at: u32,
)
    ensures
        other != key ==> value_at(touched(entries, now, key), at, other) == value_at(
            entries,
            at,
            other,
        ),
        value_at(touched(entries, now, key), now, other) == value_at(entries, now, other),
{
}

/// Storing under `key` leaves every other key as it was, at every position.
pub proof fn lemma_stored_frame(
    entries: Entries,
    now: u32,
    key: DataKey,
    value: Value,
    other: DataKey,
    at: u32,
)
    requires
        other != key,
    ensures
        value_at(stored(entries, now, key, value), at, other) == value_at(entries, at, other),
{
}

/// Where two stores read the same under a key at `now`, they still do after
/// the same renewal, and after the same value was stored, under any key.
pub proof fn lemma_steps_agree(
    left: Entries,
    right: Entries,
    now: u32,
    key: DataKey,
    value: Value,
    other: DataKey,
)
    requires
        value_at(left, now, other) == value_at(right, now, other),
    ensures
        value_at(touched(left, now, key), now, other) == value_at(
            touched(right, now, key),
            now,
            other,
        ),
        value_at(stored(left, now, key, value), now, other) == value_at(
            stored(right, now, key, value),
            now,
            other,
        ),
{
}

/// An access under the shared policy keeps a valid store valid.
pub proof fn lemma_touched_keeps_valid(entries: Entries, now: u32, key: DataKey)
    requires
        valid(entries),
    ensures
        valid(touched(entries, now, key)),
{
    lemma_renewal_keeps_data(entries, now, key, LEASE_LIFETIME_THRESHOLD, LEASE_BUMP_AMOUNT);
}

/// After a renewal the entry, if it is live, has at least `min_remaining`
/// positions left, or lasts to the last position there is.
pub proof fn renewal_keeps_alive(
    entries: Entries,
    now: u32,
    key: DataKey,
    min_remaining: u32,
    extend_to: u32,
)
    requires
        is_live(entries, now, key),
        min_remaining <= extend_to,
    ensures
        is_live(renewed(entries, now, key, min_remaining, extend_to), now, key),
        renewed(entries, now, key, min_remaining, extend_to)[key].live_until - now >= min_remaining
            || renewed(entries, now, key, min_remaining, extend_to)[key].live_until == u32::MAX,
{
}

/// A renewal that follows a renewal at the same position changes nothing.
pub proof fn renewal_is_idempotent(
    entries: Entries,
    now: u32,
    key: DataKey,
    min_remaining: u32,
    extend_to: u32,
)
    ensures
        renewed(
            renewed(entries, now, key, min_remaining, extend_to),
            now,
            key,
            min_remaining,
            extend_to,
        ) == renewed(entries, now, key, min_remaining, extend_to),
{
}

/// Storing over an entry gives the same contents whether or not the entry
/// was accessed just before.
pub proof fn lemma_stored_after_touched(entries: Entries, now: u32, key: DataKey, value: Value)
    ensures
        stored(touched(entries, now, key), now, key, value) == stored(entries, now, key, value),
{
    let direct = stored(entries, now, key, value);
    assert(stored(touched(entries, now, key), now, key, value) =~= direct);
}

/// A renewal under the shared policy can be moved past a renewal, and past
/// a store under another key, at the same position: the contents come out
/// the same.
pub proof fn lemma_touched_moves_past(
    entries: Entries,
    now: u32,
    key: DataKey,
    value: Value,
    other: DataKey,
)
    ensures
        touched(touched(entries, now, other), now, key) == touched(
            touched(entries, now, key),
            now,
            other,
        ),
        touched(touched(entries, now, key), now, key) == touched(entries, now, key),
        other != key ==> stored(touched(entries, now, other), now, key, value) == touched(
            stored(entries, now, key, value),
            now,
            other,
        ),
{
    let both = touched(touched(entries, now, key), now, other);
    assert(touched(touched(entries, now, other), now, key) =~= both);
    assert(touched(touched(entries, now, key), now, key) =~= touched(entries, now, key));
    if other != key {
        let after = touched(stored(entries, now, key, value), now, other);
        assert(stored(touched(entries, now, other), now, key, value) =~= after);
    }
}

/// What was stored at `now` is read back at `now`, and no other key is
/// affected.
pub proof fn lemma_stored_reads_back(entries: Entries, now: u32, key: DataKey, value: Value)
    ensures
        value_at(stored(entries, now, key, value), now, key) == Some(value),
        forall|other: DataKey|
            other != key ==> #[trigger] stored(entries, now, key, value).contains_key(other)
                == entries.contains_key(other),
        forall|other: DataKey|
            other != key && entries.contains_key(other) ==> #[trigger] stored(
                entries,
                now,
                key,
                value,
            )[other] == entries[other],
        valid(entries) && fits(key, value) ==> valid(stored(entries, now, key, value)),
{
    let after = stored(entries, now, key, value);
    if valid(entries) && fits(key, value) {
        assert forall|other: DataKey| #[trigger] after.contains_key(other) implies fits(
            other,
            after[other].value,
        ) by {
            if other != key {
                assert(entries.contains_key(other));
            }
        }
    }
}

/// An entry whose lease has lapsed is as good as absent: it is not read, a
/// renewal does not wake it, and a write over it starts a new lease.
pub proof fn lapsed_entry_is_as_absent(
    entries: Entries,
    now: u32,
    key: DataKey,
    min_remaining: u32,
    extend_to: u32,
    value: Value,
)
    requires
        entries.contains_key(key),
        entries[key].live_until < now,
    ensures
        value_at(entries, now, key) == value_at(entries.remove(key), now, key),
        renewed(entries, now, key, min_remaining, extend_to) == entries,
        written(entries, now, key, value) == written(entries.remove(key), now, key, value),
{
    assert(written(entries, now, key, value) =~= written(entries.remove(key), now, key, value));
}

/// What was stored at `now` is still read at every position up to the
/// lifetime threshold later.
pub proof fn stored_value_stays_readable(
    entries: Entries,
    now: u32,
    key: DataKey,
    value: Value,
    later: u32,
)
    requires
        now <= later <= now + LEASE_LIFETIME_THRESHOLD,
    ensures
        value_at(stored(entries, now, key, value), later, key) == Some(value),
{
}

} // verus!
