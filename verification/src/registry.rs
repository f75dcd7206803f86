//! The peers that are known, each with the time it was last active.
use vstd::prelude::*;

use crate::address::{IpAddress, SocketAddress};
use crate::clock::{expired, is_expired};

verus! {

/// What a peer is known by.
pub trait Key: Copy {
    /// Whether two peers are the same.
    fn same(&self, other: &Self) -> (same: bool)
        ensures
            same == (*self == *other),
    ;
}

impl Key for IpAddress {
    fn same(&self, other: &Self) -> (same: bool) {
        *self == *other
    }
}

impl Key for SocketAddress {
    fn same(&self, other: &Self) -> (same: bool) {
        *self == *other
    }
}

/// What is kept of a peer.
pub struct Entry<H> {
    /// When the peer was last active.
    pub last_active_ts: u32,
    /// Tells this entry from earlier ones of the same peer.
    pub generation: u64,
    /// What the peer is served with.
    pub handle: H,
}

/// The known peers after one of them was active. A peer that is not known stays unknown.
pub open spec fn touched<K, H>(peers: Map<K, Entry<H>>, key: K, now: u32) -> Map<K, Entry<H>> {
    if peers.contains_key(key) {
        peers.insert(key, Entry { last_active_ts: now, ..peers[key] })
    } else {
        peers
    }
}

/// What is left of the known peers when those inactive for too long are forgotten.
pub open spec fn swept<K, H>(
    peers: Map<K, Entry<H>>,
    now: u32,
    inactivity_timeout_sec: u32,
) -> Map<K, Entry<H>> {
    peers.filter_keys(
        |key: K| !expired(now, peers[key].last_active_ts, inactivity_timeout_sec),
    )
}

struct Slot<K, H> {
    key: K,
    entry: Entry<H>,
}

/// The known peers. There is one entry for each.
pub struct Registry<K, H> {
    slots: Vec<Slot<K, H>>,
    next_generation: u64,
}

spec fn distinct<K, H>(slots: Seq<Slot<K, H>>) -> bool {
    forall|i: int, j: int|
        0 <= i < j < slots.len() ==> (#[trigger] slots[i]).key != (#[trigger] slots[j]).key
}

spec fn holds<K, H>(slots: Seq<Slot<K, H>>, key: K) -> bool {
    exists|i: int| 0 <= i < slots.len() && (#[trigger] slots[i]).key == key
}

spec fn place<K, H>(slots: Seq<Slot<K, H>>, key: K) -> int {
    choose|i: int| 0 <= i < slots.len() && (#[trigger] slots[i]).key == key
}

spec fn table<K, H>(slots: Seq<Slot<K, H>>) -> Map<K, Entry<H>> {
    Map::new(|key: K| holds(slots, key), |key: K| slots[place(slots, key)].entry)
}

proof fn table_at<K, H>(slots: Seq<Slot<K, H>>, i: int)
    requires
        distinct(slots),
        0 <= i < slots.len(),
    ensures
        table(slots).contains_key(slots[i].key),
        table(slots)[slots[i].key] == slots[i].entry,
{
    assert(holds(slots, slots[i].key));
    assert(place(slots, slots[i].key) == i);
}

proof fn table_after_update<K, H>(slots: Seq<Slot<K, H>>, i: int, entry: Entry<H>)
    requires
        distinct(slots),
        0 <= i < slots.len(),
    ensures
        distinct(slots.update(i, Slot { key: slots[i].key, entry })),
        table(slots.update(i, Slot { key: slots[i].key, entry })) == table(slots).insert(
            slots[i].key,
            entry,
        ),
{
    let after = slots.update(i, Slot { key: slots[i].key, entry });
    assert forall|key: K| holds(after, key) == holds(slots, key) by {
        if holds(slots, key) {
            assert(after[place(slots, key)].key == key);
        }
        if holds(after, key) {
            assert(slots[place(after, key)].key == key);
        }
    }
    assert forall|key: K| holds(after, key) implies table(after)[key] == table(slots).insert(
        slots[i].key,
        entry,
    )[key] by {
        let at = place(after, key);
        table_at(after, at);
        table_at(slots, at);
    }
    table_at(slots, i);
    assert(table(after) =~= table(slots).insert(slots[i].key, entry));
}

proof fn table_after_push<K, H>(slots: Seq<Slot<K, H>>, slot: Slot<K, H>)
    requires
        distinct(slots),
        !holds(slots, slot.key),
    ensures
        distinct(slots.push(slot)),
        table(slots.push(slot)) == table(slots).insert(slot.key, slot.entry),
{
    let after = slots.push(slot);
    assert forall|key: K| holds(after, key) == (key == slot.key || holds(slots, key)) by {
        if holds(slots, key) {
            assert(after[place(slots, key)].key == key);
        }
        if key == slot.key {
            assert(after[slots.len() as int].key == key);
        }
    }
    assert forall|key: K| holds(after, key) implies table(after)[key] == table(slots).insert(
        slot.key,
        slot.entry,
    )[key] by {
        let at = place(after, key);
        table_at(after, at);
        if at < slots.len() {
            table_at(slots, at);
        }
    }
    assert(table(after) =~= table(slots).insert(slot.key, slot.entry));
}

proof fn table_after_swap_remove<K, H>(slots: Seq<Slot<K, H>>, i: int)
    requires
        distinct(slots),
        0 <= i < slots.len(),
    ensures
        distinct(slots.update(i, slots.last()).drop_last()),
        table(slots.update(i, slots.last()).drop_last()) == table(slots).remove(slots[i].key),
{
    let after = slots.update(i, slots.last()).drop_last();
    let from = |j: int| if j == i { slots.len() - 1 } else { j };
    assert forall|j: int| 0 <= j < after.len() implies #[trigger] after[j] == slots[from(j)] by {}
    assert forall|key: K| holds(after, key) == (key != slots[i].key && holds(slots, key)) by {
        if holds(after, key) {
            let at = place(after, key);
            assert(slots[from(at)].key == key);
        }
        if key != slots[i].key && holds(slots, key) {
            let at = place(slots, key);
            if at == slots.len() - 1 {
                assert(after[i].key == key);
            } else {
                assert(after[at].key == key);
            }
        }
    }
    assert forall|key: K| holds(after, key) implies table(after)[key] == table(slots)[key] by {
        let at = place(after, key);
        table_at(after, at);
        table_at(slots, from(at));
    }
    assert(table(after) =~= table(slots).remove(slots[i].key));
}

impl<K: Key, H> View for Registry<K, H> {
    type V = Map<K, Entry<H>>;

    closed spec fn view(&self) -> Map<K, Entry<H>> {
        table(self.slots@)
    }
}

impl<K: Key, H> Registry<K, H> {
    /// No peer has two entries.
    pub closed spec fn wf(&self) -> bool {
        distinct(self.slots@)
    }

    /// The generation that the next entry gets.
    pub closed spec fn upcoming_generation(&self) -> u64 {
        self.next_generation
    }

    /// No peer was active later than `now`.
    pub open spec fn active_by(&self, now: u32) -> bool {
        forall|key: K| #[trigger] self@.contains_key(key) ==> self@[key].last_active_ts <= now
    }

    /// A registry that knows nobody.
    pub fn new() -> (registry: Self)
        ensures
            registry.wf(),
            registry@ == Map::<K, Entry<H>>::empty(),
            registry.upcoming_generation() == 0,
    {
        let registry = Registry { slots: Vec::new(), next_generation: 0 };
        assert(registry@ =~= Map::<K, Entry<H>>::empty());
        registry
    }

    fn position(&self, key: &K) -> (at: Option<usize>)
        requires
            self.wf(),
        ensures
            at is Some <==> self@.contains_key(*key),
            at matches Some(i) ==> i < self.slots@.len() && self.slots@[i as int].key == *key
                && self.slots@[i as int].entry == self@[*key],
    {
        for i in 0..self.slots.len()
            invariant
                self.wf(),
                forall|j: int| 0 <= j < i ==> (#[trigger] self.slots@[j]).key != *key,
        {
            if self.slots[i].key.same(key) {
                proof {
                    table_at(self.slots@, i as int);
                }
                return Some(i);
            }
        }
        None
    }

    /// What is kept of a peer.
    pub fn get(&self, key: &K) -> (entry: Option<&Entry<H>>)
        requires
            self.wf(),
        ensures
            entry is Some <==> self@.contains_key(*key),
            entry matches Some(e) ==> *e == self@[*key],
    {
        match self.position(key) {
            Some(i) => Some(&self.slots[i].entry),
            None => None,
        }
    }

    /// Notes that a peer is active, and tells whether it is known.
    pub fn touch(&mut self, key: &K, now: u32) -> (known: bool)
        requires
            old(self).wf(),
        ensures
            final(self).wf(),
            final(self).upcoming_generation() == old(self).upcoming_generation(),
            known == old(self)@.contains_key(*key),
            final(self)@ == touched(old(self)@, *key, now),
    {
        match self.position(key) {
            Some(i) => {
                proof {
                    table_after_update(
                        self.slots@,
                        i as int,
                        Entry { last_active_ts: now, ..self.slots@[i as int].entry },
                    );
                }
                self.slots[i].entry.last_active_ts = now;
                assert(self.slots@ =~= old(self).slots@.update(i as int, self.slots@[i as int]));
                true
            },
            None => false,
        }
    }

    /// Notes that a peer is active, if its entry still is the one of `generation`.
    pub fn touch_generation(&mut self, key: &K, generation: u64, now: u32) -> (known: bool)
        requires
            old(self).wf(),
        ensures
            final(self).wf(),
            final(self).upcoming_generation() == old(self).upcoming_generation(),
            known == (old(self)@.contains_key(*key) && old(self)@[*key].generation == generation),
            final(self)@ == (if known {
                touched(old(self)@, *key, now)
            } else {
                old(self)@
            }),
    {
        let current: bool = match self.get(key) {
            Some(entry) => entry.generation == generation,
            None => false,
        };
        if current {
            self.touch(key, now);
        }
        current
    }

    /// Makes a peer known, in place of what was kept of it before, and returns the
    /// generation of its entry.
    pub fn insert(&mut self, key: K, now: u32, handle: H) -> (generation: u64)
        requires
            old(self).wf(),
        ensures
            final(self).wf(),
            generation == old(self).upcoming_generation(),
            final(self).upcoming_generation() == (if generation == u64::MAX {
                0
            } else {
                generation + 1
            }),
            final(self)@ == old(self)@.insert(
                key,
                Entry { last_active_ts: now, generation, handle },
            ),
    {
        let generation: u64 = self.next_generation;
        let entry = Entry { last_active_ts: now, generation, handle };
        match self.position(&key) {
            Some(i) => {
                proof {
                    table_after_update(self.slots@, i as int, entry);
                }
                self.slots[i].entry = entry;
                assert(self.slots@ =~= old(self).slots@.update(i as int, Slot { key, entry }));
            },
            None => {
                proof {
                    table_after_push(self.slots@, Slot { key, entry });
                }
                self.slots.push(Slot { key, entry });
            },
        }
        self.next_generation = generation.wrapping_add(1);
        generation
    }

    /// Forgets a peer, and tells whether it was known.
    pub fn remove(&mut self, key: &K) -> (known: bool)
        requires
            old(self).wf(),
        ensures
            final(self).wf(),
            final(self).upcoming_generation() == old(self).upcoming_generation(),
            known == old(self)@.contains_key(*key),
            final(self)@ == old(self)@.remove(*key),
    {
        match self.position(key) {
            Some(i) => {
                proof {
                    table_after_swap_remove(self.slots@, i as int);
                }
                self.slots.swap_remove(i);
                true
            },
            None => {
                assert(self@.remove(*key) =~= self@);
                false
            },
        }
    }

    /// Whether no peer was active later than `now`.
    pub fn is_active_by(&self, now: u32) -> (yes: bool)
        requires
            self.wf(),
        ensures
            yes == self.active_by(now),
            yes <==> forall|key: K| #[trigger]
                self@.contains_key(key) ==> self@[key].last_active_ts <= now,
    {
        for i in 0..self.slots.len()
            invariant
                self.wf(),
                forall|j: int|
                    0 <= j < i ==> (#[trigger] self.slots@[j]).entry.last_active_ts <= now,
        {
            if self.slots[i].entry.last_active_ts > now {
                proof {
                    table_at(self.slots@, i as int);
                    assert(self@.contains_key(self.slots@[i as int].key));
                }
                return false;
            }
        }
        assert forall|key: K| #[trigger] self@.contains_key(key) implies self@[key].last_active_ts
            <= now by {
            assert(holds(self.slots@, key));
        }
        true
    }

    /// Forgets every peer that has been inactive for too long, and no other.
    pub fn sweep(&mut self, now: u32, inactivity_timeout_sec: u32)
        requires
            old(self).wf(),
            old(self).active_by(now),
        ensures
            final(self).wf(),
            final(self).upcoming_generation() == old(self).upcoming_generation(),
            final(self)@ == swept(old(self)@, now, inactivity_timeout_sec),
            forall|key: K| #[trigger]
                final(self)@.contains_key(key) <==> old(self)@.contains_key(key) && now
                    - old(self)@[key].last_active_ts <= inactivity_timeout_sec,
            forall|key: K| #[trigger]
                final(self)@.contains_key(key) ==> final(self)@[key] == old(self)@[key],
    {
        let ghost before = self@;
        let mut i: usize = 0;
        while i < self.slots.len()
            invariant
                self.wf(),
                self.next_generation == old(self).next_generation,
                i <= self.slots@.len(),
                before == old(self)@,
                old(self).active_by(now),
                forall|key: K| #[trigger]
                    self@.contains_key(key) ==> before.contains_key(key) && self@[key]
                        == before[key],
                forall|key: K|
                    before.contains_key(key) && !expired(
                        now,
                        (#[trigger] before[key]).last_active_ts,
                        inactivity_timeout_sec,
                    ) ==> self@.contains_key(key),
                forall|j: int|
                    0 <= j < i ==> !expired(
                        now,
                        (#[trigger] self.slots@[j]).entry.last_active_ts,
                        inactivity_timeout_sec,
                    ),
            decreases self.slots@.len() - i,
        {
            proof {
                table_at(self.slots@, i as int);
            }
            let last: u32 = self.slots[i].entry.last_active_ts;
            assert(self@.contains_key(self.slots@[i as int].key));
            assert(old(self)@.contains_key(self.slots@[i as int].key));
            if is_expired(now, last, inactivity_timeout_sec) {
                proof {
                    table_after_swap_remove(self.slots@, i as int);
                }
                self.slots.swap_remove(i);
            } else {
                i = i + 1;
            }
        }
        assert forall|key: K| #[trigger] self@.contains_key(key) implies !expired(
            now,
            before[key].last_active_ts,
            inactivity_timeout_sec,
        ) by {
            assert(holds(self.slots@, key));
        }
        assert(self@ =~= swept(before, now, inactivity_timeout_sec));
    }
}

/// A sweep keeps a peer, with all that is kept of it, exactly if the peer was active
/// within the timeout.
pub proof fn sweeps_keep_active_peers<K, H>(
    peers: Map<K, Entry<H>>,
    now: u32,
    inactivity_timeout_sec: u32,
    key: K,
)
    requires
        peers.contains_key(key),
    ensures
        swept(peers, now, inactivity_timeout_sec).contains_key(key) <==> now
            - peers[key].last_active_ts <= inactivity_timeout_sec,
        swept(peers, now, inactivity_timeout_sec).contains_key(key) ==> swept(
            peers,
            now,
            inactivity_timeout_sec,
        )[key] == peers[key],
{
}

/// An earlier sweep makes no difference to what a later one leaves.
pub proof fn later_sweeps_subsume_earlier_ones<K, H>(
    peers: Map<K, Entry<H>>,
    earlier: u32,
    later: u32,
    inactivity_timeout_sec: u32,
)
    requires
        earlier <= later,
    ensures
        swept(swept(peers, earlier, inactivity_timeout_sec), later, inactivity_timeout_sec)
            == swept(peers, later, inactivity_timeout_sec),
{
    assert(swept(swept(peers, earlier, inactivity_timeout_sec), later, inactivity_timeout_sec)
        =~= swept(peers, later, inactivity_timeout_sec));
}

/// A known peer that was active survives a later sweep exactly if no more than the
/// timeout has passed since, and is then served as before. Its activity makes no
/// difference to any other peer.
pub proof fn activity_keeps_a_peer<K, H>(
    peers: Map<K, Entry<H>>,
    key: K,
    active: u32,
    now: u32,
    inactivity_timeout_sec: u32,
    other: K,
)
    requires
        peers.contains_key(key),
        other != key,
    ensures
        swept(touched(peers, key, active), now, inactivity_timeout_sec).contains_key(key) <==> now
            - active <= inactivity_timeout_sec,
        swept(touched(peers, key, active), now, inactivity_timeout_sec).contains_key(key) ==> swept(
            touched(peers, key, active),
            now,
            inactivity_timeout_sec,
        )[key].handle == peers[key].handle,
        swept(touched(peers, key, active), now, inactivity_timeout_sec).contains_key(other)
            == swept(peers, now, inactivity_timeout_sec).contains_key(other),
        peers.contains_key(other) ==> touched(peers, key, active)[other] == peers[other],
{
}

/// Activity of a known peer changes when that peer was last active, and nothing else. An
/// unknown peer stays unknown.
pub proof fn activity_sets_the_time_alone<K, H>(
    peers: Map<K, Entry<H>>,
    key: K,
    now: u32,
    other: K,
)
    ensures
        touched(peers, key, now).contains_key(other) == peers.contains_key(other),
        peers.contains_key(key) ==> touched(peers, key, now)[key].last_active_ts == now,
        peers.contains_key(key) ==> touched(peers, key, now)[key].generation
            == peers[key].generation,
        peers.contains_key(key) ==> touched(peers, key, now)[key].handle == peers[key].handle,
        other != key && peers.contains_key(other) ==> touched(peers, key, now)[other]
            == peers[other],
{
}

/// A sweep makes nobody known.
pub proof fn sweeps_make_nobody_known<K, H>(
    peers: Map<K, Entry<H>>,
    now: u32,
    inactivity_timeout_sec: u32,
    key: K,
)
    requires
        !peers.contains_key(key),
    ensures
        !swept(peers, now, inactivity_timeout_sec).contains_key(key),
{
}

} // verus!
