use crate::channel::MessageSocket;
use std::collections::HashMap;
use vstd::prelude::*;

verus! {

broadcast use vstd::std_specs::hash::group_hash_axioms;

/// How long a room waits for its second participant, in milliseconds.
pub const ROOM_TTL_MILLIS: u64 = 3_600_000;

/// How many rooms may wait at once.
pub const REGISTRY_CAPACITY: usize = 100_000;

/// The moment at which a room created at `now` expires.
pub open spec fn expiry(now: u64) -> u64 {
    if now <= u64::MAX - ROOM_TTL_MILLIS {
        (now + ROOM_TTL_MILLIS) as u64
    } else {
        u64::MAX
    }
}

/// The rooms of `rooms` that are live at `now`.
pub open spec fn live_rooms(rooms: Map<u128, RoomEntry>, now: u64) -> Map<u128, RoomEntry> {
    rooms.restrict(rooms.dom().filter(|k: u128| rooms[k].live_at(now)))
}

/// Whether `e` is the entry of a room in `rooms` that has expired at `now`.
pub open spec fn expired_in(rooms: Map<u128, RoomEntry>, e: RoomEntry, now: u64) -> bool {
    exists|k: u128| #[trigger] rooms.contains_key(k) && !rooms[k].live_at(now) && rooms[k] == e
}

/// A withheld channel end waiting for the room's second participant.
#[derive(Debug, PartialEq, Eq, Structural)]
pub struct RoomEntry {
    pub socket: MessageSocket,
    pub expires_at: u64,
}

impl RoomEntry {
    /// Whether the room can still be joined at `now`.
    pub open spec fn live_at(self, now: u64) -> bool {
        now < self.expires_at
    }
}

/// Rooms by key, and the keys in the order they were added (a key may
/// stand there after its room is gone).
///
/// Expiry is decided from the time the caller passes in, not from a clock
/// inside the store, so that a lookup's outcome is fixed by its arguments
/// and an expired room's withheld end can be let go.
pub struct KeyRegistry {
    map: HashMap<u128, RoomEntry>,
    order: Vec<u128>,
}

impl View for KeyRegistry {
    type V = Map<u128, RoomEntry>;

    closed spec fn view(&self) -> Map<u128, RoomEntry> {
        self.map@
    }
}

impl KeyRegistry {
    /// Every room's key is in the order of addition.
    pub closed spec fn wf(&self) -> bool {
        forall|k: u128| #[trigger] self.map@.contains_key(k) ==> self.order@.contains(k)
    }

    /// How many keys the order of addition holds.
    pub closed spec fn order_len(&self) -> nat {
        self.order@.len()
    }

    /// Whether no room can be added under a new key.
    pub open spec fn full(&self) -> bool {
        self@.len() >= REGISTRY_CAPACITY
    }

    /// A registry holds finitely many rooms.
    pub proof fn lemma_finite(&self)
        ensures
            self@.dom().finite(),
    {
    }

    /// An empty registry.
    pub fn new() -> (r: KeyRegistry)
        ensures
            r.wf(),
            r@ == Map::<u128, RoomEntry>::empty(),
    {
        KeyRegistry { map: HashMap::new(), order: Vec::new() }
    }

    /// Whether a sweep is due: the registry is full, or the order of
    /// addition has grown to twice the capacity.
    pub fn sweep_due(&self) -> (r: bool)
        ensures
            r == (self.full() || self.order_len() >= 2 * REGISTRY_CAPACITY),
    {
        self.map.len() >= REGISTRY_CAPACITY || self.order.len() >= 2 * REGISTRY_CAPACITY
    }

    /// Drops every room that has expired at `now` and hands back their
    /// entries; keys of rooms that are gone leave the order of addition.
    pub fn sweep(&mut self, now: u64) -> (removed: Vec<RoomEntry>)
        requires
            old(self).wf(),
        ensures
            final(self).wf(),
            final(self)@ == live_rooms(old(self)@, now),
            forall|i: int| 0 <= i < removed@.len() ==> expired_in(old(self)@, #[trigger] removed@[i], now),
            forall|k: u128|
                old(self)@.contains_key(k) && !old(self)@[k].live_at(now) ==> #[trigger] removed@.contains(
                    old(self)@[k],
                ),
    {
        let ghost before = self.map@;
        let mut kept: Vec<u128> = Vec::new();
        let mut removed: Vec<RoomEntry> = Vec::new();
        let mut i: usize = 0;
        while i < self.order.len()
            invariant
                0 <= i <= self.order@.len(),
                self.order@ == old(self).order@,
                forall|k: u128| #[trigger] before.contains_key(k) ==> self.order@.contains(k),
                forall|k: u128| #[trigger]
                    self.map@.contains_key(k) ==> before.contains_key(k) && self.map@[k] == before[k],
                forall|k: u128|
                    #[trigger] before.contains_key(k) && !self.map@.contains_key(k) ==> !before[k].live_at(now)
                        && removed@.contains(before[k]),
                forall|j: int|
                    0 <= j < kept@.len() ==> self.map@.contains_key(#[trigger] kept@[j]) && self.map@[kept@[j]].live_at(
                        now,
                    ),
                forall|j: int|
                    0 <= j < i ==> (self.map@.contains_key(#[trigger] self.order@[j]) ==> kept@.contains(
                        self.order@[j],
                    )),
                forall|j: int|
                    0 <= j < i && before.contains_key(#[trigger] self.order@[j]) && !before[self.order@[j]].live_at(
                        now,
                    ) ==> !self.map@.contains_key(self.order@[j]),
                forall|r: int| 0 <= r < removed@.len() ==> expired_in(before, #[trigger] removed@[r], now),
            decreases self.order@.len() - i,
        {
            let k = self.order[i];
            let ghost kept0 = kept@;
            let ghost removed0 = removed@;
            let ghost map0 = self.map@;
            let live = match self.map.get(&k) {
                Some(e) => Some(now < e.expires_at),
                None => None,
            };
            match live {
                Some(true) => {
                    kept.push(k);
                    proof {
                        assert(kept@[kept0.len() as int] == k);
                        assert forall|j: int|
                            0 <= j < i + 1 && self.map@.contains_key(#[trigger] self.order@[j]) implies kept@.contains(
                            self.order@[j],
                        ) by {
                            if j < i {
                                let w = choose|w: int| 0 <= w < kept0.len() && kept0[w] == self.order@[j];
                                assert(kept@[w] == self.order@[j]);
                            }
                        }
                        assert forall|k2: u128| #[trigger]
                            before.contains_key(k2) && !self.map@.contains_key(k2) implies !before[k2].live_at(now)
                            && removed@.contains(before[k2]) by {}
                    }
                },
                Some(false) => {
                    let gone = self.map.remove(&k);
                    if let Some(e) = gone {
                        removed.push(e);
                        proof {
                            assert(e == before[k]);
                            assert(removed@[removed0.len() as int] == before[k]);
                            assert forall|k2: u128| #[trigger]
                                before.contains_key(k2) && !self.map@.contains_key(k2) implies !before[k2].live_at(now)
                                && removed@.contains(before[k2]) by {
                                if k2 != k {
                                    assert(map0.contains_key(k2) == self.map@.contains_key(k2));
                                    let w = choose|w: int| 0 <= w < removed0.len() && removed0[w] == before[k2];
                                    assert(removed@[w] == before[k2]);
                                }
                            }
                            assert forall|r: int| 0 <= r < removed@.len() implies expired_in(
                                before,
                                #[trigger] removed@[r],
                                now,
                            ) by {
                                if r < removed0.len() {
                                    assert(removed@[r] == removed0[r]);
                                } else {
                                    assert(removed@[r] == before[k]);
                                    assert(before.contains_key(k) && !before[k].live_at(now));
                                }
                            }
                        }
                    }
                    proof {
                        assert forall|j: int|
                            0 <= j < i + 1 && self.map@.contains_key(#[trigger] self.order@[j]) implies kept@.contains(
                            self.order@[j],
                        ) by {
                            if j < i {
                                assert(map0.contains_key(self.order@[j]));
                            }
                        }
                    }
                },
                None => {},
            }
            i = i + 1;
        }
        self.order = kept;
        proof {
            assert forall|k: u128| #[trigger] self.map@.contains_key(k) implies self.order@.contains(k) by {
                let j = choose|j: int| 0 <= j < old(self).order@.len() && old(self).order@[j] == k;
                assert(old(self).order@[j] == k);
            }
            assert forall|k: u128| before.contains_key(k) && !before[k].live_at(now) implies #[trigger] removed@.contains(before[k]) by {
                if self.map@.contains_key(k) {
                    let j = choose|j: int| 0 <= j < old(self).order@.len() && old(self).order@[j] == k;
                    assert(old(self).order@[j] == k);
                }
            }
            assert forall|k: u128| #[trigger] self.map@.contains_key(k) implies self.map@[k].live_at(now) by {
                let j = choose|j: int| 0 <= j < old(self).order@.len() && old(self).order@[j] == k;
                assert(old(self).order@[j] == k);
                let jj = choose|jj: int| 0 <= jj < self.order@.len() && self.order@[jj] == k;
            }
            assert(self.map@ =~= live_rooms(before, now));

        }
        removed
    }

    /// Whether no room can be added under a new key.
    pub fn is_full(&self) -> (r: bool)
        ensures
            r == self.full(),
    {
        self.map.len() >= REGISTRY_CAPACITY
    }

    /// Whether a room is kept under `key`, live or not.
    pub fn contains(&self, key: u128) -> (r: bool)
        ensures
            r == self@.contains_key(key),
    {
        self.map.contains_key(&key)
    }

    /// Keeps `socket` under the new key `key` until `now` plus the room's
    /// time to live.
    pub fn insert(&mut self, key: u128, socket: MessageSocket, now: u64)
        requires
            old(self).wf(),
            !old(self).full(),
            !old(self)@.contains_key(key),
        ensures
            final(self).wf(),
            final(self)@ == old(self)@.insert(key, RoomEntry { socket, expires_at: expiry(now) }),
    {
        let expires_at = if now <= u64::MAX - ROOM_TTL_MILLIS {
            now + ROOM_TTL_MILLIS
        } else {
            u64::MAX
        };
        let ghost order0 = self.order@;
        self.order.push(key);
        self.map.insert(key, RoomEntry { socket, expires_at });
        proof {
            assert forall|k: u128| #[trigger] self.map@.contains_key(k) implies self.order@.contains(k) by {
                if k == key {
                    assert(self.order@[order0.len() as int] == key);
                } else {
                    let w = choose|w: int| 0 <= w < order0.len() && order0[w] == k;
                    assert(self.order@[w] == k);
                }
            }
        }
    }

    /// Takes out the room under `key` if it is live at `now`, in one step.
    /// An expired room reads as absent, as a key that was never there.
    pub fn remove(&mut self, key: u128, now: u64) -> (r: Option<RoomEntry>)
        requires
            old(self).wf(),
        ensures
            final(self).wf(),
            r == (if old(self)@.contains_key(key) && old(self)@[key].live_at(now) {
                Some(old(self)@[key])
            } else {
                None::<RoomEntry>
            }),
            final(self)@ == (if r is Some {
                old(self)@.remove(key)
            } else {
                old(self)@
            }),
    {
        let live = match self.map.get(&key) {
            Some(e) => now < e.expires_at,
            None => false,
        };
        if live {
            self.map.remove(&key)
        } else {
            None
        }
    }

    /// Takes out the room under `key` if it has expired at `now`, so that
    /// its withheld end can be let go.
    pub fn take_expired(&mut self, key: u128, now: u64) -> (r: Option<RoomEntry>)
        requires
            old(self).wf(),
        ensures
            final(self).wf(),
            r == (if old(self)@.contains_key(key) && !old(self)@[key].live_at(now) {
                Some(old(self)@[key])
            } else {
                None::<RoomEntry>
            }),
            final(self)@ == (if r is Some {
                old(self)@.remove(key)
            } else {
                old(self)@
            }),
    {
        let expired = match self.map.get(&key) {
            Some(e) => now >= e.expires_at,
            None => false,
        };
        if expired {
            self.map.remove(&key)
        } else {
            None
        }
    }
}

impl Default for KeyRegistry {
    fn default() -> (r: KeyRegistry)
        ensures
            r.wf(),
            r@ == Map::<u128, RoomEntry>::empty(),
    {
        KeyRegistry::new()
    }
}

} // verus!
