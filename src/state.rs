use crate::channel::{accepts_in, delivered_in, message_sockets, released_in, sent_in, Hub, Message, MessageSocket, PipeView, SendOutcome};
use crate::key_registry::{expiry, expired_in, live_rooms, KeyRegistry, RoomEntry, REGISTRY_CAPACITY};
use crate::room_key::fresh_key;
use vstd::prelude::*;

verus! {

/// The participant waiting in the random queue: the end of its channel that
/// the next joiner will get. The waiter holds the other end.
#[derive(Debug, PartialEq, Eq, Structural)]
pub struct MatchWait {
    pub socket: MessageSocket,
}

/// The random queue: at most one waiter.
pub struct RandomMatching {
    pub waiting: Option<MatchWait>,
}

/// Whether the waiter of `waiting` is still there and can be told that it
/// is matched (its inbox has room for the notice).
pub open spec fn waiter_alive<P>(waiting: Option<MatchWait>, pipes: Map<u64, PipeView<P>>) -> bool {
    match waiting {
        Some(w) => accepts_in(pipes, w.socket),
        None => false,
    }
}

/// Whether the end withheld for the waiter of `waiting`, if any, belongs to
/// a channel numbered below `next`.
pub open spec fn waiting_below(waiting: Option<MatchWait>, next: u64) -> bool {
    match waiting {
        Some(w) => w.socket.channel < next,
        None => true,
    }
}

/// The mathematical value of a [`State`]: the channels, the number of the
/// next channel, the random queue's waiter and the rooms.
pub struct StateView<P> {
    pub pipes: Map<u64, PipeView<P>>,
    pub next: u64,
    pub waiting: Option<MatchWait>,
    pub rooms: Map<u128, RoomEntry>,
}

impl<P> StateView<P> {
    /// This state with its channels replaced by `pipes`.
    pub open spec fn with_pipes(self, pipes: Map<u64, PipeView<P>>) -> StateView<P> {
        StateView { pipes, ..self }
    }

    /// The state once the holder of `held` has left: the peer is told
    /// `Leave` if its inbox has room, and the end is let go. Nothing changes
    /// when nothing is held.
    pub open spec fn left(self, held: Option<MessageSocket>) -> StateView<P> {
        match held {
            None => self,
            Some(s) => self.with_pipes(released_in(sent_in(self.pipes, s, Message::Leave), s)),
        }
    }

    /// Whether a room can be created with the key `key`: the key is new to
    /// the registry, and the registry is not full.
    pub open spec fn room_fits(self, key: u128) -> bool {
        self.rooms.len() < REGISTRY_CAPACITY && !self.rooms.contains_key(key)
    }
}

/// One random join from `s0` to `s1`, handing the joiner `r.0`, with `r.1`
/// telling whether it was matched.
///
/// A live waiter is matched: the joiner gets the withheld end and the waiter
/// is told `Joined`. Otherwise a waiter that is gone (or cannot be told) is
/// dropped, a new channel is opened, and the joiner becomes the waiter.
pub open spec fn join_random_step<P>(s0: StateView<P>, s1: StateView<P>, r: (MessageSocket, bool)) -> bool {
    &&& s1.rooms == s0.rooms
    &&& if waiter_alive(s0.waiting, s0.pipes) {
        let w = s0.waiting->0;
        &&& r == (w.socket, true)
        &&& s1.waiting is None
        &&& s1.pipes == delivered_in(s0.pipes, w.socket, Message::Joined)
        &&& s1.next == s0.next
    } else {
        let id = s0.next;
        let cleared = match s0.waiting {
            Some(w) => released_in(s0.pipes, w.socket),
            None => s0.pipes,
        };
        &&& r == (MessageSocket { channel: id, side: false }, false)
        &&& s1.waiting == Some(MatchWait { socket: MessageSocket { channel: id, side: true } })
        &&& s1.pipes == cleared.insert(id, PipeView::<P>::fresh())
        &&& s1.next == id + 1
    }
}

/// The channels `pipes` after each end of `socks` is let go, in order.
pub open spec fn released_all<P>(pipes: Map<u64, PipeView<P>>, socks: Seq<MessageSocket>) -> Map<
    u64,
    PipeView<P>,
>
    decreases socks.len(),
{
    if socks.len() == 0 {
        pipes
    } else {
        released_in(released_all(pipes, socks.drop_last()), socks.last())
    }
}

/// A sweep at `now`, from `s0` to `s1`: every expired room is dropped and
/// its withheld end let go; nothing else changes.
pub open spec fn sweep_step<P>(s0: StateView<P>, s1: StateView<P>, now: u64) -> bool {
    &&& s1.rooms == live_rooms(s0.rooms, now)
    &&& s1.next == s0.next
    &&& s1.waiting == s0.waiting
    &&& exists|gone: Seq<RoomEntry>| #[trigger] swept_by(s0, s1.pipes, gone, now)
}

/// Whether `gone` lists the rooms of `s0` expired at `now` (each at least
/// once, and nothing else), and `pipes` is `s0`'s channels once their
/// withheld ends are let go in that order.
pub open spec fn swept_by<P>(s0: StateView<P>, pipes: Map<u64, PipeView<P>>, gone: Seq<RoomEntry>, now: u64) -> bool {
    &&& forall|i: int| 0 <= i < gone.len() ==> expired_in(s0.rooms, #[trigger] gone[i], now)
    &&& forall|k: u128|
        #[trigger] s0.rooms.contains_key(k) && !s0.rooms[k].live_at(now) ==> gone.contains(s0.rooms[k])
    &&& pipes == released_all(s0.pipes, gone.map_values(|e: RoomEntry| e.socket))
}

/// One room creation under `key` at `now`, from `s0` to `s1`: expired
/// rooms may first be swept, and are when the registry is full; then the
/// room is created as [`create_room_fresh_step`] says.
pub open spec fn create_room_step<P>(
    s0: StateView<P>,
    s1: StateView<P>,
    key: u128,
    now: u64,
    r: Option<MessageSocket>,
) -> bool {
    exists|mid: StateView<P>|
        {
            &&& (s0.rooms.len() >= REGISTRY_CAPACITY ==> sweep_step(s0, mid, now))
            &&& (mid == s0 || sweep_step(s0, mid, now))
            &&& #[trigger] create_room_fresh_step(mid, s1, key, now, r)
        }
}

/// A room creation under `key` at `now` with no sweep, from `s0` to `s1`.
///
/// When the key is taken or the registry is full, nothing changes and the
/// result is `None`. Otherwise a channel is opened, one end is kept under
/// `key` until `now` plus the time to live, and the other is handed to the
/// creator.
pub open spec fn create_room_fresh_step<P>(
    s0: StateView<P>,
    s1: StateView<P>,
    key: u128,
    now: u64,
    r: Option<MessageSocket>,
) -> bool {
    &&& s1.waiting == s0.waiting
    &&& if !s0.room_fits(key) {
        &&& r is None
        &&& s1 == s0
    } else {
        let id = s0.next;
        &&& r == Some(MessageSocket { channel: id, side: false })
        &&& s1.pipes == s0.pipes.insert(id, PipeView::<P>::fresh())
        &&& s1.next == id + 1
        &&& s1.rooms == s0.rooms.insert(
            key,
            RoomEntry { socket: MessageSocket { channel: id, side: true }, expires_at: expiry(now) },
        )
    }
}

impl<P> StateView<P> {
    /// The end that a lookup of `key` at `now` hands out: the withheld end
    /// of a live room under `key`, if there is one.
    pub open spec fn found_room(self, key: u128, now: u64) -> Option<MessageSocket> {
        if self.rooms.contains_key(key) && self.rooms[key].live_at(now) {
            Some(self.rooms[key].socket)
        } else {
            None
        }
    }

    /// The state after a lookup of `key` at `now`: the entry under `key` is
    /// taken out whatever it holds, and an expired one is let go, so that it
    /// reads as a key that was never there.
    pub open spec fn after_find_room(self, key: u128, now: u64) -> StateView<P> {
        let pipes = if self.rooms.contains_key(key) && !self.rooms[key].live_at(now) {
            released_in(self.pipes, self.rooms[key].socket)
        } else {
            self.pipes
        };
        StateView { pipes, rooms: self.rooms.remove(key), ..self }
    }
}

/// One room lookup of `key` at `now`, from `s0` to `s1`, with the result `r`.
pub open spec fn find_room_step<P>(
    s0: StateView<P>,
    s1: StateView<P>,
    key: u128,
    now: u64,
    r: Option<MessageSocket>,
) -> bool {
    &&& s1 == s0.after_find_room(key, now)
    &&& r == s0.found_room(key, now)
}

/// Random joins pair exactly two participants at a time: with nobody
/// waiting, the first of three joiners waits, the second is matched with
/// the first (it gets the other end of the first one's channel), and the
/// third, matched with neither, becomes the new waiter on a channel of its
/// own.
pub proof fn lemma_single_match<P>(
    s0: StateView<P>,
    s1: StateView<P>,
    s2: StateView<P>,
    s3: StateView<P>,
    r1: (MessageSocket, bool),
    r2: (MessageSocket, bool),
    r3: (MessageSocket, bool),
)
    requires
        s0.waiting is None,
        join_random_step(s0, s1, r1),
        join_random_step(s1, s2, r2),
        join_random_step(s2, s3, r3),
    ensures
        !r1.1,
        r2.1,
        r2.0 == r1.0.peer(),
        s2.waiting is None,
        !r3.1,
        r3.0.channel != r1.0.channel,
        s3.waiting == Some(MatchWait { socket: r3.0.peer() }),
{
}

/// A room is joined at most once: after one lookup of `key`, whatever it
/// found, the next lookup of `key` finds nothing.
pub proof fn lemma_room_used_once<P>(
    s0: StateView<P>,
    s1: StateView<P>,
    s2: StateView<P>,
    key: u128,
    t1: u64,
    t2: u64,
    r1: Option<MessageSocket>,
    r2: Option<MessageSocket>,
)
    requires
        find_room_step(s0, s1, key, t1, r1),
        find_room_step(s1, s2, key, t2, r2),
    ensures
        r2 is None,
        !s2.rooms.contains_key(key),
{
}

/// However many lookups of `key` follow one another, only the first can
/// find the room: every later one finds nothing.
pub proof fn lemma_room_found_at_most_once<P>(
    states: Seq<StateView<P>>,
    key: u128,
    times: Seq<u64>,
    results: Seq<Option<MessageSocket>>,
)
    requires
        states.len() == results.len() + 1,
        times.len() == results.len(),
        forall|i: int|
            0 <= i < results.len() ==> find_room_step(states[i], states[i + 1], key, times[i], #[trigger] results[i]),
    ensures
        forall|j: int| 1 <= j < results.len() ==> #[trigger] results[j] is None,
{
    assert forall|j: int| 1 <= j < results.len() implies #[trigger] results[j] is None by {
        assert(results[j - 1] == results[j - 1]);
        assert(states[(j - 1) + 1] == states[j]);
    }
}

/// A room created at `t0` and not joined can be joined before its time to
/// live has passed, and not after: then the lookup finds nothing and leaves
/// the key absent, just as for a key that never existed.
pub proof fn lemma_room_expires<P>(
    s0: StateView<P>,
    s1: StateView<P>,
    s2: StateView<P>,
    key: u128,
    t0: u64,
    t: u64,
    r0: Option<MessageSocket>,
    r: Option<MessageSocket>,
)
    requires
        create_room_step(s0, s1, key, t0, r0),
        r0 is Some,
        find_room_step(s1, s2, key, t, r),
    ensures
        t >= expiry(t0) ==> r is None,
        t < expiry(t0) ==> r == Some(r0->0.peer()),
        !s2.rooms.contains_key(key),
{
}

/// How many keys a room creation draws at most before it gives up.
pub const KEY_DRAWS: usize = 4;

impl RandomMatching {
    /// An empty queue.
    pub fn new() -> (r: RandomMatching)
        ensures
            r.waiting is None,
    {
        RandomMatching { waiting: None }
    }

    /// Matches with the waiter if it is still there, else waits.
    pub fn join_random<P>(&mut self, hub: &mut Hub<P>) -> (r: (MessageSocket, bool))
        requires
            old(hub).wf(),
            old(hub).can_open(),
            waiting_below(old(self).waiting, old(hub).next_id()),
        ensures
            final(hub).wf(),
            waiting_below(final(self).waiting, final(hub).next_id()),
            join_random_step(
                StateView { pipes: old(hub)@, next: old(hub).next_id(), waiting: old(self).waiting, rooms: Map::empty() },
                StateView { pipes: final(hub)@, next: final(hub).next_id(), waiting: final(self).waiting, rooms: Map::empty() },
                r,
            ),
    {
        proof {
            hub.lemma_wf();
        }
        if let Some(wait) = self.waiting.take() {
            match hub.send(&wait.socket, Message::Joined) {
                SendOutcome::Sent => {
                    return (wait.socket, true);
                },
                _ => {
                    // The waiter has gone away (or cannot be told): the
                    // joiner waits instead.
                    hub.release(wait.socket);
                },
            }
        }
        proof {
            hub.lemma_wf();
        }
        let (mine, theirs) = message_sockets(hub);
        self.waiting = Some(MatchWait { socket: theirs });
        (mine, false)
    }
}

/// The room registry.
pub struct KeyMatching {
    pub key_registry: KeyRegistry,
}

/// The process-wide matchmaking state: the channels, the random queue and
/// the rooms. `P` is the application's payload.
pub struct State<P> {
    pub hub: Hub<P>,
    pub random_matching: RandomMatching,
    pub key_matching: KeyMatching,
}

impl<P> View for State<P> {
    type V = StateView<P>;

    open spec fn view(&self) -> StateView<P> {
        StateView {
            pipes: self.hub@,
            next: self.hub.next_id(),
            waiting: self.random_matching.waiting,
            rooms: self.key_matching.key_registry@,
        }
    }
}

impl<P> State<P> {
    pub open spec fn wf(&self) -> bool {
        &&& self.hub.wf()
        &&& self.key_matching.key_registry.wf()
        &&& self@.rooms.len() <= REGISTRY_CAPACITY
        &&& waiting_below(self@.waiting, self@.next)
    }

    /// A state with no channel, no waiter and no room.
    pub fn new() -> (r: State<P>)
        ensures
            r.wf(),
            r@ == (StateView::<P> {
                pipes: Map::empty(),
                next: 0,
                waiting: None,
                rooms: Map::empty(),
            }),
    {
        State {
            hub: Hub::new(),
            random_matching: RandomMatching::new(),
            key_matching: KeyMatching { key_registry: KeyRegistry::new() },
        }
    }

    /// Whether one more channel can be opened.
    pub fn can_open(&self) -> (r: bool)
        ensures
            r == self.hub.can_open(),
    {
        self.hub.has_capacity()
    }

    /// Joins the random queue; see [`join_random_step`].
    pub fn join_random(&mut self) -> (r: (MessageSocket, bool))
        requires
            old(self).wf(),
            old(self).hub.can_open(),
        ensures
            final(self).wf(),
            join_random_step(old(self)@, final(self)@, r),
    {
        self.random_matching.join_random(&mut self.hub)
    }

    /// Drops every room that has expired at `now`; see [`sweep_step`].
    pub fn sweep_rooms(&mut self, now: u64)
        requires
            old(self).wf(),
        ensures
            final(self).wf(),
            sweep_step(old(self)@, final(self)@, now),
    {
        let ghost s0 = self@;
        proof {
            self.key_matching.key_registry.lemma_finite();
        }
        let removed = self.key_matching.key_registry.sweep(now);
        let ghost socks = removed@.map_values(|e: RoomEntry| e.socket);
        let mut i: usize = 0;
        while i < removed.len()
            invariant
                0 <= i <= removed@.len(),
                socks == removed@.map_values(|e: RoomEntry| e.socket),
                self.hub.wf(),
                self.hub.next_id() == s0.next,
                self.hub@ == released_all(s0.pipes, socks.take(i as int)),
                self.key_matching.key_registry@ == live_rooms(s0.rooms, now),
                self.key_matching.key_registry.wf(),
                self.random_matching.waiting == s0.waiting,
            decreases removed@.len() - i,
        {
            let socket = MessageSocket { channel: removed[i].socket.channel, side: removed[i].socket.side };
            self.hub.release(socket);
            assert(socks.take(i + 1).drop_last() =~= socks.take(i as int));
            i = i + 1;
        }
        proof {
            assert(socks.take(removed@.len() as int) =~= socks);
            assert(swept_by(s0, self@.pipes, removed@, now));
            assert(self@.rooms.len() <= REGISTRY_CAPACITY) by {
                assert(self@.rooms.dom().subset_of(s0.rooms.dom()));
                vstd::set_lib::lemma_len_subset(self@.rooms.dom(), s0.rooms.dom());
            }
        }
    }

    /// Creates a room under `key` at `now`; see [`create_room_step`].
    pub fn create_room_with_key(&mut self, key: u128, now: u64) -> (r: Option<MessageSocket>)
        requires
            old(self).wf(),
            old(self).hub.can_open(),
        ensures
            final(self).wf(),
            create_room_step(old(self)@, final(self)@, key, now, r),
            old(self)@.rooms.len() < REGISTRY_CAPACITY && !old(self)@.rooms.contains_key(key) ==> r is Some,
    {
        let ghost s0 = self@;
        proof {
            self.key_matching.key_registry.lemma_finite();
        }
        let due = self.key_matching.key_registry.sweep_due();
        if due {
            self.sweep_rooms(now);
        }
        let ghost mid = self@;
        proof {
            if due {
                assert(sweep_step(s0, mid, now));
            } else {
                assert(mid == s0);
            }
            if s0.rooms.len() < REGISTRY_CAPACITY && mid != s0 {
                assert(mid.rooms.dom().subset_of(s0.rooms.dom()));
                vstd::set_lib::lemma_len_subset(mid.rooms.dom(), s0.rooms.dom());
            }
        }
        if self.key_matching.key_registry.contains(key) || self.key_matching.key_registry.is_full() {
            assert(create_room_fresh_step(mid, self@, key, now, None));
            return None;
        }
        proof {
            self.hub.lemma_wf();
        }
        proof {
            self.key_matching.key_registry.lemma_finite();
        }
        let ghost rooms0 = self@.rooms;
        let (mine, theirs) = message_sockets(&mut self.hub);
        self.key_matching.key_registry.insert(key, theirs, now);
        proof {
            self.key_matching.key_registry.lemma_finite();
            assert(self@.rooms.dom() =~= rooms0.dom().insert(key));
            assert(self@.rooms.len() == rooms0.len() + 1);
            assert(waiting_below(self@.waiting, self@.next));
        }
        assert(create_room_fresh_step(mid, self@, key, now, Some(mine)));
        assert(s0.rooms.len() >= REGISTRY_CAPACITY ==> sweep_step(s0, mid, now));
        assert(mid == s0 || sweep_step(s0, mid, now));
        Some(mine)
    }

    /// Creates a room at `now` under a random key that no room of the
    /// registry holds (a key that is taken is drawn again, a few times),
    /// and hands the creator its key and its end of the room's channel.
    pub fn create_room(&mut self, now: u64) -> (r: Option<(u128, MessageSocket)>)
        requires
            old(self).wf(),
            old(self).hub.can_open(),
        ensures
            final(self).wf(),
            match r {
                Some((key, socket)) => {
                    &&& create_room_step(old(self)@, final(self)@, key, now, Some(socket))
                    &&& !(old(self)@.rooms.contains_key(key) && old(self)@.rooms[key].live_at(now))
                },
                None => exists|key: u128| #[trigger] create_room_step(old(self)@, final(self)@, key, now, None),
            },
    {
        let mut key = fresh_key();
        let mut draws: usize = 1;
        while draws < KEY_DRAWS && self.key_matching.key_registry.contains(key)
            invariant
                1 <= draws <= KEY_DRAWS,
            decreases KEY_DRAWS - draws,
        {
            key = fresh_key();
            draws = draws + 1;
        }
        let ghost s0 = self@;
        match self.create_room_with_key(key, now) {
            Some(socket) => {
                proof {
                    let mid = choose|mid: StateView<P>|
                        (s0.rooms.len() >= REGISTRY_CAPACITY ==> sweep_step(s0, mid, now)) && (mid == s0
                            || sweep_step(s0, mid, now)) && #[trigger] create_room_fresh_step(
                            mid,
                            self@,
                            key,
                            now,
                            Some(socket),
                        );
                    if s0.rooms.contains_key(key) && s0.rooms[key].live_at(now) {
                        assert(mid.rooms.contains_key(key));
                    }
                }
                Some((key, socket))
            },
            None => None,
        }
    }

    /// Takes the room under `key` in one step. Its withheld end is handed
    /// out if the room is live at `now`; an expired room is dropped and
    /// reads as not found. See [`find_room_step`].
    pub fn find_room(&mut self, key: u128, now: u64) -> (r: Option<MessageSocket>)
        requires
            old(self).wf(),
        ensures
            final(self).wf(),
            find_room_step(old(self)@, final(self)@, key, now, r),
    {
        proof {
            self.key_matching.key_registry.lemma_finite();
        }
        let ghost rooms0 = self@.rooms;
        if let Some(expired) = self.key_matching.key_registry.take_expired(key, now) {
            self.hub.release(expired.socket);
        }
        let found = self.key_matching.key_registry.remove(key, now);
        assert(self@.rooms =~= rooms0.remove(key));
        assert(self@.rooms.len() <= REGISTRY_CAPACITY) by {
            if rooms0.contains_key(key) {
                assert(self@.rooms.dom() =~= rooms0.dom().remove(key));
            }
        }
        match found {
            None => None,
            Some(entry) => Some(entry.socket),
        }
    }
}

impl<P> Default for State<P> {
    fn default() -> (r: State<P>)
        ensures
            r.wf(),
            r@ == (StateView::<P> { pipes: Map::empty(), next: 0, waiting: None, rooms: Map::empty() }),
    {
        State::new()
    }
}

} // verus!
