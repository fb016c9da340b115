use crate::channel::{
    accepts_in, delivered_in, held_in, released_in, Message, MessageSocket, RecvOutcome, SendOutcome,
};
use crate::key_registry::REGISTRY_CAPACITY;
use crate::payload::{HugCommand, HugEvent};
use crate::room_key::{key_text, parse_key, uuid_parsed, uuid_text};
use crate::state::{create_room_step, join_random_step, State, StateView};
use vstd::prelude::*;

verus! {

/// Why a session operation failed. The session stays usable.
#[derive(Debug, PartialEq)]
pub enum ClientError<P> {
    /// A push while unpaired.
    NotPaired,
    /// The peer has let go of its end: the session is unpaired now.
    PeerGone,
    /// The peer's inbox is full: the payload is handed back, to be pushed
    /// again once the peer has drained some of it.
    Full(P),
    /// No room can be created: the registry is full of live rooms, or every
    /// key drawn was taken.
    RegistryFull,
}

/// One connection's session: unpaired, or paired through the end of a
/// channel that it holds.
pub struct Client {
    pub message_socket: Option<MessageSocket>,
}

/// `leave` from session `c0` and state `s0` to `c1` and `s1`.
pub open spec fn leave_step<P>(c0: Client, s0: StateView<P>, c1: Client, s1: StateView<P>) -> bool {
    &&& c1.message_socket is None
    &&& s1 == s0.left(c0.message_socket)
}

/// `join_random`: the session leaves its pairing, then joins the random
/// queue; matched, it learns `Joined` as the secondary side.
pub open spec fn join_random_client_step<P>(
    c0: Client,
    s0: StateView<P>,
    c1: Client,
    s1: StateView<P>,
    r: Option<HugEvent<P>>,
) -> bool {
    &&& c1.message_socket is Some
    &&& join_random_step(s0.left(c0.message_socket), s1, (c1.message_socket->0, r is Some))
    &&& r is Some ==> r == Some(HugEvent::<P>::Joined { is_primary: false })
}

/// `create_room` at `now`: the session leaves its pairing, then creates a
/// room and learns its key's text, which `uuid` writes for the room's key.
/// When no room can be created it stays unpaired.
pub open spec fn create_room_client_step<P>(
    c0: Client,
    s0: StateView<P>,
    c1: Client,
    s1: StateView<P>,
    now: u64,
    r: Result<HugEvent<P>, ClientError<P>>,
) -> bool {
    let mid = s0.left(c0.message_socket);
    &&& match r {
        Ok(HugEvent::RoomCreated { key }) => {
            &&& uuid_parsed(key@) is Some
            &&& key@ == uuid_text(uuid_parsed(key@)->0)
            &&& c1.message_socket is Some
            &&& create_room_step(mid, s1, uuid_parsed(key@)->0, now, c1.message_socket)
        },
        Ok(_) => false,
        Err(e) => {
            &&& e is RegistryFull
            &&& c1.message_socket is None
            &&& exists|k: u128| #[trigger] create_room_step(mid, s1, k, now, None)
        },
    }
}

/// `join_room` of `key` at `now`. The room is looked up; a live one whose
/// creator is still there (and has room in its inbox for the notice) is
/// joined: the session leaves its old pairing,
/// holds the room's end, the creator is told `Joined`, and the session
/// learns `Joined` as the secondary side. Otherwise the session learns
/// `NotFound` and keeps its pairing; an end whose creator is gone is let go.
pub open spec fn join_room_client_step<P>(
    c0: Client,
    s0: StateView<P>,
    c1: Client,
    s1: StateView<P>,
    key: u128,
    now: u64,
    r: HugEvent<P>,
) -> bool {
    let mid = s0.after_find_room(key, now);
    match s0.found_room(key, now) {
        None => r is NotFound && c1 == c0 && s1 == mid,
        Some(s) => if accepts_in(mid.pipes, s) {
            &&& r == HugEvent::<P>::Joined { is_primary: false }
            &&& c1.message_socket == Some(s)
            &&& s1 == mid.with_pipes(delivered_in(mid.pipes, s, Message::Joined)).left(c0.message_socket)
        } else {
            &&& r is NotFound
            &&& c1 == c0
            &&& s1 == mid.with_pipes(released_in(mid.pipes, s))
        },
    }
}

/// `push` of `payload`. Paired with a peer that has room, the payload is
/// queued for it. With a full peer inbox nothing changes and the payload
/// comes back; with the peer gone the session lets go of its end.
pub open spec fn push_step<P>(
    c0: Client,
    s0: StateView<P>,
    c1: Client,
    s1: StateView<P>,
    payload: P,
    r: Result<(), ClientError<P>>,
) -> bool {
    match c0.message_socket {
        None => r == Err::<(), ClientError<P>>(ClientError::NotPaired) && c1 == c0 && s1 == s0,
        Some(s) => if !held_in(s0.pipes, s.peer()) {
            &&& r == Err::<(), ClientError<P>>(ClientError::PeerGone)
            &&& c1.message_socket is None
            &&& s1 == s0.with_pipes(released_in(s0.pipes, s))
        } else if s0.pipes[s.channel].inbox(!s.side).len() >= crate::channel::CHANNEL_CAPACITY {
            &&& r == Err::<(), ClientError<P>>(ClientError::Full(payload))
            &&& c1 == c0
            &&& s1 == s0
        } else {
            &&& r == Ok::<(), ClientError<P>>(())
            &&& c1 == c0
            &&& s1 == s0.with_pipes(delivered_in(s0.pipes, s, Message::Payload(payload)))
        },
    }
}

/// What the session makes of `message` from its peer (`None`: the peer is
/// gone and nothing is left queued). A payload becomes a `Push` event;
/// `Joined` means the peer came to this side, which is the primary one. On
/// `Leave`, or with the peer gone, the session leaves its pairing.
pub open spec fn handle_message_step<P>(
    c0: Client,
    s0: StateView<P>,
    c1: Client,
    s1: StateView<P>,
    message: Option<Message<P>>,
    r: Option<HugEvent<P>>,
) -> bool {
    match message {
        Some(Message::Payload(payload)) => r == Some(HugEvent::Push { payload }) && c1 == c0 && s1 == s0,
        Some(Message::Joined) => r == Some(HugEvent::<P>::Joined { is_primary: true }) && c1 == c0 && s1
            == s0,
        _ => r is None && leave_step(c0, s0, c1, s1),
    }
}

/// One command from session `c0` and state `s0` to `c1` and `s1`. A room
/// key whose text is no key at all reads as not found.
pub open spec fn command_step<P>(
    c0: Client,
    s0: StateView<P>,
    c1: Client,
    s1: StateView<P>,
    command: HugCommand<P>,
    now: u64,
    r: Result<Option<HugEvent<P>>, ClientError<P>>,
) -> bool {
    match command {
        HugCommand::JoinRoom { key } => match uuid_parsed(key@) {
            None => r == Ok::<Option<HugEvent<P>>, ClientError<P>>(Some(HugEvent::NotFound)) && c1 == c0
                && s1 == s0,
            Some(k) => match r {
                Ok(Some(event)) => join_room_client_step(c0, s0, c1, s1, k, now, event),
                _ => false,
            },
        },
        HugCommand::JoinRandom => match r {
            Ok(event) => join_random_client_step(c0, s0, c1, s1, event),
            Err(_) => false,
        },
        HugCommand::CreateRoom => match r {
            Ok(Some(event)) => create_room_client_step(c0, s0, c1, s1, now, Ok(event)),
            Ok(None) => false,
            Err(e) => create_room_client_step(c0, s0, c1, s1, now, Err(e)),
        },
        HugCommand::Leave => r == Ok::<Option<HugEvent<P>>, ClientError<P>>(None) && leave_step(
            c0,
            s0,
            c1,
            s1,
        ),
        HugCommand::Push { payload } => match r {
            Ok(Some(_)) => false,
            Ok(None) => push_step(c0, s0, c1, s1, payload, Ok(())),
            Err(e) => push_step(c0, s0, c1, s1, payload, Err(e)),
        },
    }
}

/// A push to a peer whose inbox already holds a full channel's worth
/// neither drops the payload nor fails the pairing: nothing changes and the
/// payload comes back, for the sender to wait and push again. With room in
/// the peer's inbox, the payload is queued behind what is already there.
pub proof fn lemma_backpressure<P>(
    c0: Client,
    s0: StateView<P>,
    c1: Client,
    s1: StateView<P>,
    payload: P,
    r: Result<(), ClientError<P>>,
)
    requires
        c0.message_socket is Some,
        held_in(s0.pipes, c0.message_socket->0.peer()),
        push_step(c0, s0, c1, s1, payload, r),
    ensures
        ({
            let s = c0.message_socket->0;
            let queued = s0.pipes[s.channel].inbox(!s.side);
            &&& queued.len() >= crate::channel::CHANNEL_CAPACITY ==> {
                &&& r == Err::<(), ClientError<P>>(ClientError::Full(payload))
                &&& s1 == s0
                &&& c1 == c0
            }
            &&& queued.len() < crate::channel::CHANNEL_CAPACITY ==> {
                &&& r is Ok
                &&& s1.pipes[s.channel].inbox(!s.side) == queued.push(Message::Payload(payload))
                &&& c1 == c0
            }
        }),
{
}

/// A payload pushed by one side reaches the other side's session as exactly
/// one `Push` event carrying it, after everything queued before it.
pub proof fn lemma_relay<P>(
    a0: Client,
    s0: StateView<P>,
    a1: Client,
    s1: StateView<P>,
    payload: P,
    r: Result<(), ClientError<P>>,
)
    requires
        a0.message_socket is Some,
        push_step(a0, s0, a1, s1, payload, r),
        r is Ok,
    ensures
        ({
            let b = a0.message_socket->0.peer();
            let before = s0.pipes[b.channel].inbox(b.side);
            let after = s1.pipes[b.channel].inbox(b.side);
            &&& after == before.push(Message::Payload(payload))
            &&& after[before.len() as int] == Message::Payload(payload)
            &&& forall|c: Client, t0: StateView<P>, c1: Client, t1: StateView<P>, e: Option<HugEvent<P>>|
                handle_message_step(c, t0, c1, t1, Some(after[before.len() as int]), e) ==> e == Some(
                    HugEvent::Push { payload },
                )
        }),
{
}

/// The messages that relay the payloads `ps`, in order.
pub open spec fn relayed<P>(ps: Seq<P>) -> Seq<Message<P>> {
    ps.map_values(|p: P| Message::Payload(p))
}

/// Payloads pushed one after another by one side, each accepted, are queued
/// for the other side in the order they were pushed, each exactly once,
/// behind what was queued before.
pub proof fn lemma_relay_in_order<P>(
    clients: Seq<Client>,
    states: Seq<StateView<P>>,
    ps: Seq<P>,
    results: Seq<Result<(), ClientError<P>>>,
)
    requires
        clients.len() == ps.len() + 1,
        states.len() == ps.len() + 1,
        results.len() == ps.len(),
        clients[0].message_socket is Some,
        forall|i: int|
            0 <= i < ps.len() ==> push_step(clients[i], states[i], clients[i + 1], states[i + 1], ps[i], #[trigger] results[i])
                && results[i] is Ok,
    ensures
        ({
            let b = clients[0].message_socket->0.peer();
            states[ps.len() as int].pipes[b.channel].inbox(b.side) == states[0].pipes[b.channel].inbox(b.side)
                + relayed(ps)
        }),
    decreases ps.len(),
{
    let n = ps.len() as int;
    let b = clients[0].message_socket->0.peer();
    if n > 0 {
        let cs = clients.take(n);
        let ss = states.take(n);
        let qs = ps.take(n - 1);
        let rs = results.take(n - 1);
        assert forall|i: int| 0 <= i < qs.len() implies push_step(cs[i], ss[i], cs[i + 1], ss[i + 1], qs[i], #[trigger] rs[i])
            && rs[i] is Ok by {
            assert(results[i] is Ok);
        }
        lemma_relay_in_order(cs, ss, qs, rs);
        assert(ss[n - 1] == states[n - 1]);
        assert(results[n - 1] is Ok);
        assert(push_step(clients[n - 1], states[n - 1], clients[(n - 1) + 1], states[(n - 1) + 1], ps[n - 1], results[n - 1]));
        lemma_same_client(clients, states, ps, results, n - 1);
        assert(relayed(ps) =~= relayed(ps.take(n - 1)).push(Message::Payload(ps[n - 1])));
        assert(states[n].pipes[b.channel].inbox(b.side) =~= states[0].pipes[b.channel].inbox(b.side) + relayed(ps));
    } else {
        assert(relayed(ps) =~= Seq::<Message<P>>::empty());
        assert(states[0].pipes[b.channel].inbox(b.side) + relayed(ps) =~= states[0].pipes[b.channel].inbox(b.side));
    }
}

/// An accepted push leaves the session as it was.
proof fn lemma_same_client<P>(
    clients: Seq<Client>,
    states: Seq<StateView<P>>,
    ps: Seq<P>,
    results: Seq<Result<(), ClientError<P>>>,
    k: int,
)
    requires
        0 <= k <= ps.len(),
        clients.len() == ps.len() + 1,
        states.len() == ps.len() + 1,
        results.len() == ps.len(),
        forall|i: int|
            0 <= i < ps.len() ==> push_step(clients[i], states[i], clients[i + 1], states[i + 1], ps[i], #[trigger] results[i])
                && results[i] is Ok,
    ensures
        clients[k] == clients[0],
    decreases k,
{
    if k > 0 {
        lemma_same_client(clients, states, ps, results, k - 1);
        assert(results[k - 1] is Ok);
        assert(push_step(clients[k - 1], states[k - 1], clients[(k - 1) + 1], states[(k - 1) + 1], ps[k - 1], results[k - 1]));
        assert(clients[(k - 1) + 1] == clients[k]);
    }
}

impl Client {
    /// A session that is not paired.
    pub fn new() -> (r: Client)
        ensures
            r.message_socket is None,
    {
        Client { message_socket: None }
    }

    /// Leaves the current pairing, if any: the peer is told `Leave`, then
    /// the session lets go of its end, so that the peer's receives end.
    pub fn leave<P>(&mut self, state: &mut State<P>)
        requires
            old(state).wf(),
        ensures
            final(state).wf(),
            leave_step(*old(self), old(state)@, *final(self), final(state)@),
    {
        if let Some(socket) = self.message_socket.take() {
            state.hub.send(&socket, Message::Leave);
            state.hub.release(socket);
        }
    }

    /// Joins the random queue; see [`join_random_client_step`].
    pub fn join_random<P>(&mut self, state: &mut State<P>) -> (r: Option<HugEvent<P>>)
        requires
            old(state).wf(),
            old(state).hub.can_open(),
        ensures
            final(state).wf(),
            join_random_client_step(*old(self), old(state)@, *final(self), final(state)@, r),
    {
        self.leave(state);
        let (socket, matched) = state.join_random();
        self.message_socket = Some(socket);
        if matched {
            Some(HugEvent::Joined { is_primary: false })
        } else {
            None
        }
    }

    /// Creates a room and waits in it; see [`create_room_client_step`].
    pub fn create_room<P>(&mut self, state: &mut State<P>, now: u64) -> (r: Result<HugEvent<P>, ClientError<P>>)
        requires
            old(state).wf(),
            old(state).hub.can_open(),
        ensures
            final(state).wf(),
            create_room_client_step(*old(self), old(state)@, *final(self), final(state)@, now, r),
    {
        self.leave(state);
        match state.create_room(now) {
            Some((key, socket)) => {
                self.message_socket = Some(socket);
                Ok(HugEvent::RoomCreated { key: key_text(key) })
            },
            None => Err(ClientError::RegistryFull),
        }
    }

    /// Joins the room under `key`; see [`join_room_client_step`].
    pub fn join_room<P>(&mut self, state: &mut State<P>, key: u128, now: u64) -> (r: HugEvent<P>)
        requires
            old(state).wf(),
        ensures
            final(state).wf(),
            join_room_client_step(*old(self), old(state)@, *final(self), final(state)@, key, now, r),
    {
        match state.find_room(key, now) {
            None => HugEvent::NotFound,
            Some(socket) => {
                match state.hub.send(&socket, Message::Joined) {
                    SendOutcome::Sent => {
                        self.leave(state);
                        self.message_socket = Some(socket);
                        HugEvent::Joined { is_primary: false }
                    },
                    _ => {
                        state.hub.release(socket);
                        HugEvent::NotFound
                    },
                }
            },
        }
    }

    /// Relays `payload` to the peer; see [`push_step`].
    pub fn push<P>(&mut self, state: &mut State<P>, payload: P) -> (r: Result<(), ClientError<P>>)
        requires
            old(state).wf(),
        ensures
            final(state).wf(),
            push_step(*old(self), old(state)@, *final(self), final(state)@, payload, r),
    {
        match self.message_socket.take() {
            None => Err(ClientError::NotPaired),
            Some(socket) => {
                match state.hub.check_send(&socket) {
                    SendOutcome::Sent => {
                        state.hub.send(&socket, Message::Payload(payload));
                        self.message_socket = Some(socket);
                        Ok(())
                    },
                    SendOutcome::Full => {
                        self.message_socket = Some(socket);
                        Err(ClientError::Full(payload))
                    },
                    SendOutcome::Disconnected => {
                        state.hub.release(socket);
                        Err(ClientError::PeerGone)
                    },
                }
            },
        }
    }

    /// Acts on what was received from the peer; see [`handle_message_step`].
    pub fn handle_message<P>(&mut self, state: &mut State<P>, message: Option<Message<P>>) -> (r: Option<
        HugEvent<P>,
    >)
        requires
            old(state).wf(),
        ensures
            final(state).wf(),
            handle_message_step(*old(self), old(state)@, *final(self), final(state)@, message, r),
    {
        match message {
            Some(Message::Payload(payload)) => Some(HugEvent::Push { payload }),
            Some(Message::Joined) => Some(HugEvent::Joined { is_primary: true }),
            _ => {
                self.leave(state);
                None
            },
        }
    }

    /// Takes the next message from the peer. Unpaired, there is nothing to
    /// wait for: the result is `Empty` and nothing changes.
    pub fn recv_message<P>(&mut self, state: &mut State<P>) -> (r: RecvOutcome<P>)
        requires
            old(state).wf(),
        ensures
            final(state).wf(),
            *final(self) == *old(self),
            match old(self).message_socket {
                None => r is Empty && final(state)@ == old(state)@,
                Some(s) => {
                    &&& r == old(state).hub.recv_outcome(s)
                    &&& final(state)@ == (if r is Message {
                        old(state)@.with_pipes(
                            old(state)@.pipes.insert(s.channel, old(state)@.pipes[s.channel].popped(s.side)),
                        )
                    } else {
                        old(state)@
                    })
                },
            },
    {
        match &self.message_socket {
            None => RecvOutcome::Empty,
            Some(socket) => state.hub.recv(socket),
        }
    }

    /// Carries out one command from the transport, with `now` as the time.
    /// The event it yields, if any, goes to this session's own transport.
    pub fn handle_command<P>(&mut self, state: &mut State<P>, command: HugCommand<P>, now: u64) -> (r: Result<
        Option<HugEvent<P>>,
        ClientError<P>,
    >)
        requires
            old(state).wf(),
            old(state).hub.can_open(),
        ensures
            final(state).wf(),
            command_step(*old(self), old(state)@, *final(self), final(state)@, command, now, r),
    {
        match command {
            HugCommand::JoinRoom { key } => match parse_key(key.as_str()) {
                None => Ok(Some(HugEvent::NotFound)),
                Some(k) => Ok(Some(self.join_room(state, k, now))),
            },
            HugCommand::JoinRandom => Ok(self.join_random(state)),
            HugCommand::CreateRoom => match self.create_room(state, now) {
                Ok(event) => Ok(Some(event)),
                Err(e) => Err(e),
            },
            HugCommand::Leave => {
                self.leave(state);
                Ok(None)
            },
            HugCommand::Push { payload } => match self.push(state, payload) {
                Ok(()) => Ok(None),
                Err(e) => Err(e),
            },
        }
    }
}

} // verus!
