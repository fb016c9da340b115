use std::collections::HashMap;
use std::collections::VecDeque;
use vstd::prelude::*;

verus! {

broadcast use vstd::std_specs::hash::group_hash_axioms;

/// How many messages one direction of a paired channel queues before the
/// sender has to wait.
pub const CHANNEL_CAPACITY: usize = 100;

/// What travels over a paired channel.
#[derive(Debug, PartialEq)]
pub enum Message<P> {
    /// Application data, relayed unchanged.
    Payload(P),
    /// The peer has connected.
    Joined,
    /// The peer is leaving.
    Leave,
}

/// One end of a paired channel: the channel's number and the side of it.
///
/// The two ends of one channel differ only in `side`.
#[derive(Debug, PartialEq, Eq, Structural)]
pub struct MessageSocket {
    pub channel: u64,
    pub side: bool,
}

impl MessageSocket {
    /// The other end of the same channel.
    pub open spec fn peer(self) -> MessageSocket {
        MessageSocket { channel: self.channel, side: !self.side }
    }
}

/// The two queues of one channel, each directed to one side, and whether
/// each side's endpoint is still held by someone.
pub struct Pipe<P> {
    pub to_false: VecDeque<Message<P>>,
    pub to_true: VecDeque<Message<P>>,
    pub false_held: bool,
    pub true_held: bool,
}

/// The mathematical value of a [`Pipe`].
pub struct PipeView<P> {
    pub to_false: Seq<Message<P>>,
    pub to_true: Seq<Message<P>>,
    pub false_held: bool,
    pub true_held: bool,
}

impl<P> PipeView<P> {
    /// A channel as it is created: nothing queued, both ends held.
    pub open spec fn fresh() -> PipeView<P> {
        PipeView { to_false: Seq::empty(), to_true: Seq::empty(), false_held: true, true_held: true }
    }

    /// The messages that wait to be received at `side`.
    pub open spec fn inbox(self, side: bool) -> Seq<Message<P>> {
        if side { self.to_true } else { self.to_false }
    }

    /// Whether the endpoint at `side` is held.
    pub open spec fn held(self, side: bool) -> bool {
        if side { self.true_held } else { self.false_held }
    }

    /// The channel with `m` appended to the inbox of `side`.
    pub open spec fn pushed(self, side: bool, m: Message<P>) -> PipeView<P> {
        if side {
            PipeView { to_true: self.to_true.push(m), ..self }
        } else {
            PipeView { to_false: self.to_false.push(m), ..self }
        }
    }

    /// The channel with the first message of the inbox of `side` taken out.
    pub open spec fn popped(self, side: bool) -> PipeView<P> {
        if side {
            PipeView { to_true: self.to_true.drop_first(), ..self }
        } else {
            PipeView { to_false: self.to_false.drop_first(), ..self }
        }
    }

    /// The channel once the endpoint at `side` is let go.
    pub open spec fn released(self, side: bool) -> PipeView<P> {
        if side {
            PipeView { true_held: false, ..self }
        } else {
            PipeView { false_held: false, ..self }
        }
    }
}

impl<P> View for Pipe<P> {
    type V = PipeView<P>;

    open spec fn view(&self) -> PipeView<P> {
        PipeView {
            to_false: self.to_false@,
            to_true: self.to_true@,
            false_held: self.false_held,
            true_held: self.true_held,
        }
    }
}

/// The outcome of a send.
#[derive(Debug, PartialEq)]
pub enum SendOutcome {
    /// The message was queued for the peer.
    Sent,
    /// The peer's inbox holds a full channel's worth: wait for it to drain.
    Full,
    /// The peer's endpoint is gone.
    Disconnected,
}

/// The outcome of a receive.
#[derive(Debug, PartialEq)]
pub enum RecvOutcome<P> {
    /// The first queued message.
    Message(Message<P>),
    /// Nothing is queued but the peer is still there: wait.
    Empty,
    /// Nothing is queued and the peer is gone: no more messages will come.
    Closed,
}

/// The channels `pipes` after `e` is let go: a channel whose two ends are
/// both let go is gone.
pub open spec fn released_in<P>(pipes: Map<u64, PipeView<P>>, e: MessageSocket) -> Map<u64, PipeView<P>> {
    if !pipes.contains_key(e.channel) {
        pipes
    } else if !pipes[e.channel].held(!e.side) {
        pipes.remove(e.channel)
    } else {
        pipes.insert(e.channel, pipes[e.channel].released(e.side))
    }
}

/// Whether `e` is an end of a channel in `pipes` and is held.
pub open spec fn held_in<P>(pipes: Map<u64, PipeView<P>>, e: MessageSocket) -> bool {
    pipes.contains_key(e.channel) && pipes[e.channel].held(e.side)
}

/// The channels `pipes` after `m` is queued for the peer of `from`.
pub open spec fn delivered_in<P>(pipes: Map<u64, PipeView<P>>, from: MessageSocket, m: Message<P>) -> Map<
    u64,
    PipeView<P>,
> {
    pipes.insert(from.channel, pipes[from.channel].pushed(!from.side, m))
}

/// Whether the peer of `from` takes one more message: it is held and its
/// inbox holds less than a full channel's worth.
pub open spec fn accepts_in<P>(pipes: Map<u64, PipeView<P>>, from: MessageSocket) -> bool {
    held_in(pipes, from.peer()) && pipes[from.channel].inbox(!from.side).len() < CHANNEL_CAPACITY
}

/// The channels `pipes` after a send of `m` from `from`: it is queued if the
/// peer takes it, and nothing changes otherwise.
pub open spec fn sent_in<P>(pipes: Map<u64, PipeView<P>>, from: MessageSocket, m: Message<P>) -> Map<
    u64,
    PipeView<P>,
> {
    if accepts_in(pipes, from) {
        delivered_in(pipes, from, m)
    } else {
        pipes
    }
}

/// What a receive at `at` returns from the channels `pipes`: the first
/// message queued for `at`; with none, `Empty` while the peer is held and
/// `Closed` once it is not.
pub open spec fn received_in<P>(pipes: Map<u64, PipeView<P>>, at: MessageSocket) -> RecvOutcome<P> {
    if !pipes.contains_key(at.channel) {
        RecvOutcome::Closed
    } else if pipes[at.channel].inbox(at.side).len() > 0 {
        RecvOutcome::Message(pipes[at.channel].inbox(at.side)[0])
    } else if pipes[at.channel].held(!at.side) {
        RecvOutcome::Empty
    } else {
        RecvOutcome::Closed
    }
}

/// Letting go of an end closes the peer's stream gracefully: what was
/// queued for the peer still arrives, in order, and once it has been taken
/// the peer's next receive reports that no more messages will come, rather
/// than waiting or failing.
pub proof fn lemma_release_closes_peer<P>(pipes: Map<u64, PipeView<P>>, e: MessageSocket)
    requires
        held_in(pipes, e),
    ensures
        ({
            let after = released_in(pipes, e);
            let peer = e.peer();
            &&& !held_in(after, e)
            &&& after.contains_key(e.channel) ==> after[e.channel].inbox(peer.side) == pipes[e.channel].inbox(
                peer.side,
            )
            &&& pipes[e.channel].inbox(peer.side).len() == 0 ==> received_in(after, peer) is Closed
            &&& pipes[e.channel].inbox(peer.side).len() > 0 && held_in(pipes, peer) ==> received_in(after, peer)
                == RecvOutcome::Message(pipes[e.channel].inbox(peer.side)[0])
        }),
{
}

/// Whether no inbox of `pipes` holds more than a full channel's worth.
pub open spec fn bounded<P>(pipes: Map<u64, PipeView<P>>) -> bool {
    forall|id: u64|
        #[trigger] pipes.contains_key(id) ==> pipes[id].to_false.len() <= CHANNEL_CAPACITY
            && pipes[id].to_true.len() <= CHANNEL_CAPACITY
}

/// Every paired channel that at least one end still holds.
///
/// The queues are owned here, by one writer, rather than shared between two
/// handles: what a shared queue holds cannot be stated of either handle
/// alone, and the pairing rules need exactly that.
pub struct Hub<P> {
    pipes: HashMap<u64, Pipe<P>>,
    next: u64,
}

impl<P> View for Hub<P> {
    type V = Map<u64, PipeView<P>>;

    closed spec fn view(&self) -> Map<u64, PipeView<P>> {
        self.pipes@.map_values(|p: Pipe<P>| p@)
    }
}

impl<P> Hub<P> {
    /// The number that the next channel will get.
    pub closed spec fn next_id(&self) -> u64 {
        self.next
    }

    /// Every channel in the hub has a number below the next one, and no
    /// inbox holds more than a full channel's worth.
    pub closed spec fn wf(&self) -> bool {
        &&& forall|id: u64| #[trigger] self.pipes@.contains_key(id) ==> id < self.next
        &&& bounded(self@)
    }

    pub open spec fn wf_and_fresh(&self) -> bool {
        &&& self.wf()
        &&& bounded(self@)
        &&& forall|id: u64| #[trigger] self@.contains_key(id) ==> id < self.next_id()
    }

    /// Whether one more channel can be numbered.
    pub open spec fn can_open(&self) -> bool {
        self.next_id() < u64::MAX
    }

    /// Whether `e` is an end of a channel in the hub.
    pub open spec fn has(&self, e: MessageSocket) -> bool {
        self@.contains_key(e.channel)
    }

    /// Whether `e` is an end of a channel in the hub and is held.
    /// The messages that wait to be received at `e`.
    pub open spec fn inbox(&self, e: MessageSocket) -> Seq<Message<P>> {
        self@[e.channel].inbox(e.side)
    }

    /// What a send of `m` from `from` returns.
    pub open spec fn send_outcome(&self, from: MessageSocket) -> SendOutcome {
        if !held_in(self@, from.peer()) {
            SendOutcome::Disconnected
        } else if self.inbox(from.peer()).len() >= CHANNEL_CAPACITY {
            SendOutcome::Full
        } else {
            SendOutcome::Sent
        }
    }

    /// The channels after `m` is queued for the peer of `from`.
    pub open spec fn delivered(&self, from: MessageSocket, m: Message<P>) -> Map<u64, PipeView<P>> {
        delivered_in(self@, from, m)
    }

    /// The channels after `e` is let go: a channel whose two ends are both
    /// let go is gone.
    pub open spec fn after_release(&self, e: MessageSocket) -> Map<u64, PipeView<P>> {
        released_in(self@, e)
    }

    pub proof fn lemma_wf(&self)
        requires
            self.wf(),
        ensures
            self.wf_and_fresh(),
    {
        assert forall|id: u64| #[trigger] self@.contains_key(id) implies id < self.next_id() by {
            assert(self.pipes@.contains_key(id));
        }
    }

    /// A hub with no channels.
    pub fn new() -> (r: Hub<P>)
        ensures
            r.wf(),
            r@ == Map::<u64, PipeView<P>>::empty(),
            r.next_id() == 0,
    {
        let r = Hub { pipes: HashMap::new(), next: 0 };
        assert(r@ =~= Map::<u64, PipeView<P>>::empty());
        r
    }

    /// Whether one more channel can be numbered.
    pub fn has_capacity(&self) -> (r: bool)
        ensures
            r == self.can_open(),
    {
        self.next < u64::MAX
    }

    /// Opens a new channel and hands out its two ends.
    pub fn open(&mut self) -> (r: (MessageSocket, MessageSocket))
        requires
            old(self).wf(),
            old(self).can_open(),
        ensures
            final(self).wf(),
            !old(self)@.contains_key(old(self).next_id()),
            final(self).next_id() == old(self).next_id() + 1,
            final(self)@ == old(self)@.insert(old(self).next_id(), PipeView::<P>::fresh()),
            r.0 == (MessageSocket { channel: old(self).next_id(), side: false }),
            r.1 == (MessageSocket { channel: old(self).next_id(), side: true }),
    {
        let id = self.next;
        let pipe = Pipe {
            to_false: VecDeque::new(),
            to_true: VecDeque::new(),
            false_held: true,
            true_held: true,
        };
        assert(pipe@ == PipeView::<P>::fresh()) by {
            assert(pipe@.to_false =~= Seq::<Message<P>>::empty());
            assert(pipe@.to_true =~= Seq::<Message<P>>::empty());
        }
        let ghost before = self@;
        self.pipes.insert(id, pipe);
        self.next = id + 1;
        assert(self@ =~= before.insert(id, PipeView::<P>::fresh()));
        (MessageSocket { channel: id, side: false }, MessageSocket { channel: id, side: true })
    }

    /// Queues `m` for the peer of `from`, unless the peer is gone or its
    /// inbox is full; in those cases nothing changes.
    pub fn send(&mut self, from: &MessageSocket, m: Message<P>) -> (r: SendOutcome)
        requires
            old(self).wf(),
        ensures
            final(self).wf(),
            final(self).next_id() == old(self).next_id(),
            r == old(self).send_outcome(*from),
            r is Sent <==> accepts_in(old(self)@, *from),
            final(self)@ == sent_in(old(self)@, *from, m),
    {
        let ghost before = self@;
        let peer_side = !from.side;
        let taken = self.pipes.remove(&from.channel);
        match taken {
            None => {
                assert(self@ =~= before);
                SendOutcome::Disconnected
            },
            Some(mut pipe) => {
                let outcome = if peer_side {
                    if !pipe.true_held {
                        SendOutcome::Disconnected
                    } else if pipe.to_true.len() >= CHANNEL_CAPACITY {
                        SendOutcome::Full
                    } else {
                        pipe.to_true.push_back(m);
                        SendOutcome::Sent
                    }
                } else {
                    if !pipe.false_held {
                        SendOutcome::Disconnected
                    } else if pipe.to_false.len() >= CHANNEL_CAPACITY {
                        SendOutcome::Full
                    } else {
                        pipe.to_false.push_back(m);
                        SendOutcome::Sent
                    }
                };
                self.pipes.insert(from.channel, pipe);
                proof {
                    if outcome is Sent {
                        assert(self@ =~= before.insert(from.channel, before[from.channel].pushed(peer_side, m)));
                    } else {
                        assert(self@ =~= before);
                    }
                }
                outcome
            },
        }
    }

    /// What a send from `from` would return now, without sending.
    pub fn check_send(&self, from: &MessageSocket) -> (r: SendOutcome)
        ensures
            r == self.send_outcome(*from),
    {
        match self.pipes.get(&from.channel) {
            None => SendOutcome::Disconnected,
            Some(pipe) => {
                let (held, queued) = if from.side {
                    (pipe.false_held, pipe.to_false.len())
                } else {
                    (pipe.true_held, pipe.to_true.len())
                };
                if !held {
                    SendOutcome::Disconnected
                } else if queued >= CHANNEL_CAPACITY {
                    SendOutcome::Full
                } else {
                    SendOutcome::Sent
                }
            },
        }
    }

    /// What a receive at `at` returns.
    pub open spec fn recv_outcome(&self, at: MessageSocket) -> RecvOutcome<P> {
        received_in(self@, at)
    }

    /// Takes the first message queued for `at`. With nothing queued, says
    /// whether the peer may still send (`Empty`) or is gone (`Closed`).
    pub fn recv(&mut self, at: &MessageSocket) -> (r: RecvOutcome<P>)
        requires
            old(self).wf(),
        ensures
            final(self).wf(),
            final(self).next_id() == old(self).next_id(),
            r == old(self).recv_outcome(*at),
            r is Message ==> final(self)@ == old(self)@.insert(
                at.channel,
                old(self)@[at.channel].popped(at.side),
            ),
            !(r is Message) ==> final(self)@ == old(self)@,
    {
        let ghost before = self@;
        let taken = self.pipes.remove(&at.channel);
        match taken {
            None => {
                assert(self@ =~= before);
                RecvOutcome::Closed
            },
            Some(mut pipe) => {
                let popped = if at.side {
                    pipe.to_true.pop_front()
                } else {
                    pipe.to_false.pop_front()
                };
                let peer_held = if at.side {
                    pipe.false_held
                } else {
                    pipe.true_held
                };
                self.pipes.insert(at.channel, pipe);
                match popped {
                    Some(m) => {
                        assert(self@ =~= before.insert(at.channel, before[at.channel].popped(at.side)));
                        RecvOutcome::Message(m)
                    },
                    None => {
                        assert(self@ =~= before);
                        if peer_held {
                            RecvOutcome::Empty
                        } else {
                            RecvOutcome::Closed
                        }
                    },
                }
            },
        }
    }

    /// Lets go of `e`. The peer then receives what is still queued for it,
    /// and after that `Closed`; its sends fail with `Disconnected`.
    pub fn release(&mut self, e: MessageSocket)
        requires
            old(self).wf(),
        ensures
            final(self).wf(),
            final(self).next_id() == old(self).next_id(),
            final(self)@ == old(self).after_release(e),
    {
        let ghost before = self@;
        let taken = self.pipes.remove(&e.channel);
        match taken {
            None => {
                assert(self@ =~= before);
            },
            Some(mut pipe) => {
                let peer_held = if e.side {
                    pipe.false_held
                } else {
                    pipe.true_held
                };
                if peer_held {
                    if e.side {
                        pipe.true_held = false;
                    } else {
                        pipe.false_held = false;
                    }
                    self.pipes.insert(e.channel, pipe);
                    assert(self@ =~= before.insert(e.channel, before[e.channel].released(e.side)));
                } else {
                    assert(self@ =~= before.remove(e.channel));
                }
            },
        }
    }
}

/// Opens a paired channel in `hub` and hands out its two ends.
pub fn message_sockets<P>(hub: &mut Hub<P>) -> (r: (MessageSocket, MessageSocket))
    requires
        old(hub).wf(),
        old(hub).can_open(),
    ensures
        final(hub).wf(),
        !old(hub)@.contains_key(old(hub).next_id()),
        final(hub).next_id() == old(hub).next_id() + 1,
        final(hub)@ == old(hub)@.insert(old(hub).next_id(), PipeView::<P>::fresh()),
        r.0 == (MessageSocket { channel: old(hub).next_id(), side: false }),
        r.1 == (MessageSocket { channel: old(hub).next_id(), side: true }),
{
    hub.open()
}

} // verus!
