use vstd::prelude::*;

verus! {

/// A command from the transport, for one session. `P` is the application's
/// payload, relayed without being looked into.
#[derive(Debug, PartialEq)]
pub enum HugCommand<P> {
    /// Join the room whose key has the text `key`.
    JoinRoom { key: String },
    /// Join the random queue.
    JoinRandom,
    /// Create a room and wait in it.
    CreateRoom,
    /// Leave the current pairing.
    Leave,
    /// Relay `payload` to the peer.
    Push { payload: P },
}

/// An event for the transport, from one session.
#[derive(Debug, PartialEq)]
pub enum HugEvent<P> {
    /// The session is paired. `is_primary` is true on the side that waited
    /// (the room's creator, the earlier random joiner).
    Joined { is_primary: bool },
    /// A room was created; `key` is its key's text, to be shared.
    RoomCreated { key: String },
    /// The room key is unknown, expired, already used, or not a key at all.
    NotFound,
    /// The peer pushed `payload`.
    Push { payload: P },
}

} // verus!
