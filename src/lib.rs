//! A pairing and relay engine: two participants are matched either at random
//! or through a single-use room key, and then exchange payloads over a bounded
//! paired channel.
//!
//! The engine is a single-writer state machine. The transport that owns the
//! connections holds the [`State`] behind one lock, performs the suspensions
//! (a full channel, an empty inbox) and hands each event back to it.

pub mod channel;
pub mod client;
pub mod key_registry;
pub mod payload;
pub mod room_key;
pub mod state;

pub use channel::{message_sockets, Hub, Message, MessageSocket, RecvOutcome, SendOutcome, CHANNEL_CAPACITY};
pub use client::{Client, ClientError};
pub use key_registry::{KeyRegistry, RoomEntry, REGISTRY_CAPACITY, ROOM_TTL_MILLIS};
pub use payload::{HugCommand, HugEvent};
pub use state::{KeyMatching, MatchWait, RandomMatching, State};
