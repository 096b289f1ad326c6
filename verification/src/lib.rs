//! The core of a WebSocket gateway that serves live data to subscribers.
//!
//! Clients subscribe to named channels, say that they are ready, and receive
//! the payload of their channels as a delta against what they were sent
//! last. The single writer of all sessions is the [`broker::Broker`]; it is a
//! state machine from events to actions and does no input or output itself.
//!
//! - [`json`]: JSON documents and their mathematical values.
//! - [`utils`]: the delta between two snapshots.
//! - [`frame`]: the frames of the protocol and their text on the wire.
//! - [`client`]: the session of one peer.
//! - [`broker`]: the sessions of all peers and the handling of events.
//! - [`connection`]: what the handler of one connection reports to the broker.
//! - [`channel`], [`state`]: the sources of data and the state they read.
//! - [`wire`]: JSON text, compression and trimming, as `serde_json`, `lz-str`
//!   and `std` provide them.
//! - [`assoc`], [`text`]: lists of named entries, and the comparison of texts.

pub mod assoc;
pub mod broker;
pub mod channel;
pub mod client;
pub mod connection;
pub mod frame;
pub mod json;
pub mod state;
pub mod text;
pub mod utils;
pub mod wire;
