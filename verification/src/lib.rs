//! Fastnet: a connection-oriented messaging protocol over best-effort
//! datagrams, with a verified wire codec, checksum framing, and a verified
//! per-connection state machine.

use vstd::prelude::*;

pub mod acks;
pub mod codec;
pub mod connection;
pub mod engine;
pub mod events;
pub mod frame;
pub mod packets;
pub mod responders;
pub mod roundtrip;
pub mod status_translator;
pub mod wire;

verus! {

/// Channels `0xFFFD`, `0xFFFE` and `0xFFFF` are reserved on the wire for the
/// echo, heartbeat and control discriminators; data may use channels below.
pub const MAX_CHANNEL: u16 = 0xFFFC;

} // verus!
