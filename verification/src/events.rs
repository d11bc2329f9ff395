//! What the engine hands outward: packets to send to a peer address, and
//! callback events for the embedder. Verified code only appends to an
//! `Outbox`; the unverified edge performs the sends and invokes the callbacks.

use vstd::prelude::*;

use crate::packets::{FrameHeader, Packet, Uuid};

verus! {

/// A peer address, as plain values the engine can reason about.
#[derive(PartialEq, Eq, Structural, Clone, Copy, Debug, Hash)]
pub enum Address {
    V4 { ip: u32, port: u16 },
    V6 { ip_hi: u64, ip_lo: u64, port: u16 },
}

/// Why a request failed, as surfaced through `HandlerEvent::RequestFailed`.
#[derive(PartialEq, Eq, Structural, Clone, Copy, Debug)]
pub enum FastnetError {
    NotListening,
    IncompatibleVersions,
    ConnectionAborted,
    TimedOut,
}

/// A callback the embedder owes to its handler.
#[derive(PartialEq, Clone, Debug)]
pub enum HandlerEvent {
    Connected { connection_id: Uuid, request_id: Option<u64> },
    Disconnected { connection_id: Uuid, request_id: Option<u64> },
    RequestFailed { request_id: u64, error: FastnetError },
    Deliver {
        connection_id: Uuid,
        chan: u16,
        payload: Vec<u8>,
        flags: u8,
        header: Option<FrameHeader>,
    },
}

/// A packet owed to a peer.
#[derive(PartialEq, Clone, Debug)]
pub struct Emission {
    pub to: Address,
    pub packet: Packet,
}

/// Everything one engine step produced, in the order produced.
#[derive(Debug)]
pub struct Outbox {
    pub packets: Vec<Emission>,
    pub events: Vec<HandlerEvent>,
}

impl Outbox {
    pub fn new() -> (r: Outbox)
        ensures
            r.packets@ == Seq::<Emission>::empty(),
            r.events@ == Seq::<HandlerEvent>::empty(),
    {
        Outbox { packets: Vec::new(), events: Vec::new() }
    }
}

} // verus!
