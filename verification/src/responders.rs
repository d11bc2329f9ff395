//! Responders attach small, self-contained behaviours to incoming packets; a
//! server tries each in turn until one handles the packet.

use vstd::prelude::*;

use crate::events::{Address, Emission, Outbox};
use crate::packets::Packet;

verus! {

/// Replays echo packets straight back to the peer they came from.
#[derive(PartialEq, Eq, Structural, Clone, Copy, Debug)]
pub struct EchoResponder;

impl Default for EchoResponder {
    fn default() -> (r: EchoResponder)
        ensures
            r == EchoResponder,
    {
        EchoResponder
    }
}

impl EchoResponder {
    pub fn new() -> (r: EchoResponder)
        ensures
            r == EchoResponder,
    {
        EchoResponder
    }

    /// Handles an echo packet by sending it back unchanged; every other
    /// packet is left for other responders.
    pub fn handle_incoming_packet(&mut self, packet: &Packet, address: Address, out: &mut Outbox) -> (handled: bool)
        ensures
            handled == (packet is Echo),
            packet is Echo ==> final(out).packets@ == old(out).packets@.push(
                Emission { to: address, packet: *packet },
            ),
            !(packet is Echo) ==> final(out).packets@ == old(out).packets@,
            final(out).events@ == old(out).events@,
    {
        match packet {
            Packet::Echo { endpoint, uuid } => {
                out.packets.push(
                    Emission {
                        to: address,
                        packet: Packet::Echo { endpoint: *endpoint, uuid: *uuid },
                    },
                );
                assert((Packet::Echo { endpoint: *endpoint, uuid: *uuid }) == *packet);
                true
            },
            _ => false,
        }
    }
}

} // verus!
