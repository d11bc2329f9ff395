//! The per-connection state machine: client-side handshake with version
//! negotiation, established maintenance (echo probes, heartbeats, ack
//! flushes), and teardown on failure or abort.
//!
//! A connection never performs I/O: every packet it owes its peer and every
//! callback it owes the embedder is appended to an `Outbox`, in the order
//! produced.

use vstd::prelude::*;
use vstd::arithmetic::div_mod::{lemma_add_mod_noop, lemma_mod_bound, lemma_mod_self_0, lemma_small_mod};
use vstd::slice::slice_to_vec;

use crate::acks::{AckKey, AckManager};
use crate::events::{Address, Emission, FastnetError, HandlerEvent, Outbox};
use crate::packets::{fresh_uuid, Packet, StatusRequest, StatusResponse, StatusResponseV, Uuid,
    FLAG_RELIABLE};
use crate::roundtrip::{find_probe, observed_rtt, push_window, ProbeRecord, RoundtripEstimator};
use crate::status_translator::{protocol_version, spec_protocol_version};
use crate::wire::bytes_eq;

verus! {

/// How many fast ticks a handshake step may be retried before it times out.
pub const MAX_STATUS_ATTEMPTS: u32 = 10;

/// How many fast ticks the final connect step may be retried: five seconds at
/// one attempt each 200 ms.
pub const MAX_CONNECTION_ATTEMPTS: u32 = 25;

/// Observations kept by each connection's round-trip estimator.
pub const RTT_WINDOW: usize = 5;

/// How a packet counter advances: modulo the width of its type, so that
/// counting never fails.
pub open spec fn count_wrap(x: u64, n: int) -> u64
    recommends
        n >= 0,
{
    ((x + n) % 0x1_0000_0000_0000_0000) as u64
}

/// Counting in steps is counting at once.
pub proof fn lemma_count_wrap_chain(x: u64, a: int, b: int)
    requires
        0 <= a,
        0 <= b < 0x1_0000_0000_0000_0000,
    ensures
        count_wrap(count_wrap(x, a), b) == count_wrap(x, a + b),
{
    let m = 0x1_0000_0000_0000_0000int;
    lemma_mod_bound(x + a, m);
    lemma_small_mod(b as nat, m as nat);
    lemma_add_mod_noop(x + a, b, m);
}

/// Advances a packet counter by one.
fn bump(x: u64) -> (r: u64)
    ensures
        r == count_wrap(x, 1),
{
    proof {
        let m = 0x1_0000_0000_0000_0000int;
        if x + 1 < m {
            lemma_small_mod((x + 1) as nat, m as nat);
        } else {
            assert(x == u64::MAX);
            lemma_mod_self_0(m);
        }
    }
    x.wrapping_add(1)
}

#[derive(PartialEq, Eq, Clone, Copy, Debug)]
pub enum ConnectionState {
    Establishing { listening: bool, compatible_version: bool, attempts: u32, request_id: Option<
        u64,
    > },
    Established,
    Closing { request_id: Option<u64> },
    Closed,
}

/// One connection to one peer.
pub struct Connection {
    pub state: ConnectionState,
    pub id: Uuid,
    pub address: Address,
    pub sent_packets: u64,
    pub received_packets: u64,
    pub heartbeat_counter: u64,
    pub endpoint_id: Uuid,
    pub roundtrip_estimator: RoundtripEstimator,
    pub last_received_packet_time: u64,
    pub ack_manager: AckManager,
}

/// The state that follows a status response received while establishing: a
/// refused query closes the connection, an accepted one advances the flags
/// and resets the retry counter. In any other state nothing changes.
pub open spec fn spec_status_response_next(s: ConnectionState, resp: StatusResponseV) -> ConnectionState {
    match s {
        ConnectionState::Establishing { listening, compatible_version, attempts, request_id } => {
            match resp {
                StatusResponseV::FastnetResponse(now_listening) => {
                    if !listening {
                        if !now_listening {
                            ConnectionState::Closed
                        } else {
                            ConnectionState::Establishing {
                                listening: true,
                                compatible_version,
                                attempts: 0,
                                request_id,
                            }
                        }
                    } else {
                        ConnectionState::Establishing {
                            listening,
                            compatible_version,
                            attempts: 0,
                            request_id,
                        }
                    }
                },
                StatusResponseV::VersionResponse(version) => {
                    if !compatible_version {
                        if version != spec_protocol_version() {
                            ConnectionState::Closed
                        } else {
                            ConnectionState::Establishing {
                                listening,
                                compatible_version: true,
                                attempts: 0,
                                request_id,
                            }
                        }
                    } else {
                        ConnectionState::Establishing {
                            listening,
                            compatible_version,
                            attempts: 0,
                            request_id,
                        }
                    }
                },
                StatusResponseV::ExtensionResponse { .. } => ConnectionState::Establishing {
                    listening,
                    compatible_version,
                    attempts: 0,
                    request_id,
                },
            }
        },
        _ => s,
    }
}

/// The packets sent on a status response: a version query once the peer is
/// known to listen, and a connect request once both flags hold.
pub open spec fn spec_status_response_sends(s: ConnectionState, id: Uuid, resp: StatusResponseV) -> Seq<Packet> {
    match s {
        ConnectionState::Establishing { listening, compatible_version, .. } => {
            match resp {
                StatusResponseV::FastnetResponse(now_listening) => {
                    if !listening {
                        if !now_listening {
                            Seq::<Packet>::empty()
                        } else if compatible_version {
                            seq![
                                Packet::StatusRequest(StatusRequest::VersionQuery),
                                Packet::Connect(id),
                            ]
                        } else {
                            seq![Packet::StatusRequest(StatusRequest::VersionQuery)]
                        }
                    } else if compatible_version {
                        seq![Packet::Connect(id)]
                    } else {
                        Seq::<Packet>::empty()
                    }
                },
                StatusResponseV::VersionResponse(version) => {
                    if !compatible_version {
                        if version != spec_protocol_version() {
                            Seq::<Packet>::empty()
                        } else if listening {
                            seq![Packet::Connect(id)]
                        } else {
                            Seq::<Packet>::empty()
                        }
                    } else if listening {
                        seq![Packet::Connect(id)]
                    } else {
                        Seq::<Packet>::empty()
                    }
                },
                StatusResponseV::ExtensionResponse { .. } => {
                    if listening && compatible_version {
                        seq![Packet::Connect(id)]
                    } else {
                        Seq::<Packet>::empty()
                    }
                },
            }
        },
        _ => Seq::<Packet>::empty(),
    }
}

/// The handler events fired on a status response: a failure exactly when the
/// peer refuses the query and a request id is attached.
pub open spec fn spec_status_response_events(s: ConnectionState, resp: StatusResponseV) -> Seq<HandlerEvent> {
    match s {
        ConnectionState::Establishing { listening, compatible_version, request_id, .. } => {
            match resp {
                StatusResponseV::FastnetResponse(now_listening) => {
                    if !listening && !now_listening {
                        match request_id {
                            Some(rid) => seq![
                                HandlerEvent::RequestFailed {
                                    request_id: rid,
                                    error: FastnetError::NotListening,
                                },
                            ],
                            None => Seq::<HandlerEvent>::empty(),
                        }
                    } else {
                        Seq::<HandlerEvent>::empty()
                    }
                },
                StatusResponseV::VersionResponse(version) => {
                    if !compatible_version && version != spec_protocol_version() {
                        match request_id {
                            Some(rid) => seq![
                                HandlerEvent::RequestFailed {
                                    request_id: rid,
                                    error: FastnetError::IncompatibleVersions,
                                },
                            ],
                            None => Seq::<HandlerEvent>::empty(),
                        }
                    } else {
                        Seq::<HandlerEvent>::empty()
                    }
                },
                StatusResponseV::ExtensionResponse { .. } => Seq::<HandlerEvent>::empty(),
            }
        },
        _ => Seq::<HandlerEvent>::empty(),
    }
}

/// Whether a connected packet completes the handshake: it must echo this
/// connection's own id, and both handshake flags must already hold.
pub open spec fn spec_accepts_connected(s: ConnectionState, self_id: Uuid, id: Uuid) -> bool {
    id == self_id && (s matches ConnectionState::Establishing {
        listening: true,
        compatible_version: true,
        ..
    })
}

/// The `connected` callback fired when the handshake completes.
pub open spec fn spec_connected_events(s: ConnectionState, self_id: Uuid, id: Uuid) -> Seq<HandlerEvent> {
    if spec_accepts_connected(s, self_id, id) {
        match s {
            ConnectionState::Establishing { request_id, .. } => seq![
                HandlerEvent::Connected { connection_id: self_id, request_id },
            ],
            _ => Seq::<HandlerEvent>::empty(),
        }
    } else {
        Seq::<HandlerEvent>::empty()
    }
}

/// Whether an abort received while establishing closes the connection: only
/// once both handshake flags hold.
pub open spec fn spec_accepts_abort(s: ConnectionState) -> bool {
    s matches ConnectionState::Establishing { listening: true, compatible_version: true, .. }
}

/// The `request_failed` callback fired on an accepted abort.
pub open spec fn spec_abort_events(s: ConnectionState) -> Seq<HandlerEvent> {
    if spec_accepts_abort(s) {
        match s {
            ConnectionState::Establishing { request_id: Some(rid), .. } => seq![
                HandlerEvent::RequestFailed {
                    request_id: rid,
                    error: FastnetError::ConnectionAborted,
                },
            ],
            _ => Seq::<HandlerEvent>::empty(),
        }
    } else {
        Seq::<HandlerEvent>::empty()
    }
}


/// The retry cap for the current handshake step: status queries get
/// `MAX_STATUS_ATTEMPTS`, the final connect step `MAX_CONNECTION_ATTEMPTS`.
pub open spec fn spec_retry_cap(listening: bool, compatible_version: bool) -> u32 {
    if !listening || !compatible_version {
        MAX_STATUS_ATTEMPTS
    } else {
        MAX_CONNECTION_ATTEMPTS
    }
}

/// The state after a fast tick while establishing: one more attempt, or
/// closed once the step's retry cap is passed. Other states do not move.
pub open spec fn spec_tick200_next(s: ConnectionState) -> ConnectionState {
    match s {
        ConnectionState::Establishing { listening, compatible_version, attempts, request_id } => {
            if attempts + 1 > spec_retry_cap(listening, compatible_version) {
                ConnectionState::Closed
            } else {
                ConnectionState::Establishing {
                    listening,
                    compatible_version,
                    attempts: (attempts + 1) as u32,
                    request_id,
                }
            }
        },
        _ => s,
    }
}

/// The retransmission a fast tick sends while establishing: the query or
/// connect request the handshake is stuck on, unless it just timed out.
pub open spec fn spec_tick200_sends(s: ConnectionState, id: Uuid) -> Seq<Packet> {
    match s {
        ConnectionState::Establishing { listening, compatible_version, attempts, .. } => {
            if attempts + 1 > spec_retry_cap(listening, compatible_version) {
                Seq::<Packet>::empty()
            } else if !listening {
                seq![Packet::StatusRequest(StatusRequest::FastnetQuery)]
            } else if !compatible_version {
                seq![Packet::StatusRequest(StatusRequest::VersionQuery)]
            } else {
                seq![Packet::Connect(id)]
            }
        },
        _ => Seq::<Packet>::empty(),
    }
}

/// The failure a fast tick surfaces while establishing: a timeout, if a
/// request id is attached.
pub open spec fn spec_tick200_events(s: ConnectionState) -> Seq<HandlerEvent> {
    match s {
        ConnectionState::Establishing { listening, compatible_version, attempts, request_id } => {
            if attempts + 1 > spec_retry_cap(listening, compatible_version) {
                match request_id {
                    Some(rid) => seq![
                        HandlerEvent::RequestFailed {
                            request_id: rid,
                            error: FastnetError::TimedOut,
                        },
                    ],
                    None => Seq::<HandlerEvent>::empty(),
                }
            } else {
                Seq::<HandlerEvent>::empty()
            }
        },
        _ => Seq::<HandlerEvent>::empty(),
    }
}


/// Handshake progression law: from a fresh handshake, a positive listening
/// response elicits exactly the version query; a version response matching
/// this engine's version then elicits exactly the connect request; and a
/// connected packet echoing the connection's own id is accepted from that
/// state, firing `connected` once with the original request id.
pub proof fn lemma_handshake_progression(id: Uuid, request_id: Option<u64>)
    ensures
        ({
            let s0 = ConnectionState::Establishing {
                listening: false,
                compatible_version: false,
                attempts: 0,
                request_id,
            };
            let s1 = spec_status_response_next(s0, StatusResponseV::FastnetResponse(true));
            let s2 = spec_status_response_next(
                s1,
                StatusResponseV::VersionResponse(spec_protocol_version()),
            );
            &&& spec_status_response_sends(s0, id, StatusResponseV::FastnetResponse(true))
                == seq![Packet::StatusRequest(StatusRequest::VersionQuery)]
            &&& s1 == (ConnectionState::Establishing {
                listening: true,
                compatible_version: false,
                attempts: 0,
                request_id,
            })
            &&& spec_status_response_sends(
                s1,
                id,
                StatusResponseV::VersionResponse(spec_protocol_version()),
            ) == seq![Packet::Connect(id)]
            &&& s2 == (ConnectionState::Establishing {
                listening: true,
                compatible_version: true,
                attempts: 0,
                request_id,
            })
            &&& spec_accepts_connected(s2, id, id)
            &&& spec_connected_events(s2, id, id) == seq![
                HandlerEvent::Connected { connection_id: id, request_id },
            ]
        }),
{
}

impl Connection {
    /// Retry counters never pass their caps, and the nested managers keep
    /// their own invariants.
    pub open spec fn wf(self) -> bool {
        &&& self.ack_manager.wf()
        &&& self.roundtrip_estimator.wf()
        &&& (self.state matches ConnectionState::Establishing { attempts, .. } ==> attempts
            <= MAX_CONNECTION_ATTEMPTS)
    }

    /// A fresh client-side connection: born closed, with a random endpoint
    /// identifier for recognizing its own echo probes.
    pub fn new(address: Address, id: Uuid, now: u64) -> (r: Connection)
        ensures
            r.wf(),
            r.state == ConnectionState::Closed,
            r.id == id,
            r.address == address,
            r.sent_packets == 0,
            r.received_packets == 0,
            r.heartbeat_counter == 0,
            r.last_received_packet_time == now,
            r.roundtrip_estimator.window_size == RTT_WINDOW,
            r.roundtrip_estimator.window@ == Seq::<u64>::empty(),
            r.roundtrip_estimator.in_flight@ == Seq::<ProbeRecord>::empty(),
            r.ack_manager.pending() == Seq::<AckKey>::empty(),
            r.ack_manager.outstanding() == Seq::<AckKey>::empty(),
    {
        Connection {
            state: ConnectionState::Closed,
            id,
            address,
            sent_packets: 0,
            received_packets: 0,
            heartbeat_counter: 0,
            endpoint_id: fresh_uuid(),
            roundtrip_estimator: RoundtripEstimator::new(RTT_WINDOW),
            last_received_packet_time: now,
            ack_manager: AckManager::new(),
        }
    }

    /// A server-side connection opened by a peer's connect request: born
    /// established.
    pub fn from_connection_request(address: Address, id: Uuid, now: u64) -> (r: Connection)
        ensures
            r.wf(),
            r.state == ConnectionState::Established,
            r.id == id,
            r.address == address,
            r.sent_packets == 0,
            r.received_packets == 0,
            r.heartbeat_counter == 0,
            r.last_received_packet_time == now,
            r.roundtrip_estimator.window_size == RTT_WINDOW,
            r.roundtrip_estimator.window@ == Seq::<u64>::empty(),
            r.roundtrip_estimator.in_flight@ == Seq::<ProbeRecord>::empty(),
            r.ack_manager.pending() == Seq::<AckKey>::empty(),
            r.ack_manager.outstanding() == Seq::<AckKey>::empty(),
    {
        let mut conn = Connection::new(address, id, now);
        conn.state = ConnectionState::Established;
        conn
    }

    /// Sends one packet to this connection's peer, counting it.
    pub fn send(&mut self, packet: Packet, out: &mut Outbox)
        ensures
            final(self).sent_packets == count_wrap(old(self).sent_packets, 1),
            final(self).state == old(self).state,
            final(self).id == old(self).id,
            final(self).address == old(self).address,
            final(self).received_packets == old(self).received_packets,
            final(self).heartbeat_counter == old(self).heartbeat_counter,
            final(self).endpoint_id == old(self).endpoint_id,
            final(self).roundtrip_estimator == old(self).roundtrip_estimator,
            final(self).last_received_packet_time == old(self).last_received_packet_time,
            final(self).ack_manager == old(self).ack_manager,
            final(out).packets@ == old(out).packets@.push(
                Emission { to: old(self).address, packet },
            ),
            final(out).events@ == old(out).events@,
    {
        self.sent_packets = bump(self.sent_packets);
        out.packets.push(Emission { to: self.address, packet });
    }

    /// Begins the client handshake: only a closed connection moves to
    /// establishing, and the first status request goes out.
    pub fn establish(&mut self, request_id: Option<u64>, out: &mut Outbox)
        requires
            old(self).wf(),
        ensures
            final(self).wf(),
            final(self).id == old(self).id,
            final(self).address == old(self).address,
            final(self).endpoint_id == old(self).endpoint_id,
            final(self).received_packets == old(self).received_packets,
            final(self).heartbeat_counter == old(self).heartbeat_counter,
            final(self).roundtrip_estimator == old(self).roundtrip_estimator,
            final(self).last_received_packet_time == old(self).last_received_packet_time,
            final(self).ack_manager == old(self).ack_manager,
            final(out).events@ == old(out).events@,
            old(self).state == ConnectionState::Closed ==> {
                &&& final(self).state == (ConnectionState::Establishing {
                    listening: false,
                    compatible_version: false,
                    attempts: 0,
                    request_id,
                })
                &&& final(self).sent_packets == count_wrap(old(self).sent_packets, 1)
                &&& final(out).packets@ == old(out).packets@.push(
                    Emission {
                        to: old(self).address,
                        packet: Packet::StatusRequest(StatusRequest::FastnetQuery),
                    },
                )
            },
            old(self).state != ConnectionState::Closed ==> {
                &&& final(self).state == old(self).state
                &&& final(self).sent_packets == old(self).sent_packets
                &&& final(out).packets@ == old(out).packets@
            },
    {
        if let ConnectionState::Closed = self.state {
            self.state = ConnectionState::Establishing {
                listening: false,
                compatible_version: false,
                attempts: 0,
                request_id,
            };
            self.send(Packet::StatusRequest(StatusRequest::FastnetQuery), out);
        }
    }

    /// Completes the handshake on a connected packet that echoes this
    /// connection's id while both flags hold: the packet counters restart at
    /// zero and the `connected` callback fires. Any other connected packet is
    /// dropped.
    fn handle_connected(&mut self, id: Uuid, out: &mut Outbox)
        requires
            old(self).wf(),
        ensures
            final(self).wf(),
            final(self).id == old(self).id,
            final(self).address == old(self).address,
            final(self).endpoint_id == old(self).endpoint_id,
            final(self).heartbeat_counter == old(self).heartbeat_counter,
            final(self).roundtrip_estimator == old(self).roundtrip_estimator,
            final(self).last_received_packet_time == old(self).last_received_packet_time,
            final(self).ack_manager == old(self).ack_manager,
            final(out).packets@ == old(out).packets@,
            final(out).events@ == old(out).events@ + spec_connected_events(
                old(self).state,
                old(self).id,
                id,
            ),
            spec_accepts_connected(old(self).state, old(self).id, id) ==> {
                &&& final(self).state == ConnectionState::Established
                &&& final(self).sent_packets == 0
                &&& final(self).received_packets == 0
            },
            !spec_accepts_connected(old(self).state, old(self).id, id) ==> {
                &&& final(self).state == old(self).state
                &&& final(self).sent_packets == old(self).sent_packets
                &&& final(self).received_packets == old(self).received_packets
            },
    {
        let ghost s0 = self.state;
        if id != self.id {
            assert(out.events@ =~= old(out).events@ + spec_connected_events(s0, old(self).id, id));
            return ;
        }
        match self.state {
            ConnectionState::Establishing { listening, compatible_version, request_id, .. } => {
                if listening && compatible_version {
                    self.sent_packets = 0;
                    self.received_packets = 0;
                    self.state = ConnectionState::Established;
                    out.events.push(HandlerEvent::Connected { connection_id: self.id, request_id });
                    assert(out.events@ =~= old(out).events@ + spec_connected_events(
                        s0,
                        old(self).id,
                        id,
                    ));
                    return ;
                }
            },
            _ => {},
        }
        assert(out.events@ =~= old(out).events@ + spec_connected_events(s0, old(self).id, id));
    }

    /// Closes the connection on an abort received while both handshake flags
    /// hold, surfacing the failure; anywhere else the abort is a no-op.
    fn handle_aborted(&mut self, out: &mut Outbox)
        requires
            old(self).wf(),
        ensures
            final(self).wf(),
            final(self).id == old(self).id,
            final(self).address == old(self).address,
            final(self).endpoint_id == old(self).endpoint_id,
            final(self).sent_packets == old(self).sent_packets,
            final(self).received_packets == old(self).received_packets,
            final(self).heartbeat_counter == old(self).heartbeat_counter,
            final(self).roundtrip_estimator == old(self).roundtrip_estimator,
            final(self).last_received_packet_time == old(self).last_received_packet_time,
            final(self).ack_manager == old(self).ack_manager,
            final(out).packets@ == old(out).packets@,
            final(out).events@ == old(out).events@ + spec_abort_events(old(self).state),
            final(self).state == (if spec_accepts_abort(old(self).state) {
                ConnectionState::Closed
            } else {
                old(self).state
            }),
    {
        let ghost s0 = self.state;
        match self.state {
            ConnectionState::Establishing { listening, compatible_version, request_id, .. } => {
                if listening && compatible_version {
                    self.state = ConnectionState::Closed;
                    if let Some(rid) = request_id {
                        out.events.push(
                            HandlerEvent::RequestFailed {
                                request_id: rid,
                                error: FastnetError::ConnectionAborted,
                            },
                        );
                    }
                }
            },
            _ => {},
        }
        assert(out.events@ =~= old(out).events@ + spec_abort_events(s0));
    }

    /// Advances the handshake on a status response, as the three
    /// `spec_status_response` functions say: state, packets sent to the peer,
    /// and failure callbacks.
    fn handle_status_response(&mut self, resp: &StatusResponse, out: &mut Outbox)
        requires
            old(self).wf(),
        ensures
            final(self).wf(),
            final(self).id == old(self).id,
            final(self).address == old(self).address,
            final(self).endpoint_id == old(self).endpoint_id,
            final(self).received_packets == old(self).received_packets,
            final(self).heartbeat_counter == old(self).heartbeat_counter,
            final(self).roundtrip_estimator == old(self).roundtrip_estimator,
            final(self).last_received_packet_time == old(self).last_received_packet_time,
            final(self).ack_manager == old(self).ack_manager,
            final(self).state == spec_status_response_next(old(self).state, resp@),
            final(self).sent_packets == count_wrap(
                old(self).sent_packets,
                spec_status_response_sends(old(self).state, old(self).id, resp@).len() as int,
            ),
            final(out).packets@ == old(out).packets@ + spec_status_response_sends(
                old(self).state,
                old(self).id,
                resp@,
            ).map_values(|p: Packet| Emission { to: old(self).address, packet: p }),
            final(out).events@ == old(out).events@ + spec_status_response_events(
                old(self).state,
                resp@,
            ),
    {
        let ghost s0 = self.state;
        let ghost sends = spec_status_response_sends(s0, self.id, resp@);
        let ghost emits = sends.map_values(|p: Packet| Emission { to: self.address, packet: p });
        match self.state {
            ConnectionState::Establishing { listening, compatible_version, attempts: _, request_id } => {
                let mut l = listening;
                let mut cv = compatible_version;
                match resp {
                    StatusResponse::FastnetResponse(now_listening) => {
                        if !l {
                            if !*now_listening {
                                if let Some(rid) = request_id {
                                    out.events.push(
                                        HandlerEvent::RequestFailed {
                                            request_id: rid,
                                            error: FastnetError::NotListening,
                                        },
                                    );
                                }
                                self.state = ConnectionState::Closed;
                                proof {
                                    lemma_small_mod(self.sent_packets as nat,
                                        0x1_0000_0000_0000_0000nat);
                                    assert(out.packets@ =~= old(out).packets@ + emits);
                                    assert(out.events@ =~= old(out).events@
                                        + spec_status_response_events(s0, resp@));
                                }
                                return ;
                            }
                            l = true;
                            self.send(Packet::StatusRequest(StatusRequest::VersionQuery), out);
                        }
                    },
                    StatusResponse::VersionResponse(version) => {
                        if !cv {
                            let ours = protocol_version();
                            if !bytes_eq(version.as_slice(), ours.as_slice()) {
                                if let Some(rid) = request_id {
                                    out.events.push(
                                        HandlerEvent::RequestFailed {
                                            request_id: rid,
                                            error: FastnetError::IncompatibleVersions,
                                        },
                                    );
                                }
                                self.state = ConnectionState::Closed;
                                proof {
                                    lemma_small_mod(self.sent_packets as nat,
                                        0x1_0000_0000_0000_0000nat);
                                    assert(out.packets@ =~= old(out).packets@ + emits);
                                    assert(out.events@ =~= old(out).events@
                                        + spec_status_response_events(s0, resp@));
                                }
                                return ;
                            }
                            cv = true;
                        }
                    },
                    StatusResponse::ExtensionResponse { .. } => {},
                }
                if l && cv {
                    let id = self.id;
                    self.send(Packet::Connect(id), out);
                }
                self.state = ConnectionState::Establishing {
                    listening: l,
                    compatible_version: cv,
                    attempts: 0,
                    request_id,
                };
                proof {
                    if sends.len() == 0 {
                        lemma_small_mod(old(self).sent_packets as nat, 0x1_0000_0000_0000_0000nat);
                    }
                    if sends.len() == 2 {
                        lemma_count_wrap_chain(old(self).sent_packets, 1, 1);
                    }
                    assert(out.packets@ =~= old(out).packets@ + emits);
                    assert(out.events@ =~= old(out).events@ + spec_status_response_events(
                        s0,
                        resp@,
                    ));
                }
            },
            _ => {
                proof {
                    lemma_small_mod(self.sent_packets as nat, 0x1_0000_0000_0000_0000nat);
                    assert(out.packets@ =~= old(out).packets@ + emits);
                    assert(out.events@ =~= old(out).events@ + spec_status_response_events(
                        s0,
                        resp@,
                    ));
                }
            },
        }
    }


    /// Sends one data packet on `chan`, counting it and marking it
    /// outstanding when the reliable flag is set. Only an established
    /// connection sends data, only on a usable channel, with the reserved
    /// flag bits clear and no frame header.
    pub fn send_data(&mut self, chan: u16, sequence_number: u64, flags: u8, payload: Vec<u8>, out: &mut Outbox) -> (sent: bool)
        requires
            old(self).wf(),
        ensures
            final(self).wf(),
            final(self).id == old(self).id,
            final(self).address == old(self).address,
            final(self).endpoint_id == old(self).endpoint_id,
            final(self).state == old(self).state,
            final(self).received_packets == old(self).received_packets,
            final(self).heartbeat_counter == old(self).heartbeat_counter,
            final(self).roundtrip_estimator == old(self).roundtrip_estimator,
            final(self).last_received_packet_time == old(self).last_received_packet_time,
            final(out).events@ == old(out).events@,
            sent == (old(self).state is Established && chan <= crate::MAX_CHANNEL && flags
                & crate::packets::FLAG_RESERVED_MASK == 0 && flags
                & crate::packets::FLAG_HAS_FRAME_HEADER == 0),
            sent ==> {
                &&& final(out).packets@ == old(out).packets@.push(
                    Emission {
                        to: old(self).address,
                        packet: Packet::Data {
                            chan,
                            packet: crate::packets::DataPacket {
                                sequence_number,
                                flags,
                                payload,
                                header: None,
                            },
                        },
                    },
                )
                &&& final(self).sent_packets == count_wrap(old(self).sent_packets, 1)
                &&& final(self).ack_manager.pending() == old(self).ack_manager.pending()
                &&& (flags & FLAG_RELIABLE != 0 ==> {
                    let key = AckKey { chan, sequence_number };
                    &&& (old(self).ack_manager.outstanding().contains(key) ==> final(self).ack_manager.outstanding() == old(self).ack_manager.outstanding())
                    &&& (!old(self).ack_manager.outstanding().contains(key) ==> final(self).ack_manager.outstanding() == old(self).ack_manager.outstanding().push(key))
                })
                &&& (flags & FLAG_RELIABLE == 0 ==> final(self).ack_manager.outstanding() == old(self).ack_manager.outstanding())
            },
            !sent ==> {
                &&& final(out).packets@ == old(out).packets@
                &&& final(self).sent_packets == old(self).sent_packets
                &&& final(self).ack_manager == old(self).ack_manager
            },
    {
        let established = match self.state {
            ConnectionState::Established => true,
            _ => false,
        };
        if !established || chan > crate::MAX_CHANNEL || flags & crate::packets::FLAG_RESERVED_MASK
            != 0 || flags & crate::packets::FLAG_HAS_FRAME_HEADER != 0 {
            return false;
        }
        if flags & FLAG_RELIABLE != 0 {
            self.ack_manager.note_outstanding(chan, sequence_number);
        }
        self.send(
            Packet::Data {
                chan,
                packet: crate::packets::DataPacket { sequence_number, flags, payload, header: None },
            },
            out,
        );
        true
    }

    /// The slow (1000 ms) tick: an established connection emits exactly one
    /// heartbeat carrying its counters, and the heartbeat counter advances.
    pub fn tick1000(&mut self, out: &mut Outbox)
        requires
            old(self).wf(),
        ensures
            final(self).wf(),
            final(self).state == old(self).state,
            final(self).id == old(self).id,
            final(self).address == old(self).address,
            final(self).endpoint_id == old(self).endpoint_id,
            final(self).received_packets == old(self).received_packets,
            final(self).roundtrip_estimator == old(self).roundtrip_estimator,
            final(self).last_received_packet_time == old(self).last_received_packet_time,
            final(self).ack_manager == old(self).ack_manager,
            final(out).events@ == old(out).events@,
            old(self).state is Established ==> {
                &&& final(out).packets@ == old(out).packets@.push(
                    Emission {
                        to: old(self).address,
                        packet: Packet::Heartbeat {
                            counter: old(self).heartbeat_counter,
                            sent: old(self).sent_packets,
                            received: old(self).received_packets,
                        },
                    },
                )
                &&& final(self).heartbeat_counter == count_wrap(old(self).heartbeat_counter, 1)
                &&& final(self).sent_packets == count_wrap(old(self).sent_packets, 1)
            },
            !(old(self).state is Established) ==> {
                &&& final(out).packets@ == old(out).packets@
                &&& final(self).heartbeat_counter == old(self).heartbeat_counter
                &&& final(self).sent_packets == old(self).sent_packets
            },
    {
        if let ConnectionState::Established = self.state {
            let heartbeat = Packet::Heartbeat {
                counter: self.heartbeat_counter,
                sent: self.sent_packets,
                received: self.received_packets,
            };
            self.heartbeat_counter = bump(self.heartbeat_counter);
            self.send(heartbeat, out);
        }
    }

    /// The fast (200 ms) tick. While establishing it retransmits the step the
    /// handshake is stuck on and times the handshake out past its retry cap.
    /// While established it emits one echo probe and flushes every pending
    /// ack, counting each packet sent.
    pub fn tick200(&mut self, now: u64, out: &mut Outbox)
        requires
            old(self).wf(),
        ensures
            final(self).wf(),
            final(self).id == old(self).id,
            final(self).address == old(self).address,
            final(self).endpoint_id == old(self).endpoint_id,
            final(self).received_packets == old(self).received_packets,
            final(self).heartbeat_counter == old(self).heartbeat_counter,
            final(self).last_received_packet_time == old(self).last_received_packet_time,
            final(out).events@ == old(out).events@ + spec_tick200_events(old(self).state),
            !(old(self).state is Established) ==> {
                &&& final(self).state == spec_tick200_next(old(self).state)
                &&& final(out).packets@ == old(out).packets@ + spec_tick200_sends(
                    old(self).state,
                    old(self).id,
                ).map_values(|p: Packet| Emission { to: old(self).address, packet: p })
                &&& final(self).sent_packets == old(self).sent_packets
                &&& final(self).roundtrip_estimator == old(self).roundtrip_estimator
                &&& final(self).ack_manager == old(self).ack_manager
            },
            old(self).state is Established ==> {
                let base = old(out).packets@.len() as int;
                let pend = old(self).ack_manager.pending();
                &&& final(self).state == old(self).state
                &&& final(out).packets@.len() == base + 1 + pend.len()
                &&& final(out).packets@.take(base) == old(out).packets@
                &&& final(out).packets@[base].to == old(self).address
                &&& (final(out).packets@[base].packet matches Packet::Echo { endpoint, uuid }
                    && endpoint == old(self).endpoint_id && final(self).roundtrip_estimator.in_flight@ == old(self).roundtrip_estimator.in_flight@.push(
                    ProbeRecord { probe: uuid, sent_at: now },
                ))
                &&& final(self).roundtrip_estimator.window@ == old(self).roundtrip_estimator.window@
                &&& final(self).roundtrip_estimator.window_size == old(self).roundtrip_estimator.window_size
                &&& (forall|j: int|
                    0 <= j < pend.len() ==> final(out).packets@[base + 1 + j] == (Emission {
                        to: old(self).address,
                        packet: Packet::Ack {
                            chan: pend[j].chan,
                            sequence_number: pend[j].sequence_number,
                        },
                    }))
                &&& final(self).ack_manager.pending() == Seq::<AckKey>::empty()
                &&& final(self).ack_manager.outstanding() == old(self).ack_manager.outstanding()
                &&& final(self).sent_packets == count_wrap(
                    old(self).sent_packets,
                    1 + pend.len() as int,
                )
            },
    {
        let ghost s0 = self.state;
        match self.state {
            ConnectionState::Establishing { listening, compatible_version, attempts, request_id } => {
                let attempts = attempts + 1;
                let cap = if !listening || !compatible_version {
                    MAX_STATUS_ATTEMPTS
                } else {
                    MAX_CONNECTION_ATTEMPTS
                };
                if attempts > cap {
                    if let Some(rid) = request_id {
                        out.events.push(
                            HandlerEvent::RequestFailed {
                                request_id: rid,
                                error: FastnetError::TimedOut,
                            },
                        );
                    }
                    self.state = ConnectionState::Closed;
                    proof {
                        assert(out.packets@ =~= old(out).packets@ + spec_tick200_sends(
                            s0,
                            old(self).id,
                        ).map_values(|p: Packet| Emission { to: old(self).address, packet: p }));
                        assert(out.events@ =~= old(out).events@ + spec_tick200_events(s0));
                    }
                    return ;
                }
                let resend = if !listening {
                    Packet::StatusRequest(StatusRequest::FastnetQuery)
                } else if !compatible_version {
                    Packet::StatusRequest(StatusRequest::VersionQuery)
                } else {
                    Packet::Connect(self.id)
                };
                out.packets.push(Emission { to: self.address, packet: resend });
                self.state = ConnectionState::Establishing {
                    listening,
                    compatible_version,
                    attempts,
                    request_id,
                };
                proof {
                    assert(out.packets@ =~= old(out).packets@ + spec_tick200_sends(
                        s0,
                        old(self).id,
                    ).map_values(|p: Packet| Emission { to: old(self).address, packet: p }));
                    assert(out.events@ =~= old(out).events@ + spec_tick200_events(s0));
                }
            },
            ConnectionState::Established => {
                let ghost base = out.packets@.len() as int;
                let ghost pend = self.ack_manager.pending();
                let probe = fresh_uuid();
                let address = self.address;
                let endpoint_id = self.endpoint_id;
                self.roundtrip_estimator.tick(address, endpoint_id, probe, now, out);
                self.sent_packets = bump(self.sent_packets);
                let keys = self.ack_manager.iter_needs_ack();
                let ghost est = self.roundtrip_estimator;
                let mut j: usize = 0;
                while j < keys.len()
                    invariant
                        j <= keys@.len(),
                        keys@ == pend,
                        out.packets@.len() == base + 1 + j,
                        base == old(out).packets@.len(),
                        forall|i: int| 0 <= i < base ==> out.packets@[i] == old(out).packets@[i],
                        out.packets@[base] == (Emission {
                            to: address,
                            packet: Packet::Echo { endpoint: endpoint_id, uuid: probe },
                        }),
                        forall|k: int|
                            0 <= k < j ==> out.packets@[base + 1 + k] == (Emission {
                                to: address,
                                packet: Packet::Ack {
                                    chan: pend[k].chan,
                                    sequence_number: pend[k].sequence_number,
                                },
                            }),
                        self.sent_packets == count_wrap(old(self).sent_packets, 1 + j),
                        self.address == address,
                        address == old(self).address,
                        endpoint_id == old(self).endpoint_id,
                        self.state == ConnectionState::Established,
                        self.id == old(self).id,
                        self.endpoint_id == old(self).endpoint_id,
                        self.received_packets == old(self).received_packets,
                        self.heartbeat_counter == old(self).heartbeat_counter,
                        self.last_received_packet_time == old(self).last_received_packet_time,
                        self.roundtrip_estimator == est,
                        est.in_flight@ == old(self).roundtrip_estimator.in_flight@.push(
                            ProbeRecord { probe, sent_at: now },
                        ),
                        est.window@ == old(self).roundtrip_estimator.window@,
                        est.window_size == old(self).roundtrip_estimator.window_size,
                        self.ack_manager.pending() == Seq::<AckKey>::empty(),
                        self.ack_manager.outstanding() == old(self).ack_manager.outstanding(),
                        self.ack_manager.wf(),
                        out.events@ == old(out).events@,
                    decreases keys@.len() - j,
                {
                    let key = keys[j];
                    let ghost pre = out.packets@;
                    self.send(
                        Packet::Ack { chan: key.chan, sequence_number: key.sequence_number },
                        out,
                    );
                    proof {
                        lemma_count_wrap_chain(old(self).sent_packets, 1 + j, 1);
                        assert(out.packets@ == pre.push(
                            Emission {
                                to: address,
                                packet: Packet::Ack {
                                    chan: key.chan,
                                    sequence_number: key.sequence_number,
                                },
                            },
                        ));
                        assert forall|i: int| 0 <= i < base + 1 + j implies out.packets@[i]
                            == pre[i] by {
                            assert(out.packets@[i] == pre.push(
                                Emission {
                                    to: address,
                                    packet: Packet::Ack {
                                        chan: key.chan,
                                        sequence_number: key.sequence_number,
                                    },
                                },
                            )[i]);
                        }
                        assert(out.packets@[base] == pre[base]);
                        assert(forall|k: int|
                            0 <= k < j + 1 ==> out.packets@[base + 1 + k] == (Emission {
                                to: address,
                                packet: Packet::Ack {
                                    chan: pend[k].chan,
                                    sequence_number: pend[k].sequence_number,
                                },
                            }));
                    }
                    j = j + 1;
                }
                proof {
                    assert(out.packets@.take(base) =~= old(out).packets@);
                    assert(out.events@ =~= old(out).events@ + spec_tick200_events(s0));
                }
            },
            _ => {
                proof {
                    assert(out.packets@ =~= old(out).packets@ + spec_tick200_sends(
                        s0,
                        old(self).id,
                    ).map_values(|p: Packet| Emission { to: old(self).address, packet: p }));
                    assert(out.events@ =~= old(out).events@ + spec_tick200_events(s0));
                }
            },
        }
    }

    /// Consumes one incoming packet addressed to this connection. Every
    /// packet refreshes the liveness clock and the received counter; the
    /// return value says whether the packet was handled here, or should fall
    /// through to connectionless dispatch.
    pub fn handle_incoming_packet(&mut self, packet: &Packet, now: u64, out: &mut Outbox) -> (handled: bool)
        requires
            old(self).wf(),
        ensures
            final(self).wf(),
            final(self).id == old(self).id,
            final(self).address == old(self).address,
            final(self).endpoint_id == old(self).endpoint_id,
            final(self).heartbeat_counter == old(self).heartbeat_counter,
            final(self).last_received_packet_time == now,
            match packet {
                Packet::StatusResponse(resp) => {
                    &&& handled == true
                    &&& final(self).received_packets == count_wrap(old(self).received_packets, 1)
                    &&& final(self).state == spec_status_response_next(old(self).state, resp@)
                    &&& final(self).sent_packets == count_wrap(
                        old(self).sent_packets,
                        spec_status_response_sends(old(self).state, old(self).id, resp@).len() as int,
                    )
                    &&& final(out).packets@ == old(out).packets@ + spec_status_response_sends(
                        old(self).state,
                        old(self).id,
                        resp@,
                    ).map_values(|p: Packet| Emission { to: old(self).address, packet: p })
                    &&& final(out).events@ == old(out).events@ + spec_status_response_events(
                        old(self).state,
                        resp@,
                    )
                    &&& final(self).roundtrip_estimator == old(self).roundtrip_estimator
                    &&& final(self).ack_manager == old(self).ack_manager
                },
                Packet::Echo { endpoint, uuid } => {
                    &&& handled == true
                    &&& final(self).state == old(self).state
                    &&& final(self).received_packets == count_wrap(old(self).received_packets, 1)
                    &&& final(out).events@ == old(out).events@
                    &&& final(self).ack_manager == old(self).ack_manager
                    &&& (*endpoint != old(self).endpoint_id ==> {
                        &&& final(out).packets@ == old(out).packets@.push(
                            Emission { to: old(self).address, packet: *packet },
                        )
                        &&& final(self).sent_packets == count_wrap(old(self).sent_packets, 1)
                        &&& final(self).roundtrip_estimator == old(self).roundtrip_estimator
                    })
                    &&& (*endpoint == old(self).endpoint_id ==> {
                        &&& final(out).packets@ == old(out).packets@
                        &&& final(self).sent_packets == old(self).sent_packets
                        &&& final(self).roundtrip_estimator.window_size == old(self).roundtrip_estimator.window_size
                        &&& match find_probe(old(self).roundtrip_estimator.in_flight@, *uuid) {
                            Some(i) => {
                                &&& final(self).roundtrip_estimator.in_flight@ == old(self).roundtrip_estimator.in_flight@.remove(i as int)
                                &&& final(self).roundtrip_estimator.window@ == push_window(
                                    old(self).roundtrip_estimator.window@,
                                    old(self).roundtrip_estimator.window_size,
                                    observed_rtt(
                                        old(self).roundtrip_estimator.in_flight@[i as int].sent_at,
                                        now,
                                    ),
                                )
                            },
                            None => {
                                &&& final(self).roundtrip_estimator.in_flight@ == old(self).roundtrip_estimator.in_flight@
                                &&& final(self).roundtrip_estimator.window@ == old(self).roundtrip_estimator.window@
                            },
                        }
                    })
                },
                Packet::Heartbeat { .. } => {
                    &&& handled == true
                    &&& final(self).state == old(self).state
                    &&& final(self).received_packets == count_wrap(old(self).received_packets, 1)
                    &&& final(self).sent_packets == old(self).sent_packets
                    &&& final(out).packets@ == old(out).packets@
                    &&& final(out).events@ == old(out).events@
                    &&& final(self).roundtrip_estimator == old(self).roundtrip_estimator
                    &&& final(self).ack_manager == old(self).ack_manager
                },
                Packet::Connected(cid) => {
                    &&& handled == true
                    &&& final(out).packets@ == old(out).packets@
                    &&& final(out).events@ == old(out).events@ + spec_connected_events(
                        old(self).state,
                        old(self).id,
                        *cid,
                    )
                    &&& (spec_accepts_connected(old(self).state, old(self).id, *cid) ==> {
                        &&& final(self).state == ConnectionState::Established
                        &&& final(self).sent_packets == 0
                        &&& final(self).received_packets == 0
                    })
                    &&& (!spec_accepts_connected(old(self).state, old(self).id, *cid) ==> {
                        &&& final(self).state == old(self).state
                        &&& final(self).sent_packets == old(self).sent_packets
                        &&& final(self).received_packets == count_wrap(
                            old(self).received_packets,
                            1,
                        )
                    })
                    &&& final(self).roundtrip_estimator == old(self).roundtrip_estimator
                    &&& final(self).ack_manager == old(self).ack_manager
                },
                Packet::Aborted(_) => {
                    &&& handled == true
                    &&& final(self).state == (if spec_accepts_abort(old(self).state) {
                        ConnectionState::Closed
                    } else {
                        old(self).state
                    })
                    &&& final(self).received_packets == count_wrap(old(self).received_packets, 1)
                    &&& final(self).sent_packets == old(self).sent_packets
                    &&& final(out).packets@ == old(out).packets@
                    &&& final(out).events@ == old(out).events@ + spec_abort_events(old(self).state)
                    &&& final(self).roundtrip_estimator == old(self).roundtrip_estimator
                    &&& final(self).ack_manager == old(self).ack_manager
                },
                Packet::Ack { chan, sequence_number } => {
                    let key = AckKey { chan: *chan, sequence_number: *sequence_number };
                    &&& handled == true
                    &&& final(self).state == old(self).state
                    &&& final(self).received_packets == count_wrap(old(self).received_packets, 1)
                    &&& final(self).sent_packets == old(self).sent_packets
                    &&& final(out).packets@ == old(out).packets@
                    &&& final(out).events@ == old(out).events@
                    &&& final(self).roundtrip_estimator == old(self).roundtrip_estimator
                    &&& final(self).ack_manager.pending() == old(self).ack_manager.pending()
                    &&& !final(self).ack_manager.outstanding().contains(key)
                    &&& (old(self).ack_manager.outstanding().contains(key) ==> final(self).ack_manager.outstanding() == old(self).ack_manager.outstanding().remove_value(key))
                    &&& (!old(self).ack_manager.outstanding().contains(key) ==> final(self).ack_manager.outstanding() == old(self).ack_manager.outstanding())
                },
                Packet::Data { chan, packet: dp } => {
                    if old(self).state is Established {
                        let key = AckKey { chan: *chan, sequence_number: dp.sequence_number };
                        &&& handled == true
                        &&& final(self).state == old(self).state
                        &&& final(self).received_packets == count_wrap(
                            old(self).received_packets,
                            1,
                        )
                        &&& final(self).sent_packets == old(self).sent_packets
                        &&& final(out).packets@ == old(out).packets@
                        &&& final(self).roundtrip_estimator == old(self).roundtrip_estimator
                        &&& final(out).events@.len() == old(out).events@.len() + 1
                        &&& final(out).events@.subrange(0, old(out).events@.len() as int) == old(out).events@
                        &&& (final(out).events@.last() matches HandlerEvent::Deliver {
                            connection_id,
                            chan: dchan,
                            payload,
                            flags,
                            header,
                        } && connection_id == old(self).id && dchan == *chan && payload@
                            == dp.payload@ && flags == dp.flags && header == dp.header)
                        &&& final(self).ack_manager.outstanding() == old(self).ack_manager.outstanding()
                        &&& (dp.flags & FLAG_RELIABLE != 0 ==> {
                            &&& (old(self).ack_manager.pending().contains(key) ==> final(self).ack_manager.pending() == old(self).ack_manager.pending())
                            &&& (!old(self).ack_manager.pending().contains(key) ==> final(self).ack_manager.pending() == old(self).ack_manager.pending().push(key))
                        })
                        &&& (dp.flags & FLAG_RELIABLE == 0 ==> final(self).ack_manager.pending()
                            == old(self).ack_manager.pending())
                    } else {
                        &&& handled == false
                        &&& final(self).state == old(self).state
                        &&& final(self).received_packets == count_wrap(
                            old(self).received_packets,
                            1,
                        )
                        &&& final(self).sent_packets == old(self).sent_packets
                        &&& final(out).packets@ == old(out).packets@
                        &&& final(out).events@ == old(out).events@
                        &&& final(self).roundtrip_estimator == old(self).roundtrip_estimator
                        &&& final(self).ack_manager == old(self).ack_manager
                    }
                },
                _ => {
                    &&& handled == false
                    &&& final(self).state == old(self).state
                    &&& final(self).received_packets == count_wrap(old(self).received_packets, 1)
                    &&& final(self).sent_packets == old(self).sent_packets
                    &&& final(out).packets@ == old(out).packets@
                    &&& final(out).events@ == old(out).events@
                    &&& final(self).roundtrip_estimator == old(self).roundtrip_estimator
                    &&& final(self).ack_manager == old(self).ack_manager
                },
            },
    {
        self.received_packets = bump(self.received_packets);
        self.last_received_packet_time = now;
        match packet {
            Packet::StatusResponse(resp) => {
                self.handle_status_response(resp, out);
                true
            },
            Packet::Echo { endpoint, uuid } => {
                if *endpoint != self.endpoint_id {
                    self.send(Packet::Echo { endpoint: *endpoint, uuid: *uuid }, out);
                    assert((Packet::Echo { endpoint: *endpoint, uuid: *uuid }) == *packet);
                } else {
                    self.roundtrip_estimator.handle_echo(*uuid, now);
                }
                true
            },
            Packet::Heartbeat { .. } => true,
            Packet::Connected(cid) => {
                self.handle_connected(*cid, out);
                true
            },
            Packet::Aborted(_) => {
                self.handle_aborted(out);
                true
            },
            Packet::Ack { .. } => self.ack_manager.submit_packet(packet),
            Packet::Data { chan, packet: dp } => {
                if let ConnectionState::Established = self.state {
                    if dp.flags & FLAG_RELIABLE != 0 {
                        self.ack_manager.submit_packet(packet);
                    }
                    let ghost pre_events = out.events@;
                    out.events.push(
                        HandlerEvent::Deliver {
                            connection_id: self.id,
                            chan: *chan,
                            payload: slice_to_vec(dp.payload.as_slice()),
                            flags: dp.flags,
                            header: dp.header,
                        },
                    );
                    proof {
                        assert(out.events@.subrange(0, pre_events.len() as int) =~= pre_events);
                    }
                    true
                } else {
                    false
                }
            },
            _ => false,
        }
    }
}

} // verus!
