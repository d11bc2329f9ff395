//! The protocol engine's registry and datagram path: one connection per peer
//! address, ingress through checksum verification and decoding, passive opens
//! for connect requests, timer fan-out, and the liveness sweep.

use vstd::prelude::*;

use crate::acks::AckKey;
use crate::codec::{decode_packet, spec_decode_packet};
use crate::connection::{
    count_wrap, spec_abort_events, spec_accepts_abort, spec_accepts_connected,
    spec_connected_events, spec_status_response_events, spec_status_response_next,
    spec_status_response_sends, spec_tick200_events, spec_tick200_next, spec_tick200_sends,
    Connection, ConnectionState,
};
use crate::events::{Address, Emission, HandlerEvent, Outbox};
use crate::frame::{spec_datagram_checksum_ok, unwrap_datagram};
use crate::packets::{fresh_uuid, DataPacket, Packet, PacketV, StatusRequest, Uuid,
    FLAG_HAS_FRAME_HEADER, FLAG_RELIABLE, FLAG_RESERVED_MASK};
use crate::roundtrip::{find_probe, observed_rtt, push_window, ProbeRecord};
use crate::status_translator::{spec_translate, translate};

verus! {

/// The two recurring timers driving connection maintenance.
#[derive(PartialEq, Eq, Structural, Clone, Copy, Debug)]
pub enum TimeoutTypes {
    Timeout1000,
    Timeout200,
}

/// The liveness timeout a fresh engine starts with: ten seconds.
pub const DEFAULT_CONNECTION_TIMEOUT_MS: u64 = 10_000;

/// One registry slot: a peer address and its connection.
pub struct ConnEntry {
    pub address: Address,
    pub conn: Connection,
}

pub open spec fn unique_addresses(s: Seq<ConnEntry>) -> bool {
    forall|i: int, j: int| 0 <= i < j < s.len() ==> s[i].address != s[j].address
}

/// Index of the entry for `address`, if any.
pub open spec fn find_entry(s: Seq<ConnEntry>, address: Address) -> Option<nat>
    decreases s.len(),
{
    if s.len() == 0 {
        None
    } else if s[0].address == address {
        Some(0nat)
    } else {
        match find_entry(s.skip(1), address) {
            Some(i) => Some((i + 1) as nat),
            None => None,
        }
    }
}

/// What `find_entry` returns: the first index keyed by the address, or the
/// guarantee that none is.
pub proof fn lemma_find_entry(s: Seq<ConnEntry>, address: Address)
    ensures
        match find_entry(s, address) {
            Some(i) => i < s.len() && s[i as int].address == address && (forall|j: int|
                0 <= j < i ==> s[j].address != address),
            None => forall|j: int| 0 <= j < s.len() ==> s[j].address != address,
        },
    decreases s.len(),
{
    if s.len() != 0 && s[0].address != address {
        lemma_find_entry(s.skip(1), address);
        match find_entry(s.skip(1), address) {
            Some(i) => {
                assert(s[i + 1int] == s.skip(1)[i as int]);
                assert(forall|j: int| 1 <= j < i + 1 ==> s[j] == s.skip(1)[j - 1]);
            },
            None => {
                assert(forall|j: int| 1 <= j < s.len() ==> s[j] == s.skip(1)[j - 1]);
            },
        }
    }
}

/// Index of the first entry whose connection carries `id`, if any.
pub open spec fn find_entry_by_id(s: Seq<ConnEntry>, id: Uuid) -> Option<nat>
    decreases s.len(),
{
    if s.len() == 0 {
        None
    } else if s[0].conn.id == id {
        Some(0nat)
    } else {
        match find_entry_by_id(s.skip(1), id) {
            Some(i) => Some((i + 1) as nat),
            None => None,
        }
    }
}

/// What `find_entry_by_id` returns: the first index carrying the id, or the
/// guarantee that none does.
pub proof fn lemma_find_entry_by_id(s: Seq<ConnEntry>, id: Uuid)
    ensures
        match find_entry_by_id(s, id) {
            Some(i) => i < s.len() && s[i as int].conn.id == id && (forall|j: int|
                0 <= j < i ==> s[j].conn.id != id),
            None => forall|j: int| 0 <= j < s.len() ==> s[j].conn.id != id,
        },
    decreases s.len(),
{
    if s.len() != 0 && s[0].conn.id != id {
        lemma_find_entry_by_id(s.skip(1), id);
        match find_entry_by_id(s.skip(1), id) {
            Some(i) => {
                assert(s[i + 1int] == s.skip(1)[i as int]);
                assert(forall|j: int| 1 <= j < i + 1 ==> s[j] == s.skip(1)[j - 1]);
            },
            None => {
                assert(forall|j: int| 1 <= j < s.len() ==> s[j] == s.skip(1)[j - 1]);
            },
        }
    }
}

/// What a freshly opened client-side connection looks like right after its
/// first status request went out.
pub open spec fn spec_fresh_establishing(c: Connection, address: Address, request_id: u64, now: u64) -> bool {
    &&& c.address == address
    &&& c.state == (ConnectionState::Establishing {
        listening: false,
        compatible_version: false,
        attempts: 0,
        request_id: Some(request_id),
    })
    &&& c.sent_packets == 1
    &&& c.received_packets == 0
    &&& c.heartbeat_counter == 0
    &&& c.last_received_packet_time == now
    &&& c.ack_manager.pending() == Seq::<AckKey>::empty()
    &&& c.ack_manager.outstanding() == Seq::<AckKey>::empty()
    &&& c.roundtrip_estimator.in_flight@ == Seq::<ProbeRecord>::empty()
    &&& c.roundtrip_estimator.window@ == Seq::<u64>::empty()
    &&& c.roundtrip_estimator.window_size == crate::connection::RTT_WINDOW
}

/// What a passively opened server-side connection looks like: established at
/// once, under the id the peer chose.
pub open spec fn spec_passive_conn(c: Connection, address: Address, id: Uuid, now: u64) -> bool {
    &&& c.address == address
    &&& c.id == id
    &&& c.state == ConnectionState::Established
    &&& c.sent_packets == 0
    &&& c.received_packets == 0
    &&& c.heartbeat_counter == 0
    &&& c.last_received_packet_time == now
    &&& c.ack_manager.pending() == Seq::<AckKey>::empty()
    &&& c.ack_manager.outstanding() == Seq::<AckKey>::empty()
}

/// The protocol engine: the connection registry and the liveness timeout.
pub struct Engine {
    pub connections: Vec<ConnEntry>,
    pub connection_timeout_duration: u64,
}

impl Engine {
    /// Each peer address owns at most one slot, every connection keeps its
    /// own invariant, and each slot's connection points back at its key.
    pub open spec fn wf(self) -> bool {
        &&& unique_addresses(self.connections@)
        &&& (forall|i: int|
            0 <= i < self.connections@.len() ==> (#[trigger] self.connections@[i]).conn.wf()
                && self.connections@[i].conn.address == self.connections@[i].address)
    }

    pub fn new() -> (r: Engine)
        ensures
            r.wf(),
            r.connections@ == Seq::<ConnEntry>::empty(),
            r.connection_timeout_duration == DEFAULT_CONNECTION_TIMEOUT_MS,
    {
        Engine { connections: Vec::new(), connection_timeout_duration: DEFAULT_CONNECTION_TIMEOUT_MS }
    }

    /// Sets the liveness timeout used by the sweep.
    pub fn configure_timeout(&mut self, timeout_ms: u64)
        requires
            old(self).wf(),
        ensures
            final(self).wf(),
            final(self).connections@ == old(self).connections@,
            final(self).connection_timeout_duration == timeout_ms,
    {
        self.connection_timeout_duration = timeout_ms;
    }

    /// Index of the registry slot for `address`, if any.
    fn find_connection(&self, address: Address) -> (r: Option<usize>)
        ensures
            match r {
                Some(i) => find_entry(self.connections@, address) == Some(i as nat) && i
                    < self.connections@.len(),
                None => find_entry(self.connections@, address) is None,
            },
    {
        let ghost s = self.connections@;
        let mut i: usize = 0;
        let n = self.connections.len();
        while i < n
            invariant
                i <= n,
                n == s.len(),
                s == self.connections@,
                forall|j: int| 0 <= j < i ==> s[j].address != address,
            decreases n - i,
        {
            if self.connections[i].address == address {
                proof {
                    lemma_find_entry(s, address);
                    assert(find_entry(s, address) == Some(i as nat));
                }
                return Some(i);
            }
            i = i + 1;
        }
        proof {
            lemma_find_entry(s, address);
        }
        None
    }

    /// Begins a client handshake toward `address`: a fresh connection under a
    /// random id goes into the registry (replacing any previous one for that
    /// address), and its first status request goes out.
    pub fn connect(&mut self, address: Address, request_id: u64, now: u64, out: &mut Outbox)
        requires
            old(self).wf(),
        ensures
            final(self).wf(),
            final(self).connection_timeout_duration == old(self).connection_timeout_duration,
            final(out).events@ == old(out).events@,
            final(out).packets@ == old(out).packets@.push(
                Emission {
                    to: address,
                    packet: Packet::StatusRequest(StatusRequest::FastnetQuery),
                },
            ),
            match find_entry(old(self).connections@, address) {
                Some(i) => {
                    &&& final(self).connections@.len() == old(self).connections@.len()
                    &&& (forall|j: int|
                        0 <= j < old(self).connections@.len() && j != i ==> final(self).connections@[j] == old(self).connections@[j])
                    &&& final(self).connections@[i as int].address == address
                    &&& spec_fresh_establishing(
                        final(self).connections@[i as int].conn,
                        address,
                        request_id,
                        now,
                    )
                },
                None => {
                    &&& final(self).connections@.len() == old(self).connections@.len() + 1
                    &&& (forall|j: int|
                        0 <= j < old(self).connections@.len() ==> final(self).connections@[j]
                            == old(self).connections@[j])
                    &&& final(self).connections@.last().address == address
                    &&& spec_fresh_establishing(
                        final(self).connections@.last().conn,
                        address,
                        request_id,
                        now,
                    )
                },
            },
    {
        let id = fresh_uuid();
        let mut conn = Connection::new(address, id, now);
        conn.establish(Some(request_id), out);
        let entry = ConnEntry { address, conn };
        match self.find_connection(address) {
            Some(i) => {
                proof {
                    lemma_find_entry(self.connections@, address);
                }
                let ghost pre = self.connections@;
                self.connections.remove(i);
                self.connections.insert(i, entry);
                proof {
                    assert(self.connections@ =~= pre.update(i as int, entry));
                    assert forall|a: int, b: int|
                        0 <= a < b < self.connections@.len() implies self.connections@[a].address
                        != self.connections@[b].address by {
                        if a != i && b != i {
                            assert(self.connections@[a] == pre[a] && self.connections@[b]
                                == pre[b]);
                        }
                    }
                }
            },
            None => {
                proof {
                    lemma_find_entry(self.connections@, address);
                }
                self.connections.push(entry);
                proof {
                    let ghost s = self.connections@;
                    assert forall|a: int, b: int|
                        0 <= a < b < s.len() implies s[a].address != s[b].address by {
                        if b < s.len() - 1 {
                        } else {
                            assert(s[a].address != address);
                        }
                    }
                }
            },
        }
    }

    /// Index of the first registry slot whose connection carries `id`.
    fn find_connection_by_id(&self, id: Uuid) -> (r: Option<usize>)
        ensures
            match r {
                Some(i) => find_entry_by_id(self.connections@, id) == Some(i as nat) && i
                    < self.connections@.len(),
                None => find_entry_by_id(self.connections@, id) is None,
            },
    {
        let ghost s = self.connections@;
        let mut i: usize = 0;
        let n = self.connections.len();
        while i < n
            invariant
                i <= n,
                n == s.len(),
                s == self.connections@,
                forall|j: int| 0 <= j < i ==> s[j].conn.id != id,
            decreases n - i,
        {
            if self.connections[i].conn.id == id {
                proof {
                    lemma_find_entry_by_id(s, id);
                    assert(find_entry_by_id(s, id) == Some(i as nat));
                }
                return Some(i);
            }
            i = i + 1;
        }
        proof {
            lemma_find_entry_by_id(s, id);
        }
        None
    }

    /// Closes the first connection carrying `id` locally and fires
    /// `disconnected`; nothing goes on the wire, and every other connection
    /// keeps its value. An unknown id changes nothing.
    pub fn disconnect(&mut self, id: Uuid, request_id: u64, out: &mut Outbox)
        requires
            old(self).wf(),
        ensures
            final(self).wf(),
            final(self).connection_timeout_duration == old(self).connection_timeout_duration,
            final(out).packets@ == old(out).packets@,
            match find_entry_by_id(old(self).connections@, id) {
                Some(i) => {
                    let e0 = old(self).connections@[i as int];
                    let e1 = final(self).connections@[i as int];
                    &&& final(self).connections@.len() == old(self).connections@.len()
                    &&& (forall|j: int|
                        0 <= j < old(self).connections@.len() && j != i ==> final(self).connections@[j] == old(self).connections@[j])
                    &&& e1.address == e0.address
                    &&& e1.conn.state == ConnectionState::Closed
                    &&& e1.conn.id == e0.conn.id
                    &&& e1.conn.address == e0.conn.address
                    &&& e1.conn.endpoint_id == e0.conn.endpoint_id
                    &&& e1.conn.sent_packets == e0.conn.sent_packets
                    &&& e1.conn.received_packets == e0.conn.received_packets
                    &&& e1.conn.heartbeat_counter == e0.conn.heartbeat_counter
                    &&& e1.conn.last_received_packet_time == e0.conn.last_received_packet_time
                    &&& e1.conn.roundtrip_estimator == e0.conn.roundtrip_estimator
                    &&& e1.conn.ack_manager == e0.conn.ack_manager
                    &&& final(out).events@ == old(out).events@.push(
                        HandlerEvent::Disconnected {
                            connection_id: id,
                            request_id: Some(request_id),
                        },
                    )
                },
                None => {
                    &&& final(self).connections@ == old(self).connections@
                    &&& final(out).events@ == old(out).events@
                },
            },
    {
        match self.find_connection_by_id(id) {
            Some(i) => {
                let ghost pre = self.connections@;
                let mut entry = self.connections.remove(i);
                entry.conn.state = ConnectionState::Closed;
                self.connections.insert(i, entry);
                out.events.push(
                    HandlerEvent::Disconnected { connection_id: id, request_id: Some(request_id) },
                );
                proof {
                    lemma_find_entry_by_id(pre, id);
                    assert(self.connections@ =~= pre.update(i as int, entry));
                    assert forall|a: int, b: int|
                        0 <= a < b < self.connections@.len() implies self.connections@[a].address
                        != self.connections@[b].address by {
                        if a != i && b != i {
                            assert(self.connections@[a] == pre[a] && self.connections@[b]
                                == pre[b]);
                        } else {
                            assert(self.connections@[i as int].address == pre[i as int].address);
                        }
                    }
                    assert(self.connections@[i as int].conn.id == id);
                }
            },
            None => {},
        }
    }
}
/// Whether a connection has seen traffic recently enough to survive a sweep
/// at `now`.
pub open spec fn spec_alive(c: Connection, now: u64, timeout: u64) -> bool {
    now <= c.last_received_packet_time || now - c.last_received_packet_time <= timeout
}

/// The `disconnected` callbacks a sweep fires: one per reaped connection, in
/// registry order.
pub open spec fn spec_sweep_events(s: Seq<ConnEntry>, now: u64, timeout: u64) -> Seq<HandlerEvent>
    decreases s.len(),
{
    if s.len() == 0 {
        Seq::<HandlerEvent>::empty()
    } else {
        let rest = spec_sweep_events(s.drop_last(), now, timeout);
        if !spec_alive(s.last().conn, now, timeout) {
            rest.push(
                HandlerEvent::Disconnected { connection_id: s.last().conn.id, request_id: None },
            )
        } else {
            rest
        }
    }
}

/// The heartbeats one slow tick emits: one per established connection, in
/// registry order.
pub open spec fn spec_heartbeats_of(s: Seq<ConnEntry>) -> Seq<Emission>
    decreases s.len(),
{
    if s.len() == 0 {
        Seq::<Emission>::empty()
    } else {
        let rest = spec_heartbeats_of(s.drop_last());
        if s.last().conn.state is Established {
            rest.push(
                Emission {
                    to: s.last().address,
                    packet: Packet::Heartbeat {
                        counter: s.last().conn.heartbeat_counter,
                        sent: s.last().conn.sent_packets,
                        received: s.last().conn.received_packets,
                    },
                },
            )
        } else {
            rest
        }
    }
}

/// The timeout failures one fast tick fires, in registry order.
pub open spec fn spec_tick200_events_of(s: Seq<ConnEntry>) -> Seq<HandlerEvent>
    decreases s.len(),
{
    if s.len() == 0 {
        Seq::<HandlerEvent>::empty()
    } else {
        spec_tick200_events_of(s.drop_last()) + spec_tick200_events(s.last().conn.state)
    }
}

/// The packets one fast tick emits for one registry slot: while establishing,
/// exactly the retransmission `spec_tick200_sends` says (none once timed
/// out); while established, one echo probe to the peer followed by one ack
/// per pending key, in order; nothing otherwise.
pub open spec fn spec_tick200_segment(e: ConnEntry, seg: Seq<Emission>) -> bool {
    match e.conn.state {
        ConnectionState::Established => {
            let pend = e.conn.ack_manager.pending();
            &&& seg.len() == 1 + pend.len()
            &&& seg[0].to == e.address
            &&& (seg[0].packet matches Packet::Echo { endpoint, .. } && endpoint
                == e.conn.endpoint_id)
            &&& (forall|k: int|
                0 <= k < pend.len() ==> seg[k + 1] == (Emission {
                    to: e.address,
                    packet: Packet::Ack {
                        chan: pend[k].chan,
                        sequence_number: pend[k].sequence_number,
                    },
                }))
        },
        _ => seg == spec_tick200_sends(e.conn.state, e.conn.id).map_values(
            |p: Packet| Emission { to: e.address, packet: p },
        ),
    }
}

/// The packets one fast tick emits for a whole registry: one segment per
/// slot, concatenated in registry order.
pub open spec fn spec_tick200_emissions(s: Seq<ConnEntry>, emitted: Seq<Emission>) -> bool
    decreases s.len(),
{
    if s.len() == 0 {
        emitted == Seq::<Emission>::empty()
    } else {
        exists|m: int|
            0 <= m <= emitted.len() && spec_tick200_emissions(s.drop_last(), emitted.take(m))
                && spec_tick200_segment(s.last(), emitted.skip(m))
    }
}

/// What dispatching one decoded packet from `address` does: the relation
/// between the registry and the outbox before and after the call, by packet
/// kind. A known peer's connection consumes the packet first, as
/// `Connection::handle_incoming_packet` says; what it does not handle falls
/// through to connectionless dispatch — a connect request opens or confirms
/// a connection, a status request is answered, anything else is dropped.
pub open spec fn spec_dispatch(
    pre: Seq<ConnEntry>,
    post: Seq<ConnEntry>,
    pre_packets: Seq<Emission>,
    post_packets: Seq<Emission>,
    pre_events: Seq<HandlerEvent>,
    post_events: Seq<HandlerEvent>,
    packet: PacketV,
    address: Address,
    now: u64,
) -> bool {
    match find_entry(pre, address) {
        Some(i) => {
            let c0 = pre[i as int].conn;
            let c1 = post[i as int].conn;
            &&& post.len() == pre.len()
            &&& (forall|j: int| 0 <= j < pre.len() && j != i ==> post[j] == pre[j])
            &&& post[i as int].address == address
            &&& c1.id == c0.id
            &&& c1.last_received_packet_time == now
            &&& match packet {
                PacketV::StatusResponse(resp) => {
                    &&& c1.state == spec_status_response_next(c0.state, resp)
                    &&& post_packets == pre_packets + spec_status_response_sends(
                        c0.state,
                        c0.id,
                        resp,
                    ).map_values(|p: Packet| Emission { to: address, packet: p })
                    &&& post_events == pre_events + spec_status_response_events(c0.state, resp)
                },
                PacketV::Echo { endpoint, uuid } => {
                    &&& c1.state == c0.state
                    &&& post_events == pre_events
                    &&& (endpoint != c0.endpoint_id ==> {
                        &&& post_packets.len() == pre_packets.len() + 1
                        &&& post_packets.subrange(0, pre_packets.len() as int) == pre_packets
                        &&& post_packets.last().to == address
                        &&& post_packets.last().packet@ == packet
                        &&& c1.roundtrip_estimator == c0.roundtrip_estimator
                    })
                    &&& (endpoint == c0.endpoint_id ==> {
                        &&& post_packets == pre_packets
                        &&& c1.roundtrip_estimator.window_size
                            == c0.roundtrip_estimator.window_size
                        &&& match find_probe(c0.roundtrip_estimator.in_flight@, uuid) {
                            Some(k) => {
                                &&& c1.roundtrip_estimator.in_flight@
                                    == c0.roundtrip_estimator.in_flight@.remove(k as int)
                                &&& c1.roundtrip_estimator.window@ == push_window(
                                    c0.roundtrip_estimator.window@,
                                    c0.roundtrip_estimator.window_size,
                                    observed_rtt(
                                        c0.roundtrip_estimator.in_flight@[k as int].sent_at,
                                        now,
                                    ),
                                )
                            },
                            None => {
                                &&& c1.roundtrip_estimator.in_flight@
                                    == c0.roundtrip_estimator.in_flight@
                                &&& c1.roundtrip_estimator.window@
                                    == c0.roundtrip_estimator.window@
                            },
                        }
                    })
                },
                PacketV::Heartbeat { .. } => {
                    &&& c1.state == c0.state
                    &&& post_packets == pre_packets
                    &&& post_events == pre_events
                },
                PacketV::Connected(cid) => {
                    &&& post_packets == pre_packets
                    &&& post_events == pre_events + spec_connected_events(c0.state, c0.id, cid)
                    &&& c1.state == (if spec_accepts_connected(c0.state, c0.id, cid) {
                        ConnectionState::Established
                    } else {
                        c0.state
                    })
                },
                PacketV::Aborted(_) => {
                    &&& post_packets == pre_packets
                    &&& post_events == pre_events + spec_abort_events(c0.state)
                    &&& c1.state == (if spec_accepts_abort(c0.state) {
                        ConnectionState::Closed
                    } else {
                        c0.state
                    })
                },
                PacketV::Ack { chan, sequence_number } => {
                    let key = AckKey { chan, sequence_number };
                    &&& c1.state == c0.state
                    &&& post_packets == pre_packets
                    &&& post_events == pre_events
                    &&& c1.ack_manager.pending() == c0.ack_manager.pending()
                    &&& !c1.ack_manager.outstanding().contains(key)
                    &&& (c0.ack_manager.outstanding().contains(key) ==> c1.ack_manager.outstanding() == c0.ack_manager.outstanding().remove_value(key))
                    &&& (!c0.ack_manager.outstanding().contains(key) ==> c1.ack_manager.outstanding() == c0.ack_manager.outstanding())
                },
                PacketV::Data { chan, packet: dp } => {
                    if c0.state is Established {
                        let key = AckKey { chan, sequence_number: dp.sequence_number };
                        &&& c1.state == c0.state
                        &&& post_packets == pre_packets
                        &&& post_events.len() == pre_events.len() + 1
                        &&& post_events.subrange(0, pre_events.len() as int) == pre_events
                        &&& (post_events.last() matches HandlerEvent::Deliver {
                            connection_id,
                            chan: dchan,
                            payload,
                            flags,
                            header,
                        } && connection_id == c0.id && dchan == chan && payload@ == dp.payload
                            && flags == dp.flags && header == dp.header)
                        &&& c1.ack_manager.outstanding() == c0.ack_manager.outstanding()
                        &&& (dp.flags & FLAG_RELIABLE != 0 ==> {
                            &&& (c0.ack_manager.pending().contains(key) ==> c1.ack_manager.pending() == c0.ack_manager.pending())
                            &&& (!c0.ack_manager.pending().contains(key) ==> c1.ack_manager.pending() == c0.ack_manager.pending().push(key))
                        })
                        &&& (dp.flags & FLAG_RELIABLE == 0 ==> c1.ack_manager.pending()
                            == c0.ack_manager.pending())
                    } else {
                        &&& c1.state == c0.state
                        &&& post_packets == pre_packets
                        &&& post_events == pre_events
                    }
                },
                PacketV::Connect(_) => {
                    &&& post_packets == pre_packets.push(
                        Emission { to: address, packet: Packet::Connected(c0.id) },
                    )
                    &&& post_events == pre_events
                },
                PacketV::StatusRequest(req) => {
                    &&& post_packets.len() == pre_packets.len() + 1
                    &&& post_packets.subrange(0, pre_packets.len() as int) == pre_packets
                    &&& post_packets.last().to == address
                    &&& (post_packets.last().packet matches Packet::StatusResponse(resp) && resp@
                        == spec_translate(req))
                    &&& post_events == pre_events
                },
            }
        },
        None => {
            match packet {
                PacketV::Connect(cid) => {
                    &&& post.len() == pre.len() + 1
                    &&& (forall|j: int| 0 <= j < pre.len() ==> post[j] == pre[j])
                    &&& post.last().address == address
                    &&& spec_passive_conn(post.last().conn, address, cid, now)
                    &&& post_packets == pre_packets.push(
                        Emission { to: address, packet: Packet::Connected(cid) },
                    )
                    &&& post_events == pre_events.push(
                        HandlerEvent::Connected { connection_id: cid, request_id: None },
                    )
                },
                PacketV::StatusRequest(req) => {
                    &&& post == pre
                    &&& post_packets.len() == pre_packets.len() + 1
                    &&& post_packets.subrange(0, pre_packets.len() as int) == pre_packets
                    &&& post_packets.last().to == address
                    &&& (post_packets.last().packet matches Packet::StatusResponse(resp) && resp@
                        == spec_translate(req))
                    &&& post_events == pre_events
                },
                _ => {
                    &&& post == pre
                    &&& post_packets == pre_packets
                    &&& post_events == pre_events
                },
            }
        },
    }
}

impl Engine {
    /// Dispatches one decoded packet from `address`, exactly as
    /// `spec_dispatch` says: first to that address's connection, then
    /// connectionless.
    pub fn handle_packet(&mut self, packet: &Packet, address: Address, now: u64, out: &mut Outbox)
        requires
            old(self).wf(),
        ensures
            final(self).wf(),
            final(self).connection_timeout_duration == old(self).connection_timeout_duration,
            spec_dispatch(
                old(self).connections@,
                final(self).connections@,
                old(out).packets@,
                final(out).packets@,
                old(out).events@,
                final(out).events@,
                packet@,
                address,
                now,
            ),
    {
        match self.find_connection(address) {
            Some(i) => {
                let ghost pre = self.connections@;
                proof {
                    lemma_find_entry(pre, address);
                    assert(pre[i as int].conn.address == address);
                }
                let mut entry = self.connections.remove(i);
                let handled = entry.conn.handle_incoming_packet(packet, now, out);
                self.connections.insert(i, entry);
                proof {
                    assert(self.connections@ =~= pre.update(i as int, entry));
                    assert forall|a: int, b: int|
                        0 <= a < b < self.connections@.len() implies self.connections@[a].address
                        != self.connections@[b].address by {
                        if a != i && b != i {
                            assert(self.connections@[a] == pre[a] && self.connections@[b]
                                == pre[b]);
                        } else {
                            assert(self.connections@[i as int].address == pre[i as int].address);
                        }
                    }
                    match packet {
                        Packet::StatusResponse(resp) => {
                            assert(packet@ == PacketV::StatusResponse(resp@));
                            assert(out.packets@ =~= old(out).packets@
                                + spec_status_response_sends(
                                pre[i as int].conn.state,
                                pre[i as int].conn.id,
                                resp@,
                            ).map_values(|p: Packet| Emission { to: address, packet: p }));
                        },
                        Packet::Echo { endpoint, uuid } => {
                            assert(packet@ == (PacketV::Echo {
                                endpoint: *endpoint,
                                uuid: *uuid,
                            }));
                            if *endpoint != pre[i as int].conn.endpoint_id {
                                assert(out.packets@.subrange(0, old(out).packets@.len() as int)
                                    =~= old(out).packets@);
                            }
                        },
                        Packet::Connected(cid) => {
                            assert(packet@ == PacketV::Connected(*cid));
                        },
                        Packet::Ack { chan, sequence_number } => {
                            assert(packet@ == (PacketV::Ack {
                                chan: *chan,
                                sequence_number: *sequence_number,
                            }));
                        },
                        Packet::Data { chan, packet: dp } => {
                            assert(packet@ == (PacketV::Data { chan: *chan, packet: dp@ }));
                        },
                        _ => {},
                    }
                }
                if handled {
                    return ;
                }
                match packet {
                    Packet::Connect(_) => {
                        let existing_id = self.connections[i].conn.id;
                        out.packets.push(
                            Emission { to: address, packet: Packet::Connected(existing_id) },
                        );
                    },
                    Packet::StatusRequest(req) => {
                        let resp = translate(req);
                        out.packets.push(
                            Emission { to: address, packet: Packet::StatusResponse(resp) },
                        );
                        assert(out.packets@.subrange(0, old(out).packets@.len() as int)
                            =~= old(out).packets@);
                    },
                    _ => {},
                }
            },
            None => {
                proof {
                    lemma_find_entry(self.connections@, address);
                }
                match packet {
                    Packet::Connect(cid) => {
                        let conn = Connection::from_connection_request(address, *cid, now);
                        let ghost pre = self.connections@;
                        self.connections.push(ConnEntry { address, conn });
                        out.packets.push(
                            Emission { to: address, packet: Packet::Connected(*cid) },
                        );
                        out.events.push(
                            HandlerEvent::Connected { connection_id: *cid, request_id: None },
                        );
                        proof {
                            let s = self.connections@;
                            assert forall|a: int, b: int|
                                0 <= a < b < s.len() implies s[a].address != s[b].address by {
                                if b < s.len() - 1 {
                                    assert(s[a] == pre[a] && s[b] == pre[b]);
                                } else {
                                    assert(s[a].address != address);
                                }
                            }
                        }
                    },
                    Packet::StatusRequest(req) => {
                        let resp = translate(req);
                        out.packets.push(
                            Emission { to: address, packet: Packet::StatusResponse(resp) },
                        );
                        assert(out.packets@.subrange(0, old(out).packets@.len() as int)
                            =~= old(out).packets@);
                    },
                    _ => {},
                }
            },
        }
    }

    /// The datagram ingress path: a datagram shorter than the checksum
    /// prefix, with a mismatched checksum, or whose body does not decode is
    /// dropped with no state change at all; anything else is dispatched
    /// exactly as `spec_dispatch` says for the decoded packet.
    pub fn got_datagram(&mut self, data: &[u8], address: Address, now: u64, out: &mut Outbox)
        requires
            old(self).wf(),
        ensures
            final(self).wf(),
            final(self).connection_timeout_duration == old(self).connection_timeout_duration,
            (!spec_datagram_checksum_ok(data@) || spec_decode_packet(data@.skip(4)) is Err) ==> {
                &&& final(self).connections@ == old(self).connections@
                &&& final(out).packets@ == old(out).packets@
                &&& final(out).events@ == old(out).events@
            },
            spec_datagram_checksum_ok(data@) ==> (spec_decode_packet(data@.skip(4)) matches Ok(
                pv,
            ) ==> spec_dispatch(
                old(self).connections@,
                final(self).connections@,
                old(out).packets@,
                final(out).packets@,
                old(out).events@,
                final(out).events@,
                pv,
                address,
                now,
            )),
    {
        match unwrap_datagram(data) {
            Some(body) => {
                match decode_packet(body) {
                    Ok(p) => {
                        self.handle_packet(&p, address, now, out);
                    },
                    Err(_) => {},
                }
            },
            None => {},
        }
    }


    /// Sends one data packet on the first connection carrying `id`. Exactly
    /// when that connection exists and is established, the channel is usable
    /// and the reserved and header flag bits are clear, the packet goes out,
    /// counted and (when reliable) tracked as outstanding.
    pub fn send_data(&mut self, id: Uuid, chan: u16, sequence_number: u64, flags: u8, payload: Vec<u8>, out: &mut Outbox) -> (sent: bool)
        requires
            old(self).wf(),
        ensures
            final(self).wf(),
            final(self).connection_timeout_duration == old(self).connection_timeout_duration,
            final(out).events@ == old(out).events@,
            sent == (match find_entry_by_id(old(self).connections@, id) {
                Some(i) => old(self).connections@[i as int].conn.state is Established && chan
                    <= crate::MAX_CHANNEL && flags & FLAG_RESERVED_MASK == 0 && flags
                    & FLAG_HAS_FRAME_HEADER == 0,
                None => false,
            }),
            match find_entry_by_id(old(self).connections@, id) {
                Some(i) => {
                    let e0 = old(self).connections@[i as int];
                    let e1 = final(self).connections@[i as int];
                    &&& final(self).connections@.len() == old(self).connections@.len()
                    &&& (forall|j: int|
                        0 <= j < old(self).connections@.len() && j != i ==> final(self).connections@[j] == old(self).connections@[j])
                    &&& e1.address == e0.address
                    &&& e1.conn.id == e0.conn.id
                    &&& e1.conn.state == e0.conn.state
                    &&& (sent ==> {
                        let key = AckKey { chan, sequence_number };
                        &&& final(out).packets@ == old(out).packets@.push(
                            Emission {
                                to: e0.address,
                                packet: Packet::Data {
                                    chan,
                                    packet: DataPacket {
                                        sequence_number,
                                        flags,
                                        payload,
                                        header: None,
                                    },
                                },
                            },
                        )
                        &&& e1.conn.sent_packets == count_wrap(e0.conn.sent_packets, 1)
                        &&& e1.conn.ack_manager.pending() == e0.conn.ack_manager.pending()
                        &&& (flags & FLAG_RELIABLE != 0 ==> {
                            &&& (e0.conn.ack_manager.outstanding().contains(key)
                                ==> e1.conn.ack_manager.outstanding()
                                == e0.conn.ack_manager.outstanding())
                            &&& (!e0.conn.ack_manager.outstanding().contains(key)
                                ==> e1.conn.ack_manager.outstanding()
                                == e0.conn.ack_manager.outstanding().push(key))
                        })
                        &&& (flags & FLAG_RELIABLE == 0 ==> e1.conn.ack_manager.outstanding()
                            == e0.conn.ack_manager.outstanding())
                    })
                    &&& (!sent ==> final(self).connections@ == old(self).connections@ && final(out).packets@ == old(out).packets@)
                },
                None => {
                    &&& final(self).connections@ == old(self).connections@
                    &&& final(out).packets@ == old(out).packets@
                },
            },
    {
        match self.find_connection_by_id(id) {
            Some(i) => {
                let ghost pre = self.connections@;
                let mut entry = self.connections.remove(i);
                let sent = entry.conn.send_data(chan, sequence_number, flags, payload, out);
                self.connections.insert(i, entry);
                proof {
                    lemma_find_entry_by_id(pre, id);
                    assert(self.connections@ =~= pre.update(i as int, entry));
                    assert forall|a: int, b: int|
                        0 <= a < b < self.connections@.len() implies self.connections@[a].address
                        != self.connections@[b].address by {
                        if a != i && b != i {
                            assert(self.connections@[a] == pre[a] && self.connections@[b]
                                == pre[b]);
                        } else {
                            assert(self.connections@[i as int].address == pre[i as int].address);
                        }
                    }
                    if !sent {
                        assert(self.connections@ =~= pre);
                    }
                }
                sent
            },
            None => false,
        }
    }

    /// The fast timer: ticks every connection. Retry failures surface in
    /// registry order; everything already sent stays in place.
    pub fn tick200_all(&mut self, now: u64, out: &mut Outbox)
        requires
            old(self).wf(),
        ensures
            final(self).wf(),
            final(self).connection_timeout_duration == old(self).connection_timeout_duration,
            final(self).connections@.len() == old(self).connections@.len(),
            final(out).events@ == old(out).events@ + spec_tick200_events_of(
                old(self).connections@,
            ),
            spec_tick200_emissions(
                old(self).connections@,
                final(out).packets@.skip(old(out).packets@.len() as int),
            ),
            final(out).packets@.len() >= old(out).packets@.len(),
            (forall|k: int|
                0 <= k < old(out).packets@.len() ==> final(out).packets@[k] == old(out).packets@[k]),
            (forall|j: int|
                0 <= j < old(self).connections@.len() ==> {
                    let c0 = old(self).connections@[j].conn;
                    let c1 = #[trigger] final(self).connections@[j].conn;
                    &&& final(self).connections@[j].address == old(self).connections@[j].address
                    &&& c1.id == c0.id
                    &&& c1.last_received_packet_time == c0.last_received_packet_time
                    &&& (!(c0.state is Established) ==> c1.state == spec_tick200_next(c0.state)
                        && c1.sent_packets == c0.sent_packets)
                    &&& (c0.state is Established ==> c1.state is Established
                        && c1.ack_manager.pending() == Seq::<AckKey>::empty()
                        && c1.ack_manager.outstanding() == c0.ack_manager.outstanding()
                        && c1.sent_packets == count_wrap(
                        c0.sent_packets,
                        1 + c0.ack_manager.pending().len() as int,
                    ) && c1.roundtrip_estimator.in_flight@.len()
                        == c0.roundtrip_estimator.in_flight@.len() + 1
                        && c1.roundtrip_estimator.window@ == c0.roundtrip_estimator.window@)
                }),
    {
        let ghost orig = self.connections@;
        let ghost packets0 = out.packets@;
        let ghost events0 = out.events@;
        proof {
            assert(out.packets@.skip(packets0.len() as int) =~= Seq::<Emission>::empty());
        }
        let n = self.connections.len();
        let mut i: usize = 0;
        while i < n
            invariant
                i <= n,
                n == self.connections@.len(),
                n == orig.len(),
                self.connection_timeout_duration == old(self).connection_timeout_duration,
                unique_addresses(orig),
                forall|j: int|
                    0 <= j < n ==> (#[trigger] orig[j]).conn.wf() && orig[j].conn.address
                        == orig[j].address,
                forall|j: int| i <= j < n ==> self.connections@[j] == orig[j],
                out.events@ == events0 + spec_tick200_events_of(orig.take(i as int)),
                spec_tick200_emissions(
                    orig.take(i as int),
                    out.packets@.skip(packets0.len() as int),
                ),
                out.packets@.len() >= packets0.len(),
                forall|k: int| 0 <= k < packets0.len() ==> out.packets@[k] == packets0[k],
                forall|j: int|
                    0 <= j < i ==> {
                        let c0 = orig[j].conn;
                        let c1 = (#[trigger] self.connections@[j]).conn;
                        &&& self.connections@[j].address == orig[j].address
                        &&& c1.wf()
                        &&& c1.address == c0.address
                        &&& c1.id == c0.id
                        &&& c1.last_received_packet_time == c0.last_received_packet_time
                        &&& (!(c0.state is Established) ==> c1.state == spec_tick200_next(
                            c0.state,
                        ) && c1.sent_packets == c0.sent_packets)
                        &&& (c0.state is Established ==> c1.state is Established
                            && c1.ack_manager.pending() == Seq::<AckKey>::empty()
                            && c1.ack_manager.outstanding() == c0.ack_manager.outstanding()
                            && c1.sent_packets == count_wrap(
                            c0.sent_packets,
                            1 + c0.ack_manager.pending().len() as int,
                        ) && c1.roundtrip_estimator.in_flight@.len()
                            == c0.roundtrip_estimator.in_flight@.len() + 1
                            && c1.roundtrip_estimator.window@ == c0.roundtrip_estimator.window@)
                    },
            decreases n - i,
        {
            let ghost pre = self.connections@;
            let ghost packets_pre = out.packets@;
            let mut entry = self.connections.remove(i);
            entry.conn.tick200(now, out);
            self.connections.insert(i, entry);
            proof {
                assert(self.connections@ =~= pre.update(i as int, entry));
                assert(orig.take(i + 1).drop_last() =~= orig.take(i as int));
                assert(orig.take(i + 1).last() == orig[i as int]);
                assert(spec_tick200_events_of(orig.take(i + 1)) == spec_tick200_events_of(
                    orig.take(i as int),
                ) + spec_tick200_events(orig[i as int].conn.state));
                assert(out.events@ =~= events0 + spec_tick200_events_of(orig.take(i + 1)));
                // everything already emitted stays in place
                assert forall|k: int| 0 <= k < packets_pre.len() implies out.packets@[k]
                    == packets_pre[k] by {
                    if !(orig[i as int].conn.state is Established) {
                        assert(out.packets@[k] == (packets_pre + spec_tick200_sends(
                            orig[i as int].conn.state,
                            orig[i as int].conn.id,
                        ).map_values(
                            |p: Packet| Emission { to: orig[i as int].conn.address, packet: p },
                        ))[k]);
                    } else {
                        assert(out.packets@.take(packets_pre.len() as int)[k] == packets_pre[k]);
                    }
                }
                // this slot's segment lands right after what was emitted so far
                let m = packets_pre.len() - packets0.len();
                let emitted_new = out.packets@.skip(packets0.len() as int);
                assert(emitted_new.take(m) =~= packets_pre.skip(packets0.len() as int));
                assert(spec_tick200_emissions(orig.take(i + 1).drop_last(), emitted_new.take(m)));
                if orig[i as int].conn.state is Established {
                    let pend = orig[i as int].conn.ack_manager.pending();
                    let seg = emitted_new.skip(m);
                    assert(seg.len() == 1 + pend.len());
                    assert(seg[0] == out.packets@[packets_pre.len() as int]);
                    assert forall|k: int|
                        0 <= k < pend.len() implies seg[k + 1] == (Emission {
                        to: orig[i as int].address,
                        packet: Packet::Ack {
                            chan: pend[k].chan,
                            sequence_number: pend[k].sequence_number,
                        },
                    }) by {
                        assert(seg[k + 1] == out.packets@[packets_pre.len() + 1 + k]);
                    }
                    assert(spec_tick200_segment(orig[i as int], seg));
                } else {
                    assert(emitted_new.skip(m) =~= spec_tick200_sends(
                        orig[i as int].conn.state,
                        orig[i as int].conn.id,
                    ).map_values(|p: Packet| Emission { to: orig[i as int].address, packet: p }));
                    assert(spec_tick200_segment(orig[i as int], emitted_new.skip(m)));
                }
                assert(spec_tick200_emissions(orig.take(i + 1), emitted_new));
            }
            i = i + 1;
        }
        proof {
            assert(orig.take(n as int) =~= orig);
            assert forall|a: int, b: int|
                0 <= a < b < self.connections@.len() implies (#[trigger] self.connections@[a]).address != (#[trigger] self.connections@[b]).address by {
                assert(self.connections@[a].address == orig[a].address);
                assert(self.connections@[b].address == orig[b].address);
            }
        }
    }

    /// The slow timer: every established connection emits exactly one
    /// heartbeat, in registry order.
    pub fn tick1000_all(&mut self, out: &mut Outbox)
        requires
            old(self).wf(),
        ensures
            final(self).wf(),
            final(self).connection_timeout_duration == old(self).connection_timeout_duration,
            final(self).connections@.len() == old(self).connections@.len(),
            final(out).events@ == old(out).events@,
            final(out).packets@ == old(out).packets@ + spec_heartbeats_of(old(self).connections@),
            (forall|j: int|
                0 <= j < old(self).connections@.len() ==> {
                    let c0 = old(self).connections@[j].conn;
                    let c1 = (#[trigger] final(self).connections@[j]).conn;
                    &&& final(self).connections@[j].address == old(self).connections@[j].address
                    &&& c1.state == c0.state
                    &&& c1.id == c0.id
                    &&& c1.received_packets == c0.received_packets
                    &&& c1.last_received_packet_time == c0.last_received_packet_time
                    &&& c1.ack_manager == c0.ack_manager
                    &&& c1.roundtrip_estimator == c0.roundtrip_estimator
                    &&& (c0.state is Established ==> c1.heartbeat_counter == count_wrap(
                        c0.heartbeat_counter,
                        1,
                    ) && c1.sent_packets == count_wrap(c0.sent_packets, 1))
                    &&& (!(c0.state is Established) ==> c1.heartbeat_counter
                        == c0.heartbeat_counter && c1.sent_packets == c0.sent_packets)
                }),
    {
        let ghost orig = self.connections@;
        let ghost packets0 = out.packets@;
        let ghost events0 = out.events@;
        let n = self.connections.len();
        let mut i: usize = 0;
        while i < n
            invariant
                i <= n,
                n == self.connections@.len(),
                n == orig.len(),
                self.connection_timeout_duration == old(self).connection_timeout_duration,
                unique_addresses(orig),
                forall|j: int|
                    0 <= j < n ==> (#[trigger] orig[j]).conn.wf() && orig[j].conn.address
                        == orig[j].address,
                forall|j: int| i <= j < n ==> self.connections@[j] == orig[j],
                out.events@ == events0,
                out.packets@ == packets0 + spec_heartbeats_of(orig.take(i as int)),
                forall|j: int|
                    0 <= j < i ==> {
                        let c0 = orig[j].conn;
                        let c1 = (#[trigger] self.connections@[j]).conn;
                        &&& self.connections@[j].address == orig[j].address
                        &&& c1.wf()
                        &&& c1.address == c0.address
                        &&& c1.state == c0.state
                        &&& c1.id == c0.id
                        &&& c1.received_packets == c0.received_packets
                        &&& c1.last_received_packet_time == c0.last_received_packet_time
                        &&& c1.ack_manager == c0.ack_manager
                        &&& c1.roundtrip_estimator == c0.roundtrip_estimator
                        &&& (c0.state is Established ==> c1.heartbeat_counter == count_wrap(
                            c0.heartbeat_counter,
                            1,
                        ) && c1.sent_packets == count_wrap(c0.sent_packets, 1))
                        &&& (!(c0.state is Established) ==> c1.heartbeat_counter
                            == c0.heartbeat_counter && c1.sent_packets == c0.sent_packets)
                    },
            decreases n - i,
        {
            let ghost pre = self.connections@;
            let mut entry = self.connections.remove(i);
            entry.conn.tick1000(out);
            self.connections.insert(i, entry);
            proof {
                assert(self.connections@ =~= pre.update(i as int, entry));
                assert(orig.take(i + 1).drop_last() =~= orig.take(i as int));
                assert(orig.take(i + 1).last() == orig[i as int]);
                assert(spec_heartbeats_of(orig.take(i + 1)) == spec_heartbeats_of(
                    orig.take(i as int),
                ) + (if orig[i as int].conn.state is Established {
                    seq![
                        Emission {
                            to: orig[i as int].address,
                            packet: Packet::Heartbeat {
                                counter: orig[i as int].conn.heartbeat_counter,
                                sent: orig[i as int].conn.sent_packets,
                                received: orig[i as int].conn.received_packets,
                            },
                        },
                    ]
                } else {
                    Seq::<Emission>::empty()
                }));
                assert(out.packets@ =~= packets0 + spec_heartbeats_of(orig.take(i + 1)));
            }
            i = i + 1;
        }
        proof {
            assert(orig.take(n as int) =~= orig);
            assert forall|a: int, b: int|
                0 <= a < b < self.connections@.len() implies (#[trigger] self.connections@[a]).address != (#[trigger] self.connections@[b]).address by {
                assert(self.connections@[a].address == orig[a].address);
                assert(self.connections@[b].address == orig[b].address);
            }
        }
    }

    /// The liveness sweep: every connection whose last accepted packet is
    /// older than the timeout leaves the registry, with one `disconnected`
    /// callback each, in registry order.
    pub fn sweep(&mut self, now: u64, out: &mut Outbox)
        requires
            old(self).wf(),
        ensures
            final(self).wf(),
            final(self).connection_timeout_duration == old(self).connection_timeout_duration,
            final(out).packets@ == old(out).packets@,
            final(self).connections@ == old(self).connections@.filter(
                |e: ConnEntry| spec_alive(e.conn, now, old(self).connection_timeout_duration),
            ),
            final(out).events@ == old(out).events@ + spec_sweep_events(
                old(self).connections@,
                now,
                old(self).connection_timeout_duration,
            ),
    {
        let ghost orig = self.connections@;
        let ghost events0 = out.events@;
        let mut kept: Vec<ConnEntry> = Vec::new();
        proof {
            reveal(Seq::filter);
            assert(orig.take(0).filter(
                |e: ConnEntry| spec_alive(e.conn, now, old(self).connection_timeout_duration),
            ) =~= Seq::<ConnEntry>::empty());
        }
        let n = self.connections.len();
        let mut i: usize = 0;
        while i < n
            invariant
                i <= n,
                n == orig.len(),
                self.connections@ == orig.skip(i as int),
                self.connection_timeout_duration == old(self).connection_timeout_duration,
                unique_addresses(orig),
                forall|j: int|
                    0 <= j < n ==> (#[trigger] orig[j]).conn.wf() && orig[j].conn.address
                        == orig[j].address,
                kept@ == orig.take(i as int).filter(
                    |e: ConnEntry| spec_alive(e.conn, now, old(self).connection_timeout_duration),
                ),
                forall|j: int|
                    0 <= j < kept@.len() ==> (#[trigger] kept@[j]).conn.wf() && kept@[j].conn.address
                        == kept@[j].address,
                unique_addresses(kept@),
                forall|j: int, m: int|
                    0 <= j < kept@.len() && i <= m < n ==> (#[trigger] kept@[j]).address != (
                    #[trigger] orig[m]).address,
                out.events@ == events0 + spec_sweep_events(orig.take(i as int), now, old(self).connection_timeout_duration),
                out.packets@ == old(out).packets@,
            decreases n - i,
        {
            let entry = self.connections.remove(0);
            proof {
                assert(orig.skip(i as int)[0] == orig[i as int]);
                assert(entry == orig[i as int]);
                assert(self.connections@ =~= orig.skip(i + 1));
                assert(orig.take(i + 1).drop_last() =~= orig.take(i as int));
                assert(orig.take(i + 1).last() == orig[i as int]);
            }
            let elapsed = if now >= entry.conn.last_received_packet_time {
                now - entry.conn.last_received_packet_time
            } else {
                0
            };
            if elapsed > self.connection_timeout_duration {
                out.events.push(
                    HandlerEvent::Disconnected { connection_id: entry.conn.id, request_id: None },
                );
                proof {
                    reveal(Seq::filter);
                    assert(!spec_alive(orig[i as int].conn, now, old(self).connection_timeout_duration));
                    assert(orig.take(i + 1).filter(
                        |e: ConnEntry| spec_alive(e.conn, now, old(self).connection_timeout_duration),
                    ) =~= orig.take(i as int).filter(
                        |e: ConnEntry| spec_alive(e.conn, now, old(self).connection_timeout_duration),
                    ));
                    assert(out.events@ =~= events0 + spec_sweep_events(
                        orig.take(i + 1),
                        now,
                        old(self).connection_timeout_duration,
                    ));
                }
            } else {
                let ghost kept0 = kept@;
                kept.push(entry);
                proof {
                    reveal(Seq::filter);
                    assert(spec_alive(orig[i as int].conn, now, old(self).connection_timeout_duration));
                    assert(orig.take(i + 1).filter(
                        |e: ConnEntry| spec_alive(e.conn, now, old(self).connection_timeout_duration),
                    ) =~= orig.take(i as int).filter(
                        |e: ConnEntry| spec_alive(e.conn, now, old(self).connection_timeout_duration),
                    ).push(orig[i as int]));
                    assert(out.events@ =~= events0 + spec_sweep_events(
                        orig.take(i + 1),
                        now,
                        old(self).connection_timeout_duration,
                    ));
                    assert forall|a: int, b: int|
                        0 <= a < b < kept@.len() implies (#[trigger] kept@[a]).address != (
                    #[trigger] kept@[b]).address by {
                        if b < kept@.len() - 1 {
                            assert(kept@[a] == kept0[a] && kept@[b] == kept0[b]);
                        } else {
                            assert(kept@[a] == kept0[a]);
                            assert(kept@[b] == orig[i as int]);
                        }
                    }
                }
            }
            i = i + 1;
        }
        proof {
            assert(orig.take(n as int) =~= orig);
        }
        self.connections = kept;
    }
}

} // verus!
