use fastnet::codec::encode_packet;
use fastnet::connection::ConnectionState;
use fastnet::engine::Engine;
use fastnet::events::{Address, HandlerEvent, Outbox};
use fastnet::frame::wrap_datagram;
use fastnet::packets::{Packet, StatusRequest, StatusResponse, Uuid};
use fastnet::responders::EchoResponder;
use fastnet::roundtrip::RoundtripEstimator;
use fastnet::status_translator::translate;

fn addr(n: u32) -> Address {
    Address::V4 { ip: n, port: 4000 }
}

fn uid(n: u64) -> Uuid {
    Uuid { hi: n, lo: n }
}

#[test]
fn test_passive_open() {
    let mut engine = Engine::new();
    let mut out = Outbox::new();
    engine.handle_packet(&Packet::Connect(uid(3)), addr(1), 0, &mut out);
    assert_eq!(engine.connections.len(), 1);
    assert!(matches!(engine.connections[0].conn.state, ConnectionState::Established));
    assert_eq!(out.packets.len(), 1);
    assert_eq!(out.packets[0].to, addr(1));
    assert_eq!(out.packets[0].packet, Packet::Connected(uid(3)));
    assert_eq!(
        out.events,
        vec![HandlerEvent::Connected { connection_id: uid(3), request_id: None }]
    );
}

#[test]
fn test_duplicate_connect_confirms_existing() {
    let mut engine = Engine::new();
    let mut out = Outbox::new();
    engine.handle_packet(&Packet::Connect(uid(3)), addr(1), 0, &mut out);
    engine.handle_packet(&Packet::Connect(uid(4)), addr(1), 1, &mut out);
    // the registry still holds one connection, under the original id
    assert_eq!(engine.connections.len(), 1);
    assert_eq!(engine.connections[0].conn.id, uid(3));
    assert_eq!(out.packets.len(), 2);
    assert_eq!(out.packets[1].packet, Packet::Connected(uid(3)));
    // no second connected callback fires
    assert_eq!(out.events.len(), 1);
}

#[test]
fn test_status_request_is_answered() {
    let mut engine = Engine::new();
    let mut out = Outbox::new();
    engine.handle_packet(
        &Packet::StatusRequest(StatusRequest::FastnetQuery),
        addr(1),
        0,
        &mut out,
    );
    assert!(engine.connections.is_empty());
    assert_eq!(out.packets.len(), 1);
    assert_eq!(
        out.packets[0].packet,
        Packet::StatusResponse(StatusResponse::FastnetResponse(true))
    );
}

#[test]
fn test_translate_answers() {
    assert_eq!(
        translate(&StatusRequest::FastnetQuery),
        StatusResponse::FastnetResponse(true)
    );
    assert_eq!(
        translate(&StatusRequest::VersionQuery),
        StatusResponse::VersionResponse(b"1.0".to_vec())
    );
    assert_eq!(
        translate(&StatusRequest::ExtensionQuery(b"frob".to_vec())),
        StatusResponse::ExtensionResponse { name: b"frob".to_vec(), supported: false }
    );
}

#[test]
fn test_good_datagram_is_dispatched() {
    let mut engine = Engine::new();
    let mut out = Outbox::new();
    let body = encode_packet(&Packet::StatusRequest(StatusRequest::FastnetQuery)).unwrap();
    let datagram = wrap_datagram(&body);
    engine.got_datagram(&datagram, addr(1), 0, &mut out);
    assert_eq!(out.packets.len(), 1);
    assert_eq!(
        out.packets[0].packet,
        Packet::StatusResponse(StatusResponse::FastnetResponse(true))
    );
}

#[test]
fn test_corrupt_datagram_changes_nothing() {
    let mut engine = Engine::new();
    let mut out = Outbox::new();
    engine.handle_packet(&Packet::Connect(uid(3)), addr(1), 0, &mut out);
    let packets_before = out.packets.len();
    let events_before = out.events.len();
    let time_before = engine.connections[0].conn.last_received_packet_time;
    let body = encode_packet(&Packet::Heartbeat { counter: 1, sent: 1, received: 1 }).unwrap();
    let mut datagram = wrap_datagram(&body);
    datagram[6] ^= 0x01;
    engine.got_datagram(&datagram, addr(1), 99, &mut out);
    // no callback fires and the liveness clock does not advance
    assert_eq!(out.packets.len(), packets_before);
    assert_eq!(out.events.len(), events_before);
    assert_eq!(engine.connections[0].conn.last_received_packet_time, time_before);
}

#[test]
fn test_good_datagram_advances_liveness_clock() {
    let mut engine = Engine::new();
    let mut out = Outbox::new();
    engine.handle_packet(&Packet::Connect(uid(3)), addr(1), 0, &mut out);
    let body = encode_packet(&Packet::Heartbeat { counter: 1, sent: 1, received: 1 }).unwrap();
    let datagram = wrap_datagram(&body);
    engine.got_datagram(&datagram, addr(1), 99, &mut out);
    assert_eq!(engine.connections[0].conn.last_received_packet_time, 99);
}

#[test]
fn test_liveness_sweep() {
    let mut engine = Engine::new();
    let mut out = Outbox::new();
    engine.configure_timeout(100);
    engine.handle_packet(&Packet::Connect(uid(3)), addr(1), 0, &mut out);
    // within the window nothing is reaped
    engine.sweep(100, &mut out);
    assert_eq!(engine.connections.len(), 1);
    assert_eq!(out.events.len(), 1);
    // past the window the connection is removed, with one callback
    engine.sweep(101, &mut out);
    assert!(engine.connections.is_empty());
    assert_eq!(
        out.events[1],
        HandlerEvent::Disconnected { connection_id: uid(3), request_id: None }
    );
    assert_eq!(out.events.len(), 2);
}

#[test]
fn test_sweep_keeps_fresh_connections() {
    let mut engine = Engine::new();
    let mut out = Outbox::new();
    engine.configure_timeout(100);
    engine.handle_packet(&Packet::Connect(uid(3)), addr(1), 0, &mut out);
    engine.handle_packet(&Packet::Connect(uid(4)), addr(2), 150, &mut out);
    engine.sweep(200, &mut out);
    assert_eq!(engine.connections.len(), 1);
    assert_eq!(engine.connections[0].conn.id, uid(4));
}

#[test]
fn test_engine_connect_opens_handshake() {
    let mut engine = Engine::new();
    let mut out = Outbox::new();
    engine.connect(addr(1), 42, 0, &mut out);
    assert_eq!(engine.connections.len(), 1);
    assert!(matches!(
        engine.connections[0].conn.state,
        ConnectionState::Establishing { listening: false, compatible_version: false, attempts: 0, request_id: Some(42) }
    ));
    assert_eq!(out.packets.len(), 1);
    assert_eq!(out.packets[0].packet, Packet::StatusRequest(StatusRequest::FastnetQuery));
}

#[test]
fn test_engine_tick1000_emits_heartbeats() {
    let mut engine = Engine::new();
    let mut out = Outbox::new();
    engine.handle_packet(&Packet::Connect(uid(3)), addr(1), 0, &mut out);
    engine.handle_packet(&Packet::Connect(uid(4)), addr(2), 0, &mut out);
    let before = out.packets.len();
    engine.tick1000_all(&mut out);
    assert_eq!(out.packets.len(), before + 2);
    assert!(matches!(out.packets[before].packet, Packet::Heartbeat { .. }));
    assert!(matches!(out.packets[before + 1].packet, Packet::Heartbeat { .. }));
}

#[test]
fn test_engine_disconnect() {
    let mut engine = Engine::new();
    let mut out = Outbox::new();
    engine.handle_packet(&Packet::Connect(uid(3)), addr(1), 0, &mut out);
    engine.disconnect(uid(3), 7, &mut out);
    assert_eq!(engine.connections.len(), 1);
    assert!(matches!(engine.connections[0].conn.state, ConnectionState::Closed));
    assert_eq!(
        out.events[1],
        HandlerEvent::Disconnected { connection_id: uid(3), request_id: Some(7) }
    );
}

#[test]
fn test_engine_send_data() {
    let mut engine = Engine::new();
    let mut out = Outbox::new();
    engine.handle_packet(&Packet::Connect(uid(3)), addr(1), 0, &mut out);
    let sent = engine.send_data(uid(3), 5, 1, 1, vec![1, 2, 3], &mut out);
    assert!(sent);
    match &out.packets[out.packets.len() - 1].packet {
        Packet::Data { chan, packet } => {
            assert_eq!(*chan, 5);
            assert_eq!(packet.sequence_number, 1);
            assert_eq!(packet.flags, 1);
            assert_eq!(packet.payload, vec![1u8, 2, 3]);
        },
        other => panic!("expected a data packet, got {:?}", other),
    }
    // sending to an unknown id does nothing
    assert!(!engine.send_data(uid(9), 5, 2, 1, vec![], &mut out));
}

#[test]
fn test_estimator_rolls_its_window() {
    let mut est = RoundtripEstimator::new(2);
    let mut out = Outbox::new();
    est.tick(addr(1), uid(1), uid(10), 0, &mut out);
    est.tick(addr(1), uid(1), uid(11), 0, &mut out);
    est.tick(addr(1), uid(1), uid(12), 0, &mut out);
    assert_eq!(est.estimate(), None);
    est.handle_echo(uid(10), 10);
    est.handle_echo(uid(11), 20);
    assert_eq!(est.estimate(), Some(15));
    // a third observation pushes the oldest out of the window
    est.handle_echo(uid(12), 40);
    assert_eq!(est.estimate(), Some(30));
    // an unknown probe changes nothing
    est.handle_echo(uid(99), 1000);
    assert_eq!(est.estimate(), Some(30));
}

#[test]
fn test_echo_responder_replays() {
    let mut responder = EchoResponder::new();
    let mut out = Outbox::new();
    let packet = Packet::Echo { endpoint: uid(1), uuid: uid(2) };
    assert!(responder.handle_incoming_packet(&packet, addr(1), &mut out));
    assert_eq!(out.packets.len(), 1);
    assert_eq!(out.packets[0].packet, packet);
    assert!(!responder.handle_incoming_packet(
        &Packet::Heartbeat { counter: 0, sent: 0, received: 0 },
        addr(1),
        &mut out
    ));
    assert_eq!(out.packets.len(), 1);
}

#[test]
fn test_engine_tick200_retransmits_handshake() {
    let mut engine = Engine::new();
    let mut out = Outbox::new();
    engine.connect(addr(1), 42, 0, &mut out);
    engine.tick200_all(0, &mut out);
    // the handshake is stuck on the first query, so it is retransmitted
    assert_eq!(out.packets.len(), 2);
    assert_eq!(out.packets[1].packet, Packet::StatusRequest(StatusRequest::FastnetQuery));
    assert!(out.events.is_empty());
}

#[test]
fn test_engine_tick200_times_out_handshake() {
    let mut engine = Engine::new();
    let mut out = Outbox::new();
    engine.connect(addr(1), 42, 0, &mut out);
    for tick in 0..11u64 {
        engine.tick200_all(tick, &mut out);
    }
    assert_eq!(
        out.events,
        vec![fastnet::events::HandlerEvent::RequestFailed {
            request_id: 42,
            error: fastnet::events::FastnetError::TimedOut,
        }]
    );
}

#[test]
fn test_engine_delivers_reliable_data_and_acks() {
    let mut engine = Engine::new();
    let mut out = Outbox::new();
    engine.handle_packet(&Packet::Connect(uid(3)), addr(1), 0, &mut out);
    let data = Packet::Data {
        chan: 5,
        packet: fastnet::packets::DataPacket {
            sequence_number: 1,
            flags: 1,
            payload: vec![7, 8],
            header: None,
        },
    };
    let datagram = wrap_datagram(&encode_packet(&data).unwrap());
    engine.got_datagram(&datagram, addr(1), 10, &mut out);
    match &out.events[out.events.len() - 1] {
        HandlerEvent::Deliver { connection_id, chan, payload, flags, header } => {
            assert_eq!(*connection_id, uid(3));
            assert_eq!(*chan, 5);
            assert_eq!(payload, &vec![7u8, 8]);
            assert_eq!(*flags, 1);
            assert!(header.is_none());
        },
        other => panic!("expected a delivery, got {:?}", other),
    }
    // the next fast tick emits the echo probe and then the owed ack
    let before = out.packets.len();
    engine.tick200_all(11, &mut out);
    assert_eq!(out.packets.len(), before + 2);
    assert!(matches!(out.packets[before].packet, Packet::Echo { .. }));
    assert_eq!(
        out.packets[before + 1].packet,
        Packet::Ack { chan: 5, sequence_number: 1 }
    );
}

#[test]
fn test_engine_replays_foreign_echo() {
    let mut engine = Engine::new();
    let mut out = Outbox::new();
    engine.handle_packet(&Packet::Connect(uid(3)), addr(1), 0, &mut out);
    let foreign = Uuid {
        hi: engine.connections[0].conn.endpoint_id.hi ^ 1,
        lo: engine.connections[0].conn.endpoint_id.lo,
    };
    let echo = Packet::Echo { endpoint: foreign, uuid: uid(9) };
    let datagram = wrap_datagram(&encode_packet(&echo).unwrap());
    let before = out.packets.len();
    engine.got_datagram(&datagram, addr(1), 10, &mut out);
    assert_eq!(out.packets.len(), before + 1);
    assert_eq!(out.packets[before].packet, echo);
    assert_eq!(out.packets[before].to, addr(1));
}
