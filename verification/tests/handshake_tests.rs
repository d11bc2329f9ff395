use fastnet::connection::{Connection, ConnectionState};
use fastnet::events::{Address, FastnetError, HandlerEvent, Outbox};
use fastnet::packets::{DataPacket, Packet, StatusRequest, StatusResponse, Uuid};

fn addr() -> Address {
    Address::V4 { ip: 0x7f00_0001, port: 9000 }
}

fn uid(n: u64) -> Uuid {
    Uuid { hi: n, lo: n }
}

fn version_ok() -> Packet {
    Packet::StatusResponse(StatusResponse::VersionResponse(b"1.0".to_vec()))
}

#[test]
fn test_establish_emits_fastnet_query() {
    let mut out = Outbox::new();
    let mut conn = Connection::new(addr(), uid(1), 0);
    assert!(matches!(conn.state, ConnectionState::Closed));
    conn.establish(Some(42), &mut out);
    assert!(matches!(
        conn.state,
        ConnectionState::Establishing { listening: false, compatible_version: false, attempts: 0, request_id: Some(42) }
    ));
    assert_eq!(out.packets.len(), 1);
    assert_eq!(out.packets[0].to, addr());
    assert_eq!(out.packets[0].packet, Packet::StatusRequest(StatusRequest::FastnetQuery));
    assert!(out.events.is_empty());
}

#[test]
fn test_not_listening() {
    let mut out = Outbox::new();
    let mut conn = Connection::new(addr(), uid(1), 0);
    conn.establish(Some(42), &mut out);
    let handled = conn.handle_incoming_packet(
        &Packet::StatusResponse(StatusResponse::FastnetResponse(false)),
        1,
        &mut out,
    );
    assert!(handled);
    assert_eq!(
        out.events,
        vec![HandlerEvent::RequestFailed { request_id: 42, error: FastnetError::NotListening }]
    );
    assert!(matches!(conn.state, ConnectionState::Closed));
    // no further emissions beyond the initial query
    assert_eq!(out.packets.len(), 1);
}

#[test]
fn test_incompatible_versions() {
    let mut out = Outbox::new();
    let mut conn = Connection::new(addr(), uid(1), 0);
    conn.establish(Some(42), &mut out);
    conn.handle_incoming_packet(
        &Packet::StatusResponse(StatusResponse::FastnetResponse(true)),
        1,
        &mut out,
    );
    conn.handle_incoming_packet(
        &Packet::StatusResponse(StatusResponse::VersionResponse(b"2.0".to_vec())),
        2,
        &mut out,
    );
    assert_eq!(
        out.events,
        vec![HandlerEvent::RequestFailed {
            request_id: 42,
            error: FastnetError::IncompatibleVersions,
        }]
    );
    assert!(matches!(conn.state, ConnectionState::Closed));
}

#[test]
fn test_status_timeout() {
    let mut out = Outbox::new();
    let mut conn = Connection::new(addr(), uid(1), 0);
    conn.establish(Some(42), &mut out);
    for tick in 0..11u64 {
        assert!(!matches!(conn.state, ConnectionState::Closed));
        conn.tick200(tick, &mut out);
    }
    assert!(matches!(conn.state, ConnectionState::Closed));
    assert_eq!(
        out.events,
        vec![HandlerEvent::RequestFailed { request_id: 42, error: FastnetError::TimedOut }]
    );
    // the initial query plus ten retransmissions
    assert_eq!(out.packets.len(), 11);
    for emission in &out.packets {
        assert_eq!(emission.packet, Packet::StatusRequest(StatusRequest::FastnetQuery));
    }
}

#[test]
fn test_connect_timeout() {
    let mut out = Outbox::new();
    let mut conn = Connection::new(addr(), uid(1), 0);
    conn.establish(Some(42), &mut out);
    conn.handle_incoming_packet(
        &Packet::StatusResponse(StatusResponse::FastnetResponse(true)),
        1,
        &mut out,
    );
    conn.handle_incoming_packet(&version_ok(), 2, &mut out);
    // both flags hold; every connected packet is dropped by the network
    for tick in 0..26u64 {
        assert!(!matches!(conn.state, ConnectionState::Closed));
        conn.tick200(tick, &mut out);
    }
    assert!(matches!(conn.state, ConnectionState::Closed));
    assert_eq!(
        out.events,
        vec![HandlerEvent::RequestFailed { request_id: 42, error: FastnetError::TimedOut }]
    );
}

#[test]
fn test_handshake_progression() {
    let mut out = Outbox::new();
    let mut conn = Connection::new(addr(), uid(1), 0);
    conn.establish(Some(42), &mut out);
    conn.handle_incoming_packet(
        &Packet::StatusResponse(StatusResponse::FastnetResponse(true)),
        1,
        &mut out,
    );
    assert_eq!(out.packets.len(), 2);
    assert_eq!(out.packets[1].packet, Packet::StatusRequest(StatusRequest::VersionQuery));
    conn.handle_incoming_packet(&version_ok(), 2, &mut out);
    assert_eq!(out.packets.len(), 3);
    assert_eq!(out.packets[2].packet, Packet::Connect(uid(1)));
    assert!(out.events.is_empty());
    conn.handle_incoming_packet(&Packet::Connected(uid(1)), 3, &mut out);
    assert!(matches!(conn.state, ConnectionState::Established));
    assert_eq!(
        out.events,
        vec![HandlerEvent::Connected { connection_id: uid(1), request_id: Some(42) }]
    );
    // the counters restart at the moment of establishment
    assert_eq!(conn.sent_packets, 0);
    assert_eq!(conn.received_packets, 0);
    // and no packet beyond the connect request went out
    assert_eq!(out.packets.len(), 3);
}

#[test]
fn test_connected_with_wrong_id_is_dropped() {
    let mut out = Outbox::new();
    let mut conn = Connection::new(addr(), uid(1), 0);
    conn.establish(Some(42), &mut out);
    conn.handle_incoming_packet(
        &Packet::StatusResponse(StatusResponse::FastnetResponse(true)),
        1,
        &mut out,
    );
    conn.handle_incoming_packet(&version_ok(), 2, &mut out);
    conn.handle_incoming_packet(&Packet::Connected(uid(99)), 3, &mut out);
    assert!(matches!(conn.state, ConnectionState::Establishing { .. }));
    assert!(out.events.is_empty());
}

#[test]
fn test_aborted_during_handshake() {
    let mut out = Outbox::new();
    let mut conn = Connection::new(addr(), uid(1), 0);
    conn.establish(Some(42), &mut out);
    conn.handle_incoming_packet(
        &Packet::StatusResponse(StatusResponse::FastnetResponse(true)),
        1,
        &mut out,
    );
    conn.handle_incoming_packet(&version_ok(), 2, &mut out);
    conn.handle_incoming_packet(&Packet::Aborted(b"go away".to_vec()), 3, &mut out);
    assert!(matches!(conn.state, ConnectionState::Closed));
    assert_eq!(
        out.events,
        vec![HandlerEvent::RequestFailed {
            request_id: 42,
            error: FastnetError::ConnectionAborted,
        }]
    );
}

#[test]
fn test_aborted_while_established_is_ignored() {
    let mut out = Outbox::new();
    let mut conn = Connection::from_connection_request(addr(), uid(1), 0);
    conn.handle_incoming_packet(&Packet::Aborted(b"go away".to_vec()), 3, &mut out);
    assert!(matches!(conn.state, ConnectionState::Established));
    assert!(out.events.is_empty());
}

#[test]
fn test_own_echo_is_absorbed() {
    let mut out = Outbox::new();
    let mut conn = Connection::from_connection_request(addr(), uid(7), 0);
    let probe = uid(9);
    let handled = conn.handle_incoming_packet(
        &Packet::Echo { endpoint: conn.endpoint_id, uuid: probe },
        5,
        &mut out,
    );
    assert!(handled);
    // our own probe returning: nothing goes back on the wire
    assert!(out.packets.is_empty());
}

#[test]
fn test_foreign_echo_is_replayed() {
    let mut out = Outbox::new();
    let mut conn = Connection::from_connection_request(addr(), uid(7), 0);
    let foreign = Uuid { hi: conn.endpoint_id.hi ^ 1, lo: conn.endpoint_id.lo };
    let packet = Packet::Echo { endpoint: foreign, uuid: uid(9) };
    conn.handle_incoming_packet(&packet, 5, &mut out);
    assert_eq!(out.packets.len(), 1);
    assert_eq!(out.packets[0].packet, packet);
    assert_eq!(out.packets[0].to, addr());
}

#[test]
fn test_heartbeat_cadence() {
    let mut out = Outbox::new();
    let mut conn = Connection::from_connection_request(addr(), uid(7), 0);
    for _ in 0..3 {
        conn.tick1000(&mut out);
    }
    assert_eq!(out.packets.len(), 3);
    for (i, emission) in out.packets.iter().enumerate() {
        match &emission.packet {
            Packet::Heartbeat { counter, sent, received } => {
                assert_eq!(*counter, i as u64);
                assert_eq!(*sent, i as u64);
                assert_eq!(*received, 0);
            },
            other => panic!("expected a heartbeat, got {:?}", other),
        }
    }
}

#[test]
fn test_no_heartbeat_before_establishment() {
    let mut out = Outbox::new();
    let mut conn = Connection::new(addr(), uid(1), 0);
    conn.establish(Some(42), &mut out);
    let sent_before = out.packets.len();
    conn.tick1000(&mut out);
    assert_eq!(out.packets.len(), sent_before);
}

#[test]
fn test_roundtrip_estimate_from_returning_probe() {
    let mut out = Outbox::new();
    let mut conn = Connection::from_connection_request(addr(), uid(7), 0);
    conn.tick200(10, &mut out);
    assert_eq!(out.packets.len(), 1);
    let probe = match &out.packets[0].packet {
        Packet::Echo { endpoint, uuid } => {
            assert_eq!(*endpoint, conn.endpoint_id);
            *uuid
        },
        other => panic!("expected an echo probe, got {:?}", other),
    };
    conn.handle_incoming_packet(
        &Packet::Echo { endpoint: conn.endpoint_id, uuid: probe },
        50,
        &mut out,
    );
    assert_eq!(conn.roundtrip_estimator.estimate(), Some(40));
}

#[test]
fn test_reliable_data_is_acked_once() {
    let mut out = Outbox::new();
    let mut conn = Connection::from_connection_request(addr(), uid(7), 0);
    let data = Packet::Data {
        chan: 5,
        packet: DataPacket { sequence_number: 1, flags: 1, payload: vec![5, 10], header: None },
    };
    conn.handle_incoming_packet(&data, 1, &mut out);
    // a duplicate does not enqueue a second ack
    conn.handle_incoming_packet(&data, 2, &mut out);
    assert_eq!(conn.ack_manager.pending_acks.len(), 1);
    // both deliveries surfaced
    assert_eq!(out.events.len(), 2);
    match &out.events[0] {
        HandlerEvent::Deliver { connection_id, chan, payload, flags, header } => {
            assert_eq!(*connection_id, uid(7));
            assert_eq!(*chan, 5);
            assert_eq!(payload, &vec![5u8, 10]);
            assert_eq!(*flags, 1);
            assert!(header.is_none());
        },
        other => panic!("expected a delivery, got {:?}", other),
    }
    conn.tick200(3, &mut out);
    // the fast tick emits the probe and then flushes the single pending ack
    let ack = &out.packets[out.packets.len() - 1];
    assert_eq!(ack.packet, Packet::Ack { chan: 5, sequence_number: 1 });
    assert!(conn.ack_manager.pending_acks.is_empty());
    // a second tick emits no further ack
    let len_after = out.packets.len();
    conn.tick200(4, &mut out);
    assert_eq!(out.packets.len(), len_after + 1); // only the next echo probe
}

#[test]
fn test_send_data_tracks_outstanding_until_acked() {
    let mut out = Outbox::new();
    let mut conn = Connection::from_connection_request(addr(), uid(7), 0);
    let sent = conn.send_data(5, 1, 1, vec![9, 9], &mut out);
    assert!(sent);
    assert_eq!(conn.ack_manager.outstanding_acks.len(), 1);
    conn.handle_incoming_packet(&Packet::Ack { chan: 5, sequence_number: 1 }, 1, &mut out);
    assert!(conn.ack_manager.outstanding_acks.is_empty());
}

#[test]
fn test_send_data_refuses_reserved_channel() {
    let mut out = Outbox::new();
    let mut conn = Connection::from_connection_request(addr(), uid(7), 0);
    assert!(!conn.send_data(0xfffd, 1, 0, vec![], &mut out));
    assert!(out.packets.is_empty());
}
