use fastnet::codec::{decode_packet, encode_packet};
use fastnet::packets::{
    DataPacket, FrameHeader, Packet, PacketDecodingError, PacketEncodingError, StatusRequest,
    StatusResponse, Uuid,
};

fn test_uuid() -> Uuid {
    // 2d83369c-c226-4a37-9797-3206f5b9502f
    Uuid { hi: 0x2d83369c_c226_4a37, lo: 0x9797_3206_f5b9_502f }
}

fn uuid_bytes() -> Vec<u8> {
    vec![
        0x2d, 0x83, 0x36, 0x9c, 0xc2, 0x26, 0x4a, 0x37, 0x97, 0x97, 0x32, 0x06, 0xf5, 0xb9, 0x50,
        0x2f,
    ]
}

fn assert_encodes_to(p: &Packet, expected: &[u8]) {
    let encoded = encode_packet(p).unwrap();
    assert_eq!(encoded.as_slice(), expected);
    // the decoder consumes the whole encoding and yields the packet back
    let decoded = decode_packet(&encoded).unwrap();
    assert_eq!(&decoded, p);
}

#[test]
fn test_encode_connect_packet() {
    let mut expected = vec![255u8, 255, 2];
    expected.extend_from_slice(&uuid_bytes());
    assert_encodes_to(&Packet::Connect(test_uuid()), &expected);
}

#[test]
fn test_encode_connected_packet() {
    let mut expected = vec![255u8, 255, 3];
    expected.extend_from_slice(&uuid_bytes());
    assert_encodes_to(&Packet::Connected(test_uuid()), &expected);
}

#[test]
fn test_encode_heartbeat_packet() {
    let expected = vec![
        255u8, 254, 0, 0, 0, 0, 0, 0, 0, 5, 0, 0, 0, 0, 0, 0, 0, 10, 0, 0, 0, 0, 0, 0, 0, 15,
    ];
    assert_encodes_to(&Packet::Heartbeat { counter: 5, sent: 10, received: 15 }, &expected);
}

#[test]
fn test_encode_echo_packet() {
    let mut expected = vec![255u8, 253];
    expected.extend_from_slice(&uuid_bytes());
    expected.extend_from_slice(&uuid_bytes());
    assert_encodes_to(&Packet::Echo { endpoint: test_uuid(), uuid: test_uuid() }, &expected);
}

#[test]
fn test_encode_data_packet() {
    // flags 0x02: start-of-frame, unreliable, no frame header declared
    let expected = vec![0u8, 5, 0, 0, 0, 0, 0, 0, 0, 0, 1, 2, 5, 10];
    assert_encodes_to(
        &Packet::Data {
            chan: 5,
            packet: DataPacket {
                sequence_number: 1,
                flags: 2,
                payload: vec![5, 10],
                header: None,
            },
        },
        &expected,
    );
}

#[test]
fn test_data_flags_must_declare_header() {
    // flag bit 2 promises a frame header; a packet without one is refused,
    // and on the wire the declared-but-absent header is invalid
    assert_eq!(
        encode_packet(&Packet::Data {
            chan: 5,
            packet: DataPacket { sequence_number: 1, flags: 6, payload: vec![5, 10], header: None },
        }),
        Err(PacketEncodingError::Invalid)
    );
}

#[test]
fn test_encode_data_packet_with_header() {
    let expected = vec![
        0u8, 5, 0, //
        0, 0, 0, 0, 0, 0, 0, 1, //
        7, //
        0, 0, 0, 0, 0, 0, 0, 5, //
        0, 0, 0, 5, //
        5, 10,
    ];
    assert_encodes_to(
        &Packet::Data {
            chan: 5,
            packet: DataPacket {
                sequence_number: 1,
                flags: 7,
                payload: vec![5, 10],
                header: Some(FrameHeader { last_reliable_frame: 5, length: 5 }),
            },
        },
        &expected,
    );
}

#[test]
fn test_encode_ack_packet() {
    let expected = vec![0u8, 5, 1, 0, 0, 0, 0, 0, 0, 0, 1];
    assert_encodes_to(&Packet::Ack { chan: 5, sequence_number: 1 }, &expected);
}

#[test]
fn test_encode_status_request_packet() {
    assert_encodes_to(
        &Packet::StatusRequest(StatusRequest::FastnetQuery),
        &[255u8, 255, 0, 0],
    );
    assert_encodes_to(
        &Packet::StatusRequest(StatusRequest::VersionQuery),
        &[255u8, 255, 0, 1],
    );
    let mut expected = vec![255u8, 255, 0, 2];
    expected.extend_from_slice(b"test_atest");
    expected.push(0);
    assert_encodes_to(
        &Packet::StatusRequest(StatusRequest::ExtensionQuery(b"test_atest".to_vec())),
        &expected,
    );
}

#[test]
fn test_encode_status_response_packet() {
    assert_encodes_to(
        &Packet::StatusResponse(StatusResponse::FastnetResponse(true)),
        &[255u8, 255, 1, 0, 1],
    );
    let mut expected = vec![255u8, 255, 1, 1];
    expected.extend_from_slice(b"1.0");
    expected.push(0);
    assert_encodes_to(
        &Packet::StatusResponse(StatusResponse::VersionResponse(b"1.0".to_vec())),
        &expected,
    );
    let mut expected = vec![255u8, 255, 1, 2];
    expected.extend_from_slice(b"test_atest");
    expected.push(0);
    expected.push(1);
    assert_encodes_to(
        &Packet::StatusResponse(StatusResponse::ExtensionResponse {
            name: b"test_atest".to_vec(),
            supported: true,
        }),
        &expected,
    );
}

#[test]
fn test_encode_aborted_packet() {
    let mut expected = vec![255u8, 255, 4];
    expected.extend_from_slice(b"fail");
    expected.push(0);
    assert_encodes_to(&Packet::Aborted(b"fail".to_vec()), &expected);
}

#[test]
fn test_decode_status_request_with_extension() {
    let mut data = vec![255u8, 255, 0, 2];
    data.extend_from_slice(b"a_b");
    data.push(0);
    let p = decode_packet(&data).unwrap();
    assert_eq!(p, Packet::StatusRequest(StatusRequest::ExtensionQuery(b"a_b".to_vec())));
}

#[test]
fn test_decode_rejects_unknown_control_subtype() {
    assert_eq!(
        decode_packet(&[255u8, 255, 9, 0]),
        Err(PacketDecodingError::Invalid)
    );
}

#[test]
fn test_decode_rejects_truncated_packet() {
    assert_eq!(decode_packet(&[255u8, 255]), Err(PacketDecodingError::UnexpectedEnd));
    // a heartbeat whose counters are cut short
    assert_eq!(
        decode_packet(&[255u8, 254, 0, 0, 1]),
        Err(PacketDecodingError::UnexpectedEnd)
    );
    // an unterminated abort message runs out of buffer
    assert_eq!(
        decode_packet(&[255u8, 255, 4, b'e', b'r', b'r']),
        Err(PacketDecodingError::UnexpectedEnd)
    );
}

#[test]
fn test_decode_rejects_trailing_bytes() {
    // a fastnet query followed by an extra byte
    assert_eq!(
        decode_packet(&[255u8, 255, 0, 0, 0]),
        Err(PacketDecodingError::Invalid)
    );
    // an ack with one byte too many
    assert_eq!(
        decode_packet(&[0u8, 5, 1, 0, 0, 0, 0, 0, 0, 0, 1, 9]),
        Err(PacketDecodingError::Invalid)
    );
}

#[test]
fn test_decode_rejects_reserved_flag_bits() {
    assert_eq!(
        decode_packet(&[0u8, 5, 0, 0, 0, 0, 0, 0, 0, 0, 1, 0x10, 5, 10]),
        Err(PacketDecodingError::Invalid)
    );
}

#[test]
fn test_decode_rejects_missing_frame_header() {
    // flags declare a frame header but fewer than twelve bytes follow
    assert_eq!(
        decode_packet(&[0u8, 5, 0, 0, 0, 0, 0, 0, 0, 0, 1, 7, 1, 2, 3]),
        Err(PacketDecodingError::Invalid)
    );
}

#[test]
fn test_decode_rejects_bad_bool() {
    assert_eq!(
        decode_packet(&[255u8, 255, 1, 0, 2]),
        Err(PacketDecodingError::Invalid)
    );
}

#[test]
fn test_decode_rejects_invalid_utf8_string() {
    assert_eq!(
        decode_packet(&[255u8, 255, 4, 0xff, 0xfe, 0]),
        Err(PacketDecodingError::Invalid)
    );
}

#[test]
fn test_encode_rejects_reserved_channel() {
    for chan in [0xfffdu16, 0xfffe, 0xffff] {
        assert_eq!(
            encode_packet(&Packet::Ack { chan, sequence_number: 1 }),
            Err(PacketEncodingError::Invalid)
        );
    }
}

#[test]
fn test_encode_rejects_nul_in_string() {
    assert_eq!(
        encode_packet(&Packet::Aborted(vec![b'a', 0, b'b'])),
        Err(PacketEncodingError::Invalid)
    );
}

#[test]
fn test_encode_rejects_header_flag_mismatch() {
    // flag bit set but no header carried
    assert_eq!(
        encode_packet(&Packet::Data {
            chan: 1,
            packet: DataPacket { sequence_number: 0, flags: 4, payload: vec![], header: None },
        }),
        Err(PacketEncodingError::Invalid)
    );
    // header carried but flag bit clear
    assert_eq!(
        encode_packet(&Packet::Data {
            chan: 1,
            packet: DataPacket {
                sequence_number: 0,
                flags: 0,
                payload: vec![],
                header: Some(FrameHeader { last_reliable_frame: 0, length: 0 }),
            },
        }),
        Err(PacketEncodingError::Invalid)
    );
}

#[test]
fn test_encode_rejects_oversized_packet() {
    let payload = vec![0u8; 1500];
    assert_eq!(
        encode_packet(&Packet::Data {
            chan: 1,
            packet: DataPacket { sequence_number: 0, flags: 0, payload, header: None },
        }),
        Err(PacketEncodingError::TooLarge)
    );
}

#[test]
fn test_round_trip_empty_payload() {
    let p = Packet::Data {
        chan: 0,
        packet: DataPacket { sequence_number: 7, flags: 1, payload: vec![], header: None },
    };
    let encoded = encode_packet(&p).unwrap();
    assert_eq!(decode_packet(&encoded).unwrap(), p);
}

#[test]
fn test_round_trip_largest_channel() {
    let p = Packet::Ack { chan: 0xfffc, sequence_number: u64::MAX };
    let encoded = encode_packet(&p).unwrap();
    assert_eq!(decode_packet(&encoded).unwrap(), p);
}
