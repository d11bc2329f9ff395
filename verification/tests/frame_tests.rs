use fastnet::frame::{unwrap_datagram, wrap_datagram};

#[test]
fn test_checksum_known_value() {
    // the CRC32-Castagnoli check value for "123456789"
    let body = b"123456789";
    let datagram = wrap_datagram(body);
    assert_eq!(&datagram[..4], &[0xe3u8, 0x06, 0x92, 0x83]);
    assert_eq!(&datagram[4..], body);
}

#[test]
fn test_wrap_then_unwrap() {
    let body = vec![1u8, 2, 3, 4, 5];
    let datagram = wrap_datagram(&body);
    assert_eq!(datagram.len(), body.len() + 4);
    let recovered = unwrap_datagram(&datagram).unwrap();
    assert_eq!(recovered, body.as_slice());
}

#[test]
fn test_single_bit_flip_is_rejected() {
    let body = vec![0u8, 5, 1, 0, 0, 0, 0, 0, 0, 0, 1];
    let good = wrap_datagram(&body);
    assert!(unwrap_datagram(&good).is_some());
    // flipping any single bit outside the checksum field causes rejection
    for byte in 4..good.len() {
        for bit in 0..8 {
            let mut corrupted = good.clone();
            corrupted[byte] ^= 1u8 << bit;
            assert!(unwrap_datagram(&corrupted).is_none());
        }
    }
}

#[test]
fn test_short_datagram_is_rejected() {
    assert!(unwrap_datagram(&[]).is_none());
    assert!(unwrap_datagram(&[1u8, 2, 3]).is_none());
}

#[test]
fn test_empty_body_round_trips() {
    let datagram = wrap_datagram(&[]);
    assert_eq!(datagram.len(), 4);
    let recovered = unwrap_datagram(&datagram).unwrap();
    assert!(recovered.is_empty());
}
