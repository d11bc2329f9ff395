//! The wire codec: a mathematical encoder and decoder for the packet family,
//! executable functions proved to match them, and the round-trip law.
//!
//! Wire layout, after the 4-byte checksum prefix handled by the framing:
//! control packets begin `FF FF` and a subtype byte; heartbeats begin `FF FE`;
//! echoes begin `FF FD`; data and acks begin with a big-endian channel number
//! (which therefore can use at most `MAX_CHANNEL`) and a specifier byte.

use vstd::prelude::*;
use vstd::slice::{slice_subrange, slice_to_vec};
use vstd::utf8::valid_utf8;

use crate::packets::{
    DataPacket, DataPacketV, FrameHeader, Packet, PacketDecodingError, PacketEncodingError,
    PacketV, StatusRequest, StatusRequestV, StatusResponse, StatusResponseV, Uuid,
    FLAG_HAS_FRAME_HEADER, FLAG_RESERVED_MASK,
};
use crate::wire::{
    read_u16_be, read_u32_be, read_u64_be, spec_u16_from_be_bytes, spec_u16_to_be_bytes,
    spec_u32_from_be_bytes, spec_u32_to_be_bytes, spec_u64_from_be_bytes, spec_u64_to_be_bytes,
    write_bytes, write_u16_be, write_u32_be, write_u64_be, lemma_u16_be_bytes_round_trip,
    lemma_u32_be_bytes_round_trip, lemma_u64_be_bytes_round_trip,
};
use crate::MAX_CHANNEL;

verus! {

/// A datagram is at most 1000 bytes; 4 are spent on the checksum prefix.
pub const MAX_ENCODED_PACKET_LEN: usize = 996;

pub open spec fn spec_uuid_to_bytes(u: Uuid) -> Seq<u8> {
    spec_u64_to_be_bytes(u.hi) + spec_u64_to_be_bytes(u.lo)
}

pub open spec fn spec_uuid_from_bytes(s: Seq<u8>) -> Uuid
    recommends
        s.len() == 16,
{
    Uuid {
        hi: spec_u64_from_be_bytes(s.subrange(0, 8)),
        lo: spec_u64_from_be_bytes(s.subrange(8, 16)),
    }
}

pub open spec fn spec_encode_bool(b: bool) -> Seq<u8> {
    seq![if b { 1u8 } else { 0u8 }]
}

pub open spec fn spec_encode_status_request(r: StatusRequestV) -> Seq<u8> {
    match r {
        StatusRequestV::FastnetQuery => seq![0u8],
        StatusRequestV::VersionQuery => seq![1u8],
        StatusRequestV::ExtensionQuery(name) => seq![2u8] + name + seq![0u8],
    }
}

pub open spec fn spec_encode_status_response(r: StatusResponseV) -> Seq<u8> {
    match r {
        StatusResponseV::FastnetResponse(listening) => seq![0u8] + spec_encode_bool(listening),
        StatusResponseV::VersionResponse(version) => seq![1u8] + version + seq![0u8],
        StatusResponseV::ExtensionResponse { name, supported } => seq![2u8] + name + seq![0u8]
            + spec_encode_bool(supported),
    }
}

pub open spec fn spec_encode_data_packet(p: DataPacketV) -> Seq<u8> {
    spec_u64_to_be_bytes(p.sequence_number) + seq![p.flags] + (match p.header {
        Some(h) => spec_u64_to_be_bytes(h.last_reliable_frame) + spec_u32_to_be_bytes(h.length),
        None => Seq::<u8>::empty(),
    }) + p.payload
}

pub open spec fn spec_encode_packet(p: PacketV) -> Seq<u8> {
    match p {
        PacketV::StatusRequest(r) => seq![0xffu8, 0xffu8, 0x00u8] + spec_encode_status_request(r),
        PacketV::StatusResponse(r) => seq![0xffu8, 0xffu8, 0x01u8] + spec_encode_status_response(
            r,
        ),
        PacketV::Connect(u) => seq![0xffu8, 0xffu8, 0x02u8] + spec_uuid_to_bytes(u),
        PacketV::Connected(u) => seq![0xffu8, 0xffu8, 0x03u8] + spec_uuid_to_bytes(u),
        PacketV::Aborted(message) => seq![0xffu8, 0xffu8, 0x04u8] + message + seq![0u8],
        PacketV::Heartbeat { counter, sent, received } => seq![0xffu8, 0xfeu8]
            + spec_u64_to_be_bytes(counter) + spec_u64_to_be_bytes(sent) + spec_u64_to_be_bytes(
            received,
        ),
        PacketV::Echo { endpoint, uuid } => seq![0xffu8, 0xfdu8] + spec_uuid_to_bytes(endpoint)
            + spec_uuid_to_bytes(uuid),
        PacketV::Data { chan, packet } => spec_u16_to_be_bytes(chan) + seq![0u8]
            + spec_encode_data_packet(packet),
        PacketV::Ack { chan, sequence_number } => spec_u16_to_be_bytes(chan) + seq![1u8]
            + spec_u64_to_be_bytes(sequence_number),
    }
}

/// A protocol string goes on the wire NUL-terminated, so it must hold no NUL
/// byte, and it must be valid UTF-8.
pub open spec fn wf_string(s: Seq<u8>) -> bool {
    &&& forall|i: int| 0 <= i < s.len() ==> s[i] != 0
    &&& valid_utf8(s)
}

pub open spec fn wf_data_packet(p: DataPacketV) -> bool {
    &&& p.flags & FLAG_RESERVED_MASK == 0
    &&& (p.flags & FLAG_HAS_FRAME_HEADER != 0 <==> p.header is Some)
}

/// A packet that the encoder accepts: its strings can be NUL-terminated, its
/// channel stays clear of the reserved discriminators, and its flags byte is
/// consistent with the frame header it carries.
pub open spec fn wf_packet(p: PacketV) -> bool {
    match p {
        PacketV::StatusRequest(r) => match r {
            StatusRequestV::ExtensionQuery(name) => wf_string(name),
            _ => true,
        },
        PacketV::StatusResponse(r) => match r {
            StatusResponseV::VersionResponse(version) => wf_string(version),
            StatusResponseV::ExtensionResponse { name, .. } => wf_string(name),
            _ => true,
        },
        PacketV::Aborted(message) => wf_string(message),
        PacketV::Data { chan, packet } => chan <= MAX_CHANNEL && wf_data_packet(packet),
        PacketV::Ack { chan, .. } => chan <= MAX_CHANNEL,
        _ => true,
    }
}

/// Index of the first NUL byte of `s`, if any.
pub open spec fn find_nul(s: Seq<u8>) -> Option<nat>
    decreases s.len(),
{
    if s.len() == 0 {
        None
    } else if s[0] == 0 {
        Some(0nat)
    } else {
        match find_nul(s.skip(1)) {
            Some(i) => Some((i + 1) as nat),
            None => None,
        }
    }
}

/// What `find_nul` returns: the first index holding a NUL, or the guarantee
/// that there is none.
pub proof fn lemma_find_nul(s: Seq<u8>)
    ensures
        match find_nul(s) {
            Some(i) => i < s.len() && s[i as int] == 0 && (forall|j: int|
                0 <= j < i ==> s[j] != 0),
            None => forall|j: int| 0 <= j < s.len() ==> s[j] != 0,
        },
    decreases s.len(),
{
    if s.len() != 0 && s[0] != 0 {
        lemma_find_nul(s.skip(1));
        match find_nul(s.skip(1)) {
            Some(i) => {
                assert(s[i + 1int] == s.skip(1)[i as int]);
                assert(forall|j: int| 1 <= j < i + 1 ==> s[j] == s.skip(1)[j - 1]);
            },
            None => {
                assert(forall|j: int| 1 <= j < s.len() ==> s[j] == s.skip(1)[j - 1]);
            },
        }
    }
}

/// In `s + [0] + rest`, where `s` holds no NUL, the first NUL sits right
/// after `s`.
pub proof fn lemma_find_nul_of_terminated(s: Seq<u8>, rest: Seq<u8>)
    requires
        forall|i: int| 0 <= i < s.len() ==> s[i] != 0,
    ensures
        find_nul(s + seq![0u8] + rest) == Some(s.len()),
{
    let t = s + seq![0u8] + rest;
    lemma_find_nul(t);
    assert(t[s.len() as int] == 0);
    match find_nul(t) {
        Some(i) => {
            if i < s.len() {
                assert(t[i as int] == s[i as int]);
            }
            if i > s.len() {
                assert(t[s.len() as int] != 0);
            }
        },
        None => {
            assert(t[s.len() as int] != 0);
        },
    }
}

/// Decodes a NUL-terminated string that must fill `d` exactly.
pub open spec fn spec_decode_cstring_all(d: Seq<u8>) -> Result<Seq<u8>, PacketDecodingError> {
    match find_nul(d) {
        Some(i) => if i + 1 == d.len() {
            if valid_utf8(d.take(i as int)) {
                Ok(d.take(i as int))
            } else {
                Err(PacketDecodingError::Invalid)
            }
        } else {
            Err(PacketDecodingError::Invalid)
        },
        None => Err(PacketDecodingError::UnexpectedEnd),
    }
}

pub open spec fn spec_decode_bool(b: u8) -> Result<bool, PacketDecodingError> {
    if b == 0 {
        Ok(false)
    } else if b == 1 {
        Ok(true)
    } else {
        Err(PacketDecodingError::Invalid)
    }
}

pub open spec fn spec_decode_status_request(d: Seq<u8>) -> Result<
    StatusRequestV,
    PacketDecodingError,
> {
    if d.len() < 1 {
        Err(PacketDecodingError::UnexpectedEnd)
    } else if d[0] == 0 {
        if d.len() == 1 {
            Ok(StatusRequestV::FastnetQuery)
        } else {
            Err(PacketDecodingError::Invalid)
        }
    } else if d[0] == 1 {
        if d.len() == 1 {
            Ok(StatusRequestV::VersionQuery)
        } else {
            Err(PacketDecodingError::Invalid)
        }
    } else if d[0] == 2 {
        match spec_decode_cstring_all(d.skip(1)) {
            Ok(name) => Ok(StatusRequestV::ExtensionQuery(name)),
            Err(e) => Err(e),
        }
    } else {
        Err(PacketDecodingError::Invalid)
    }
}

pub open spec fn spec_decode_status_response(d: Seq<u8>) -> Result<
    StatusResponseV,
    PacketDecodingError,
> {
    if d.len() < 1 {
        Err(PacketDecodingError::UnexpectedEnd)
    } else if d[0] == 0 {
        if d.len() < 2 {
            Err(PacketDecodingError::UnexpectedEnd)
        } else if d.len() > 2 {
            Err(PacketDecodingError::Invalid)
        } else {
            match spec_decode_bool(d[1]) {
                Ok(b) => Ok(StatusResponseV::FastnetResponse(b)),
                Err(e) => Err(e),
            }
        }
    } else if d[0] == 1 {
        match spec_decode_cstring_all(d.skip(1)) {
            Ok(version) => Ok(StatusResponseV::VersionResponse(version)),
            Err(e) => Err(e),
        }
    } else if d[0] == 2 {
        let t = d.skip(1);
        match find_nul(t) {
            Some(i) => if i + 2 == t.len() {
                if valid_utf8(t.take(i as int)) {
                    match spec_decode_bool(t[i + 1int]) {
                        Ok(b) => Ok(
                            StatusResponseV::ExtensionResponse {
                                name: t.take(i as int),
                                supported: b,
                            },
                        ),
                        Err(e) => Err(e),
                    }
                } else {
                    Err(PacketDecodingError::Invalid)
                }
            } else if i + 2 < t.len() {
                Err(PacketDecodingError::Invalid)
            } else {
                Err(PacketDecodingError::UnexpectedEnd)
            },
            None => Err(PacketDecodingError::UnexpectedEnd),
        }
    } else {
        Err(PacketDecodingError::Invalid)
    }
}

pub open spec fn spec_decode_packet(d: Seq<u8>) -> Result<PacketV, PacketDecodingError> {
    if d.len() < 3 {
        Err(PacketDecodingError::UnexpectedEnd)
    } else if d[0] == 0xff && d[1] == 0xff {
        let rest = d.skip(3);
        if d[2] == 0 {
            match spec_decode_status_request(rest) {
                Ok(r) => Ok(PacketV::StatusRequest(r)),
                Err(e) => Err(e),
            }
        } else if d[2] == 1 {
            match spec_decode_status_response(rest) {
                Ok(r) => Ok(PacketV::StatusResponse(r)),
                Err(e) => Err(e),
            }
        } else if d[2] == 2 {
            if rest.len() < 16 {
                Err(PacketDecodingError::UnexpectedEnd)
            } else if rest.len() > 16 {
                Err(PacketDecodingError::Invalid)
            } else {
                Ok(PacketV::Connect(spec_uuid_from_bytes(rest)))
            }
        } else if d[2] == 3 {
            if rest.len() < 16 {
                Err(PacketDecodingError::UnexpectedEnd)
            } else if rest.len() > 16 {
                Err(PacketDecodingError::Invalid)
            } else {
                Ok(PacketV::Connected(spec_uuid_from_bytes(rest)))
            }
        } else if d[2] == 4 {
            match spec_decode_cstring_all(rest) {
                Ok(message) => Ok(PacketV::Aborted(message)),
                Err(e) => Err(e),
            }
        } else {
            Err(PacketDecodingError::Invalid)
        }
    } else if d[0] == 0xff && d[1] == 0xfe {
        let rest = d.skip(2);
        if rest.len() < 24 {
            Err(PacketDecodingError::UnexpectedEnd)
        } else if rest.len() > 24 {
            Err(PacketDecodingError::Invalid)
        } else {
            Ok(
                PacketV::Heartbeat {
                    counter: spec_u64_from_be_bytes(rest.subrange(0, 8)),
                    sent: spec_u64_from_be_bytes(rest.subrange(8, 16)),
                    received: spec_u64_from_be_bytes(rest.subrange(16, 24)),
                },
            )
        }
    } else if d[0] == 0xff && d[1] == 0xfd {
        let rest = d.skip(2);
        if rest.len() < 32 {
            Err(PacketDecodingError::UnexpectedEnd)
        } else if rest.len() > 32 {
            Err(PacketDecodingError::Invalid)
        } else {
            Ok(
                PacketV::Echo {
                    endpoint: spec_uuid_from_bytes(rest.subrange(0, 16)),
                    uuid: spec_uuid_from_bytes(rest.subrange(16, 32)),
                },
            )
        }
    } else {
        let chan = spec_u16_from_be_bytes(d.subrange(0, 2));
        let rest = d.skip(3);
        if d[2] == 0 {
            if rest.len() < 9 {
                Err(PacketDecodingError::UnexpectedEnd)
            } else {
                let sequence_number = spec_u64_from_be_bytes(rest.subrange(0, 8));
                let flags = rest[8];
                if flags & FLAG_RESERVED_MASK != 0 {
                    Err(PacketDecodingError::Invalid)
                } else if flags & FLAG_HAS_FRAME_HEADER != 0 {
                    let body = rest.skip(9);
                    if body.len() < 12 {
                        Err(PacketDecodingError::Invalid)
                    } else {
                        Ok(
                            PacketV::Data {
                                chan,
                                packet: DataPacketV {
                                    sequence_number,
                                    flags,
                                    payload: body.skip(12),
                                    header: Some(
                                        FrameHeader {
                                            last_reliable_frame: spec_u64_from_be_bytes(
                                                body.subrange(0, 8),
                                            ),
                                            length: spec_u32_from_be_bytes(body.subrange(8, 12)),
                                        },
                                    ),
                                },
                            },
                        )
                    }
                } else {
                    Ok(
                        PacketV::Data {
                            chan,
                            packet: DataPacketV {
                                sequence_number,
                                flags,
                                payload: rest.skip(9),
                                header: None,
                            },
                        },
                    )
                }
            }
        } else if d[2] == 1 {
            if rest.len() < 8 {
                Err(PacketDecodingError::UnexpectedEnd)
            } else if rest.len() > 8 {
                Err(PacketDecodingError::Invalid)
            } else {
                Ok(
                    PacketV::Ack {
                        chan,
                        sequence_number: spec_u64_from_be_bytes(rest.subrange(0, 8)),
                    },
                )
            }
        } else {
            Err(PacketDecodingError::Invalid)
        }
    }
}

} // verus!

verus! {

/// Relies on `core::str::from_utf8`: it returns `Ok` exactly when the byte
/// slice is valid UTF-8.
#[verifier::external_body]
fn check_utf8(s: &[u8]) -> (r: bool)
    ensures
        r == valid_utf8(s@),
{
    core::str::from_utf8(s).is_ok()
}

/// Checks that a protocol string can go on the wire: no NUL byte, valid UTF-8.
pub fn is_wf_string(s: &[u8]) -> (r: bool)
    ensures
        r == wf_string(s@),
{
    let mut i: usize = 0;
    while i < s.len()
        invariant
            i <= s@.len(),
            forall|j: int| 0 <= j < i ==> s@[j] != 0,
        decreases s@.len() - i,
    {
        if s[i] == 0 {
            return false;
        }
        i = i + 1;
    }
    check_utf8(s)
}

fn write_uuid(buf: &mut Vec<u8>, u: &Uuid)
    ensures
        final(buf)@ == old(buf)@ + spec_uuid_to_bytes(*u),
{
    write_u64_be(buf, u.hi);
    write_u64_be(buf, u.lo);
    assert(buf@ =~= old(buf)@ + spec_uuid_to_bytes(*u));
}

/// Encodes a packet for the wire. Returns `Invalid` exactly when the packet
/// is not well formed, and `TooLarge` exactly when a well-formed packet's
/// encoding does not fit in a datagram after the checksum prefix.
pub fn encode_packet(p: &Packet) -> (r: Result<Vec<u8>, PacketEncodingError>)
    ensures
        match r {
            Ok(buf) => wf_packet(p@) && buf@ == spec_encode_packet(p@) && buf@.len()
                <= MAX_ENCODED_PACKET_LEN,
            Err(PacketEncodingError::Invalid) => !wf_packet(p@),
            Err(PacketEncodingError::TooLarge) => wf_packet(p@) && spec_encode_packet(p@).len()
                > MAX_ENCODED_PACKET_LEN,
        },
{
    let mut buf: Vec<u8> = Vec::new();
    match p {
        Packet::StatusRequest(req) => {
            buf.push(0xff);
            buf.push(0xff);
            buf.push(0x00);
            match req {
                StatusRequest::FastnetQuery => {
                    buf.push(0);
                },
                StatusRequest::VersionQuery => {
                    buf.push(1);
                },
                StatusRequest::ExtensionQuery(name) => {
                    if !is_wf_string(name.as_slice()) {
                        return Err(PacketEncodingError::Invalid);
                    }
                    buf.push(2);
                    write_bytes(&mut buf, name.as_slice());
                    buf.push(0);
                },
            }
            assert(buf@ =~= spec_encode_packet(p@));
        },
        Packet::StatusResponse(resp) => {
            buf.push(0xff);
            buf.push(0xff);
            buf.push(0x01);
            match resp {
                StatusResponse::FastnetResponse(listening) => {
                    buf.push(0);
                    buf.push(if *listening { 1 } else { 0 });
                },
                StatusResponse::VersionResponse(version) => {
                    if !is_wf_string(version.as_slice()) {
                        return Err(PacketEncodingError::Invalid);
                    }
                    buf.push(1);
                    write_bytes(&mut buf, version.as_slice());
                    buf.push(0);
                },
                StatusResponse::ExtensionResponse { name, supported } => {
                    if !is_wf_string(name.as_slice()) {
                        return Err(PacketEncodingError::Invalid);
                    }
                    buf.push(2);
                    write_bytes(&mut buf, name.as_slice());
                    buf.push(0);
                    buf.push(if *supported { 1 } else { 0 });
                },
            }
            assert(buf@ =~= spec_encode_packet(p@));
        },
        Packet::Connect(id) => {
            buf.push(0xff);
            buf.push(0xff);
            buf.push(0x02);
            write_uuid(&mut buf, id);
            assert(buf@ =~= spec_encode_packet(p@));
        },
        Packet::Connected(id) => {
            buf.push(0xff);
            buf.push(0xff);
            buf.push(0x03);
            write_uuid(&mut buf, id);
            assert(buf@ =~= spec_encode_packet(p@));
        },
        Packet::Aborted(message) => {
            if !is_wf_string(message.as_slice()) {
                return Err(PacketEncodingError::Invalid);
            }
            buf.push(0xff);
            buf.push(0xff);
            buf.push(0x04);
            write_bytes(&mut buf, message.as_slice());
            buf.push(0);
            assert(buf@ =~= spec_encode_packet(p@));
        },
        Packet::Heartbeat { counter, sent, received } => {
            buf.push(0xff);
            buf.push(0xfe);
            write_u64_be(&mut buf, *counter);
            write_u64_be(&mut buf, *sent);
            write_u64_be(&mut buf, *received);
            assert(buf@ =~= spec_encode_packet(p@));
        },
        Packet::Echo { endpoint, uuid } => {
            buf.push(0xff);
            buf.push(0xfd);
            write_uuid(&mut buf, endpoint);
            write_uuid(&mut buf, uuid);
            assert(buf@ =~= spec_encode_packet(p@));
        },
        Packet::Data { chan, packet } => {
            if *chan > MAX_CHANNEL {
                return Err(PacketEncodingError::Invalid);
            }
            if packet.flags & FLAG_RESERVED_MASK != 0 {
                return Err(PacketEncodingError::Invalid);
            }
            let has_header_flag = packet.flags & FLAG_HAS_FRAME_HEADER != 0;
            match &packet.header {
                Some(h) => {
                    if !has_header_flag {
                        return Err(PacketEncodingError::Invalid);
                    }
                    write_u16_be(&mut buf, *chan);
                    buf.push(0);
                    write_u64_be(&mut buf, packet.sequence_number);
                    buf.push(packet.flags);
                    write_u64_be(&mut buf, h.last_reliable_frame);
                    write_u32_be(&mut buf, h.length);
                    write_bytes(&mut buf, packet.payload.as_slice());
                },
                None => {
                    if has_header_flag {
                        return Err(PacketEncodingError::Invalid);
                    }
                    write_u16_be(&mut buf, *chan);
                    buf.push(0);
                    write_u64_be(&mut buf, packet.sequence_number);
                    buf.push(packet.flags);
                    write_bytes(&mut buf, packet.payload.as_slice());
                },
            }
            assert(buf@ =~= spec_encode_packet(p@));
        },
        Packet::Ack { chan, sequence_number } => {
            if *chan > MAX_CHANNEL {
                return Err(PacketEncodingError::Invalid);
            }
            write_u16_be(&mut buf, *chan);
            buf.push(1);
            write_u64_be(&mut buf, *sequence_number);
            assert(buf@ =~= spec_encode_packet(p@));
        },
    }
    if buf.len() > MAX_ENCODED_PACKET_LEN {
        Err(PacketEncodingError::TooLarge)
    } else {
        Ok(buf)
    }
}

} // verus!

verus! {

proof fn lemma_uuid_bytes_round_trip(u: Uuid)
    ensures
        spec_uuid_to_bytes(u).len() == 16,
        spec_uuid_from_bytes(spec_uuid_to_bytes(u)) == u,
{
    lemma_u64_be_bytes_round_trip(u.hi);
    lemma_u64_be_bytes_round_trip(u.lo);
    let b = spec_uuid_to_bytes(u);
    assert(b.subrange(0, 8) =~= spec_u64_to_be_bytes(u.hi));
    assert(b.subrange(8, 16) =~= spec_u64_to_be_bytes(u.lo));
}

proof fn lemma_cstring_round_trip(s: Seq<u8>)
    requires
        wf_string(s),
    ensures
        spec_decode_cstring_all(s + seq![0u8]) == Ok::<Seq<u8>, PacketDecodingError>(s),
{
    let t = s + seq![0u8];
    assert(t =~= s + seq![0u8] + Seq::<u8>::empty());
    lemma_find_nul_of_terminated(s, Seq::<u8>::empty());
    assert(t.take(s.len() as int) =~= s);
}

proof fn lemma_status_request_round_trip(r: StatusRequestV)
    requires
        wf_packet(PacketV::StatusRequest(r)),
    ensures
        spec_decode_status_request(spec_encode_status_request(r)) == Ok::<
            StatusRequestV,
            PacketDecodingError,
        >(r),
{
    match r {
        StatusRequestV::FastnetQuery => {},
        StatusRequestV::VersionQuery => {},
        StatusRequestV::ExtensionQuery(name) => {
            let body = spec_encode_status_request(r);
            assert(body[0] == 2);
            assert(body.skip(1) =~= name + seq![0u8]);
            lemma_cstring_round_trip(name);
        },
    }
}

proof fn lemma_status_response_round_trip(r: StatusResponseV)
    requires
        wf_packet(PacketV::StatusResponse(r)),
    ensures
        spec_decode_status_response(spec_encode_status_response(r)) == Ok::<
            StatusResponseV,
            PacketDecodingError,
        >(r),
{
    match r {
        StatusResponseV::FastnetResponse(b) => {
            let body = spec_encode_status_response(r);
            assert(body.len() == 2 && body[0] == 0 && body[1] == (if b {
                1u8
            } else {
                0u8
            }));
        },
        StatusResponseV::VersionResponse(version) => {
            let body = spec_encode_status_response(r);
            assert(body[0] == 1);
            assert(body.skip(1) =~= version + seq![0u8]);
            lemma_cstring_round_trip(version);
        },
        StatusResponseV::ExtensionResponse { name, supported } => {
            let body = spec_encode_status_response(r);
            assert(body[0] == 2);
            let t = body.skip(1);
            assert(t =~= name + seq![0u8] + spec_encode_bool(supported));
            lemma_find_nul_of_terminated(name, spec_encode_bool(supported));
            assert(t.take(name.len() as int) =~= name);
            assert(t[name.len() + 1int] == (if supported {
                1u8
            } else {
                0u8
            }));
        },
    }
}

/// A well-formed channel number never collides with the reserved control,
/// heartbeat and echo discriminators.
proof fn lemma_chan_bytes_not_reserved(chan: u16)
    requires
        chan <= MAX_CHANNEL,
    ensures
        !(((chan >> 8) & 0xff) as u8 == 0xff && ((chan & 0xff) as u8 == 0xff || (chan
            & 0xff) as u8 == 0xfe || (chan & 0xff) as u8 == 0xfd)),
{
    assert(chan <= 0xfffc ==> !(((chan >> 8) & 0xff) as u8 == 0xff && (((chan & 0xff) as u8 == 0xff)
        || ((chan & 0xff) as u8 == 0xfe) || ((chan & 0xff) as u8 == 0xfd)))) by (bit_vector);
}

/// The codec round-trip law: decoding the encoding of any well-formed packet
/// yields the packet back, with the whole encoding consumed.
#[verifier::rlimit(60)]
#[verifier::spinoff_prover]
pub proof fn lemma_codec_round_trip(p: PacketV)
    requires
        wf_packet(p),
    ensures
        spec_decode_packet(spec_encode_packet(p)) == Ok::<PacketV, PacketDecodingError>(p),
{
    let e = spec_encode_packet(p);
    match p {
        PacketV::StatusRequest(r) => {
            let body = spec_encode_status_request(r);
            assert(e[0] == 0xff && e[1] == 0xff && e[2] == 0);
            assert(e.skip(3) =~= body);
            lemma_status_request_round_trip(r);
        },
        PacketV::StatusResponse(r) => {
            let body = spec_encode_status_response(r);
            assert(e[0] == 0xff && e[1] == 0xff && e[2] == 1);
            assert(e.skip(3) =~= body);
            lemma_status_response_round_trip(r);
        },
        PacketV::Connect(u) => {
            assert(e[0] == 0xff && e[1] == 0xff && e[2] == 2);
            lemma_uuid_bytes_round_trip(u);
            assert(e.skip(3) =~= spec_uuid_to_bytes(u));
        },
        PacketV::Connected(u) => {
            assert(e[0] == 0xff && e[1] == 0xff && e[2] == 3);
            lemma_uuid_bytes_round_trip(u);
            assert(e.skip(3) =~= spec_uuid_to_bytes(u));
        },
        PacketV::Aborted(message) => {
            assert(e[0] == 0xff && e[1] == 0xff && e[2] == 4);
            assert(e.skip(3) =~= message + seq![0u8]);
            lemma_cstring_round_trip(message);
        },
        PacketV::Heartbeat { counter, sent, received } => {
            assert(e[0] == 0xff && e[1] == 0xfe);
            let rest = e.skip(2);
            lemma_u64_be_bytes_round_trip(counter);
            lemma_u64_be_bytes_round_trip(sent);
            lemma_u64_be_bytes_round_trip(received);
            assert(rest.len() == 24);
            assert(rest.subrange(0, 8) =~= spec_u64_to_be_bytes(counter));
            assert(rest.subrange(8, 16) =~= spec_u64_to_be_bytes(sent));
            assert(rest.subrange(16, 24) =~= spec_u64_to_be_bytes(received));
        },
        PacketV::Echo { endpoint, uuid } => {
            assert(e[0] == 0xff && e[1] == 0xfd);
            let rest = e.skip(2);
            lemma_uuid_bytes_round_trip(endpoint);
            lemma_uuid_bytes_round_trip(uuid);
            assert(rest.len() == 32);
            assert(rest.subrange(0, 16) =~= spec_uuid_to_bytes(endpoint));
            assert(rest.subrange(16, 32) =~= spec_uuid_to_bytes(uuid));
            assert(spec_uuid_from_bytes(rest.subrange(0, 16)) == endpoint);
            assert(spec_uuid_from_bytes(rest.subrange(16, 32)) == uuid);
        },
        PacketV::Data { chan, packet } => {
            let cb = spec_u16_to_be_bytes(chan);
            assert(e[0] == cb[0] && e[1] == cb[1]);
            lemma_chan_bytes_not_reserved(chan);
            lemma_u16_be_bytes_round_trip(chan);
            assert(e.subrange(0, 2) =~= cb);
            assert(e[2] == 0);
            let rest = e.skip(3);
            assert(rest =~= spec_encode_data_packet(packet));
            lemma_u64_be_bytes_round_trip(packet.sequence_number);
            assert(rest.subrange(0, 8) =~= spec_u64_to_be_bytes(packet.sequence_number));
            assert(rest[8] == packet.flags);
            match packet.header {
                Some(h) => {
                    let body = rest.skip(9);
                    assert(body =~= spec_u64_to_be_bytes(h.last_reliable_frame)
                        + spec_u32_to_be_bytes(h.length) + packet.payload);
                    lemma_u64_be_bytes_round_trip(h.last_reliable_frame);
                    lemma_u32_be_bytes_round_trip(h.length);
                    assert(body.subrange(0, 8) =~= spec_u64_to_be_bytes(h.last_reliable_frame));
                    assert(body.subrange(8, 12) =~= spec_u32_to_be_bytes(h.length));
                    assert(body.skip(12) =~= packet.payload);
                },
                None => {
                    assert(rest.skip(9) =~= packet.payload);
                },
            }
        },
        PacketV::Ack { chan, sequence_number } => {
            let cb = spec_u16_to_be_bytes(chan);
            assert(e[0] == cb[0] && e[1] == cb[1]);
            lemma_chan_bytes_not_reserved(chan);
            lemma_u16_be_bytes_round_trip(chan);
            assert(e.subrange(0, 2) =~= cb);
            assert(e[2] == 1);
            let rest = e.skip(3);
            lemma_u64_be_bytes_round_trip(sequence_number);
            assert(rest =~= spec_u64_to_be_bytes(sequence_number));
            assert(rest.subrange(0, 8) =~= rest);
        },
    }
}

} // verus!

verus! {

/// Finds the first NUL byte at or after `pos`, as an offset from `pos`.
fn find_nul_in(d: &[u8], pos: usize) -> (r: Option<usize>)
    requires
        pos <= d@.len(),
    ensures
        match r {
            Some(i) => pos + i < d@.len() && find_nul(d@.skip(pos as int)) == Some(i as nat),
            None => find_nul(d@.skip(pos as int)) is None,
        },
{
    let ghost tail = d@.skip(pos as int);
    let n = d.len();
    let mut k: usize = 0;
    while k < n - pos
        invariant
            pos <= n,
            n == d@.len(),
            k <= n - pos,
            tail == d@.skip(pos as int),
            forall|j: int| 0 <= j < k ==> tail[j] != 0,
        decreases n - pos - k,
    {
        if d[pos + k] == 0 {
            proof {
                assert(tail[k as int] == 0);
                lemma_find_nul(tail);
                assert(find_nul(tail) == Some(k as nat));
            }
            return Some(k);
        }
        assert(tail[k as int] == d@[pos + k] && tail[k as int] != 0);
        k = k + 1;
    }
    proof {
        lemma_find_nul(tail);
        assert(find_nul(tail) is None);
    }
    None
}

/// Decodes a NUL-terminated string that must fill `b` exactly.
fn decode_cstring_all(b: &[u8]) -> (r: Result<Vec<u8>, PacketDecodingError>)
    ensures
        match r {
            Ok(s) => spec_decode_cstring_all(b@) == Ok::<Seq<u8>, PacketDecodingError>(s@),
            Err(e) => spec_decode_cstring_all(b@) == Err::<Seq<u8>, PacketDecodingError>(e),
        },
{
    assert(b@.skip(0) =~= b@);
    let n = b.len();
    match find_nul_in(b, 0) {
        Some(i) => {
            if i + 1 != n {
                return Err(PacketDecodingError::Invalid);
            }
            let s = slice_to_vec(slice_subrange(b, 0, i));
            assert(s@ =~= b@.take(i as int));
            if !check_utf8(s.as_slice()) {
                return Err(PacketDecodingError::Invalid);
            }
            Ok(s)
        },
        None => Err(PacketDecodingError::UnexpectedEnd),
    }
}

fn decode_status_request_body(b: &[u8]) -> (r: Result<StatusRequest, PacketDecodingError>)
    ensures
        match r {
            Ok(q) => spec_decode_status_request(b@) == Ok::<StatusRequestV, PacketDecodingError>(
                q@,
            ),
            Err(e) => spec_decode_status_request(b@) == Err::<StatusRequestV, PacketDecodingError>(
                e,
            ),
        },
{
    if b.len() < 1 {
        return Err(PacketDecodingError::UnexpectedEnd);
    }
    let st = b[0];
    if st == 0 {
        if b.len() == 1 {
            Ok(StatusRequest::FastnetQuery)
        } else {
            Err(PacketDecodingError::Invalid)
        }
    } else if st == 1 {
        if b.len() == 1 {
            Ok(StatusRequest::VersionQuery)
        } else {
            Err(PacketDecodingError::Invalid)
        }
    } else if st == 2 {
        let t = slice_subrange(b, 1, b.len());
        assert(t@ =~= b@.skip(1));
        match decode_cstring_all(t) {
            Ok(name) => Ok(StatusRequest::ExtensionQuery(name)),
            Err(e) => Err(e),
        }
    } else {
        Err(PacketDecodingError::Invalid)
    }
}

fn decode_status_response_body(b: &[u8]) -> (r: Result<StatusResponse, PacketDecodingError>)
    ensures
        match r {
            Ok(q) => spec_decode_status_response(b@) == Ok::<StatusResponseV, PacketDecodingError>(
                q@,
            ),
            Err(e) => spec_decode_status_response(b@) == Err::<
                StatusResponseV,
                PacketDecodingError,
            >(e),
        },
{
    if b.len() < 1 {
        return Err(PacketDecodingError::UnexpectedEnd);
    }
    let st = b[0];
    if st == 0 {
        if b.len() < 2 {
            Err(PacketDecodingError::UnexpectedEnd)
        } else if b.len() > 2 {
            Err(PacketDecodingError::Invalid)
        } else {
            let v = b[1];
            if v == 0 {
                Ok(StatusResponse::FastnetResponse(false))
            } else if v == 1 {
                Ok(StatusResponse::FastnetResponse(true))
            } else {
                Err(PacketDecodingError::Invalid)
            }
        }
    } else if st == 1 {
        let t = slice_subrange(b, 1, b.len());
        assert(t@ =~= b@.skip(1));
        match decode_cstring_all(t) {
            Ok(version) => Ok(StatusResponse::VersionResponse(version)),
            Err(e) => Err(e),
        }
    } else if st == 2 {
        let t = slice_subrange(b, 1, b.len());
        assert(t@ =~= b@.skip(1));
        assert(t@.skip(0) =~= t@);
        match find_nul_in(t, 0) {
            Some(i) => {
                let rem = t.len() - i;
                if rem > 2 {
                    Err(PacketDecodingError::Invalid)
                } else if rem < 2 {
                    Err(PacketDecodingError::UnexpectedEnd)
                } else {
                    let name = slice_to_vec(slice_subrange(t, 0, i));
                    assert(name@ =~= t@.take(i as int));
                    if !check_utf8(name.as_slice()) {
                        return Err(PacketDecodingError::Invalid);
                    }
                    let v = t[i + 1];
                    if v == 0 {
                        Ok(StatusResponse::ExtensionResponse { name, supported: false })
                    } else if v == 1 {
                        Ok(StatusResponse::ExtensionResponse { name, supported: true })
                    } else {
                        Err(PacketDecodingError::Invalid)
                    }
                }
            },
            None => Err(PacketDecodingError::UnexpectedEnd),
        }
    } else {
        Err(PacketDecodingError::Invalid)
    }
}

fn read_uuid(b: &[u8]) -> (r: Uuid)
    requires
        b@.len() == 16,
    ensures
        r == spec_uuid_from_bytes(b@),
{
    let hi = read_u64_be(b, 0);
    let lo = read_u64_be(b, 8);
    Uuid { hi, lo }
}

/// Decodes one packet from a whole datagram body (after the checksum prefix).
/// The result matches the mathematical decoder on every input: the packet on
/// a well-formed encoding that fills `d` exactly, the matching error
/// otherwise.
pub fn decode_packet(d: &[u8]) -> (r: Result<Packet, PacketDecodingError>)
    ensures
        match r {
            Ok(p) => spec_decode_packet(d@) == Ok::<PacketV, PacketDecodingError>(p@),
            Err(e) => spec_decode_packet(d@) == Err::<PacketV, PacketDecodingError>(e),
        },
{
    if d.len() < 3 {
        return Err(PacketDecodingError::UnexpectedEnd);
    }
    let b0 = d[0];
    let b1 = d[1];
    let b2 = d[2];
    if b0 == 0xff && b1 == 0xff {
        let rest = slice_subrange(d, 3, d.len());
        assert(rest@ =~= d@.skip(3));
        if b2 == 0 {
            match decode_status_request_body(rest) {
                Ok(q) => Ok(Packet::StatusRequest(q)),
                Err(e) => Err(e),
            }
        } else if b2 == 1 {
            match decode_status_response_body(rest) {
                Ok(q) => Ok(Packet::StatusResponse(q)),
                Err(e) => Err(e),
            }
        } else if b2 == 2 {
            if rest.len() < 16 {
                Err(PacketDecodingError::UnexpectedEnd)
            } else if rest.len() > 16 {
                Err(PacketDecodingError::Invalid)
            } else {
                Ok(Packet::Connect(read_uuid(rest)))
            }
        } else if b2 == 3 {
            if rest.len() < 16 {
                Err(PacketDecodingError::UnexpectedEnd)
            } else if rest.len() > 16 {
                Err(PacketDecodingError::Invalid)
            } else {
                Ok(Packet::Connected(read_uuid(rest)))
            }
        } else if b2 == 4 {
            match decode_cstring_all(rest) {
                Ok(message) => Ok(Packet::Aborted(message)),
                Err(e) => Err(e),
            }
        } else {
            Err(PacketDecodingError::Invalid)
        }
    } else if b0 == 0xff && b1 == 0xfe {
        let rest = slice_subrange(d, 2, d.len());
        assert(rest@ =~= d@.skip(2));
        if rest.len() < 24 {
            Err(PacketDecodingError::UnexpectedEnd)
        } else if rest.len() > 24 {
            Err(PacketDecodingError::Invalid)
        } else {
            let counter = read_u64_be(rest, 0);
            let sent = read_u64_be(rest, 8);
            let received = read_u64_be(rest, 16);
            Ok(Packet::Heartbeat { counter, sent, received })
        }
    } else if b0 == 0xff && b1 == 0xfd {
        let rest = slice_subrange(d, 2, d.len());
        assert(rest@ =~= d@.skip(2));
        if rest.len() < 32 {
            Err(PacketDecodingError::UnexpectedEnd)
        } else if rest.len() > 32 {
            Err(PacketDecodingError::Invalid)
        } else {
            let endpoint = read_uuid(slice_subrange(rest, 0, 16));
            let uuid = read_uuid(slice_subrange(rest, 16, 32));
            assert(rest@.subrange(0, 16) =~= d@.skip(2).subrange(0, 16));
            assert(rest@.subrange(16, 32) =~= d@.skip(2).subrange(16, 32));
            Ok(Packet::Echo { endpoint, uuid })
        }
    } else {
        let chan = read_u16_be(d, 0);
        let rest = slice_subrange(d, 3, d.len());
        assert(rest@ =~= d@.skip(3));
        if b2 == 0 {
            if rest.len() < 9 {
                Err(PacketDecodingError::UnexpectedEnd)
            } else {
                let sequence_number = read_u64_be(rest, 0);
                let flags = rest[8];
                if flags & FLAG_RESERVED_MASK != 0 {
                    Err(PacketDecodingError::Invalid)
                } else if flags & FLAG_HAS_FRAME_HEADER != 0 {
                    let body = slice_subrange(rest, 9, rest.len());
                    assert(body@ =~= rest@.skip(9));
                    if body.len() < 12 {
                        Err(PacketDecodingError::Invalid)
                    } else {
                        let last_reliable_frame = read_u64_be(body, 0);
                        let length = read_u32_be(body, 8);
                        let payload = slice_to_vec(slice_subrange(body, 12, body.len()));
                        assert(payload@ =~= rest@.skip(9).skip(12));
                        Ok(
                            Packet::Data {
                                chan,
                                packet: DataPacket {
                                    sequence_number,
                                    flags,
                                    payload,
                                    header: Some(FrameHeader { last_reliable_frame, length }),
                                },
                            },
                        )
                    }
                } else {
                    let payload = slice_to_vec(slice_subrange(rest, 9, rest.len()));
                    assert(payload@ =~= rest@.skip(9));
                    Ok(
                        Packet::Data {
                            chan,
                            packet: DataPacket { sequence_number, flags, payload, header: None },
                        },
                    )
                }
            }
        } else if b2 == 1 {
            if rest.len() < 8 {
                Err(PacketDecodingError::UnexpectedEnd)
            } else if rest.len() > 8 {
                Err(PacketDecodingError::Invalid)
            } else {
                let sequence_number = read_u64_be(rest, 0);
                Ok(Packet::Ack { chan, sequence_number })
            }
        } else {
            Err(PacketDecodingError::Invalid)
        }
    }
}

} // verus!
