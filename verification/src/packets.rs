//! The packet family carried inside each datagram, together with the
//! mathematical views that the codec's contracts are stated over.
//!
//! Protocol strings (extension names, version strings, abort messages) are
//! held as their UTF-8 bytes; on the wire they are NUL-terminated, so a
//! well-formed string holds no NUL byte.

use vstd::prelude::*;

verus! {

/// A 16-byte connection or probe identifier, stored as two big-endian halves.
#[derive(PartialEq, Eq, Structural, Clone, Copy, Debug, Hash)]
pub struct Uuid {
    pub hi: u64,
    pub lo: u64,
}

/// The frame header carried by a data packet whose flags declare one.
#[derive(PartialEq, Eq, Structural, Clone, Copy, Debug)]
pub struct FrameHeader {
    pub last_reliable_frame: u64,
    pub length: u32,
}

/// Flag bit of a data packet: the receiver must acknowledge it.
pub const FLAG_RELIABLE: u8 = 0x01;

/// Flag bit of a data packet: this packet starts a frame.
pub const FLAG_START_OF_FRAME: u8 = 0x02;

/// Flag bit of a data packet: a frame header follows the flags byte.
pub const FLAG_HAS_FRAME_HEADER: u8 = 0x04;

/// Mask of the flag bits that must stay zero.
pub const FLAG_RESERVED_MASK: u8 = 0xf8;

#[derive(PartialEq, Clone, Debug)]
pub enum StatusRequest {
    FastnetQuery,
    VersionQuery,
    ExtensionQuery(Vec<u8>),
}

#[derive(PartialEq, Clone, Debug)]
pub enum StatusResponse {
    FastnetResponse(bool),
    VersionResponse(Vec<u8>),
    ExtensionResponse { name: Vec<u8>, supported: bool },
}

#[derive(PartialEq, Clone, Debug)]
pub struct DataPacket {
    pub sequence_number: u64,
    pub flags: u8,
    pub payload: Vec<u8>,
    pub header: Option<FrameHeader>,
}

#[derive(PartialEq, Clone, Debug)]
pub enum Packet {
    StatusRequest(StatusRequest),
    StatusResponse(StatusResponse),
    Connect(Uuid),
    Connected(Uuid),
    Aborted(Vec<u8>),
    Heartbeat { counter: u64, sent: u64, received: u64 },
    Echo { endpoint: Uuid, uuid: Uuid },
    Data { chan: u16, packet: DataPacket },
    Ack { chan: u16, sequence_number: u64 },
}

pub enum StatusRequestV {
    FastnetQuery,
    VersionQuery,
    ExtensionQuery(Seq<u8>),
}

pub enum StatusResponseV {
    FastnetResponse(bool),
    VersionResponse(Seq<u8>),
    ExtensionResponse { name: Seq<u8>, supported: bool },
}

pub struct DataPacketV {
    pub sequence_number: u64,
    pub flags: u8,
    pub payload: Seq<u8>,
    pub header: Option<FrameHeader>,
}

pub enum PacketV {
    StatusRequest(StatusRequestV),
    StatusResponse(StatusResponseV),
    Connect(Uuid),
    Connected(Uuid),
    Aborted(Seq<u8>),
    Heartbeat { counter: u64, sent: u64, received: u64 },
    Echo { endpoint: Uuid, uuid: Uuid },
    Data { chan: u16, packet: DataPacketV },
    Ack { chan: u16, sequence_number: u64 },
}

impl View for StatusRequest {
    type V = StatusRequestV;

    open spec fn view(&self) -> StatusRequestV {
        match self {
            StatusRequest::FastnetQuery => StatusRequestV::FastnetQuery,
            StatusRequest::VersionQuery => StatusRequestV::VersionQuery,
            StatusRequest::ExtensionQuery(name) => StatusRequestV::ExtensionQuery(name@),
        }
    }
}

impl View for StatusResponse {
    type V = StatusResponseV;

    open spec fn view(&self) -> StatusResponseV {
        match self {
            StatusResponse::FastnetResponse(listening) => StatusResponseV::FastnetResponse(
                *listening,
            ),
            StatusResponse::VersionResponse(version) => StatusResponseV::VersionResponse(version@),
            StatusResponse::ExtensionResponse { name, supported } => {
                StatusResponseV::ExtensionResponse { name: name@, supported: *supported }
            },
        }
    }
}

impl View for DataPacket {
    type V = DataPacketV;

    open spec fn view(&self) -> DataPacketV {
        DataPacketV {
            sequence_number: self.sequence_number,
            flags: self.flags,
            payload: self.payload@,
            header: self.header,
        }
    }
}

impl View for Packet {
    type V = PacketV;

    open spec fn view(&self) -> PacketV {
        match self {
            Packet::StatusRequest(req) => PacketV::StatusRequest(req@),
            Packet::StatusResponse(resp) => PacketV::StatusResponse(resp@),
            Packet::Connect(id) => PacketV::Connect(*id),
            Packet::Connected(id) => PacketV::Connected(*id),
            Packet::Aborted(message) => PacketV::Aborted(message@),
            Packet::Heartbeat { counter, sent, received } => PacketV::Heartbeat {
                counter: *counter,
                sent: *sent,
                received: *received,
            },
            Packet::Echo { endpoint, uuid } => PacketV::Echo { endpoint: *endpoint, uuid: *uuid },
            Packet::Data { chan, packet } => PacketV::Data { chan: *chan, packet: packet@ },
            Packet::Ack { chan, sequence_number } => PacketV::Ack {
                chan: *chan,
                sequence_number: *sequence_number,
            },
        }
    }
}

/// Why a packet could not be decoded: the buffer ran out inside a field, or a
/// discriminator, flag, string or trailing byte was not acceptable.
#[derive(PartialEq, Eq, Structural, Clone, Copy, Debug)]
pub enum PacketDecodingError {
    UnexpectedEnd,
    Invalid,
}

/// Why a packet could not be encoded: it was not well formed, or its encoding
/// would not fit in a datagram.
#[derive(PartialEq, Eq, Structural, Clone, Copy, Debug)]
pub enum PacketEncodingError {
    Invalid,
    TooLarge,
}

/// Relies on uuid's `Uuid::new_v4`: a freshly drawn random identifier.
/// Nothing is assumed of the value returned.
#[verifier::external_body]
pub(crate) fn fresh_uuid() -> Uuid {
    let bits = uuid::Uuid::new_v4().as_u128();
    Uuid { hi: (bits >> 64) as u64, lo: bits as u64 }
}

} // verus!
