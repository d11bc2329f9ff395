//! Datagram framing: every outgoing datagram is a 4-byte big-endian
//! CRC32-Castagnoli checksum followed by the encoded packet; on ingress the
//! prefix is recomputed over the tail and mismatches are rejected.

use vstd::prelude::*;
use vstd::slice::slice_subrange;

use crate::wire::{
    read_u32_be, spec_u32_from_be_bytes, spec_u32_to_be_bytes, write_bytes, write_u32_be,
    lemma_u32_be_bytes_round_trip,
};

verus! {

/// The CRC32-Castagnoli checksum of a byte sequence; a function of the bytes
/// alone.
pub uninterp spec fn crc32c_of(data: Seq<u8>) -> u32;

/// Relies on the crc crate's `Crc::<u32>::checksum` over the `CRC_32_ISCSI`
/// (Castagnoli) algorithm: a pure function of the input bytes.
#[verifier::external_body]
fn crc32c(data: &[u8]) -> (r: u32)
    ensures
        r == crc32c_of(data@),
{
    crc::Crc::<u32>::new(&crc::CRC_32_ISCSI).checksum(data)
}

/// The wire form of a datagram whose packet bytes are `body`.
pub open spec fn spec_wrap_datagram(body: Seq<u8>) -> Seq<u8> {
    spec_u32_to_be_bytes(crc32c_of(body)) + body
}

/// Prefixes encoded packet bytes with their checksum.
pub fn wrap_datagram(body: &[u8]) -> (r: Vec<u8>)
    ensures
        r@ == spec_wrap_datagram(body@),
        r@.len() == body@.len() + 4,
{
    let sum = crc32c(body);
    let mut out: Vec<u8> = Vec::new();
    write_u32_be(&mut out, sum);
    write_bytes(&mut out, body);
    out
}

/// Whether an incoming datagram carries a prefix that matches the checksum of
/// its tail.
pub open spec fn spec_datagram_checksum_ok(data: Seq<u8>) -> bool {
    data.len() >= 4 && spec_u32_from_be_bytes(data.subrange(0, 4)) == crc32c_of(data.skip(4))
}

/// Checks and strips the checksum prefix of an incoming datagram. Datagrams
/// shorter than the prefix, or whose prefix does not match the checksum of
/// the tail, are rejected.
pub fn unwrap_datagram<'a>(data: &'a [u8]) -> (r: Option<&'a [u8]>)
    ensures
        match r {
            Some(body) => spec_datagram_checksum_ok(data@) && body@ == data@.skip(4),
            None => !spec_datagram_checksum_ok(data@),
        },
{
    if data.len() < 4 {
        return None;
    }
    let expected = read_u32_be(data, 0);
    let body = slice_subrange(data, 4, data.len());
    assert(body@ =~= data@.skip(4));
    let computed = crc32c(body);
    if computed != expected {
        return None;
    }
    Some(body)
}

/// Framing round-trip law: a wrapped datagram always passes the checksum
/// check, and stripping the prefix yields the packet bytes back.
pub proof fn lemma_frame_round_trip(body: Seq<u8>)
    ensures
        spec_datagram_checksum_ok(spec_wrap_datagram(body)),
        spec_wrap_datagram(body).skip(4) == body,
{
    let d = spec_wrap_datagram(body);
    lemma_u32_be_bytes_round_trip(crc32c_of(body));
    assert(d.subrange(0, 4) =~= spec_u32_to_be_bytes(crc32c_of(body)));
    assert(d.skip(4) =~= body);
}

} // verus!
