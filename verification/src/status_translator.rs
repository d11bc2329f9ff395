//! Answers connectionless status queries: whether this engine listens, which
//! protocol version it speaks, and which extensions it supports (none).

use vstd::prelude::*;
use vstd::slice::slice_to_vec;

use crate::packets::{StatusRequest, StatusRequestV, StatusResponse, StatusResponseV};

verus! {

/// The protocol version this engine speaks, as its UTF-8 bytes: `1.0`.
pub open spec fn spec_protocol_version() -> Seq<u8> {
    seq![0x31u8, 0x2eu8, 0x30u8]
}

/// The version string sent in version responses and compared against
/// version responses received during a handshake.
pub fn protocol_version() -> (r: Vec<u8>)
    ensures
        r@ == spec_protocol_version(),
{
    let mut v: Vec<u8> = Vec::new();
    v.push(0x31);
    v.push(0x2e);
    v.push(0x30);
    assert(v@ =~= spec_protocol_version());
    v
}

/// What the translator answers: this engine is listening, speaks
/// `spec_protocol_version()`, and supports no extensions.
pub open spec fn spec_translate(req: StatusRequestV) -> StatusResponseV {
    match req {
        StatusRequestV::FastnetQuery => StatusResponseV::FastnetResponse(true),
        StatusRequestV::VersionQuery => StatusResponseV::VersionResponse(spec_protocol_version()),
        StatusRequestV::ExtensionQuery(name) => StatusResponseV::ExtensionResponse {
            name,
            supported: false,
        },
    }
}

/// Answers a status request as `spec_translate` says.
pub fn translate(req: &StatusRequest) -> (resp: StatusResponse)
    ensures
        resp@ == spec_translate(req@),
{
    match req {
        StatusRequest::FastnetQuery => StatusResponse::FastnetResponse(true),
        StatusRequest::VersionQuery => StatusResponse::VersionResponse(protocol_version()),
        StatusRequest::ExtensionQuery(name) => StatusResponse::ExtensionResponse {
            name: slice_to_vec(name.as_slice()),
            supported: false,
        },
    }
}

} // verus!
