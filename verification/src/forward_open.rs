//! The Forward Open request that opens a cyclic I/O connection.
use vstd::prelude::*;

use bytes::BytesMut;

use crate::wire::{bytes_mut_get_u32_le, bytes_mut_get_u8, bytes_mut_len, bytes_mut_view, le_u32_at};

verus! {

/// The least number of bytes a buffer must hold to be read as a Forward Open request.
pub const FORWARD_OPEN_MIN_LEN: usize = 16;

/// The number of bytes that reading a Forward Open request consumes.
pub const FORWARD_OPEN_READ_LEN: usize = 14;

/// A Forward Open request.
#[derive(Debug, Clone, Copy, PartialEq, Eq, Structural)]
pub struct ForwardOpenRequest {
    pub connection_id: u32,
    pub originator_serial_number: u32,
    pub timeout_ticks: u8,
    /// Requested packet interval in milliseconds.
    pub requested_packet_interval: u32,
    pub transport_trigger: u8,
}

/// The request that the first fourteen bytes of `s` encode: two 32-bit
/// little-endian fields, a byte, a 32-bit little-endian field and a byte.
pub open spec fn forward_open_from_bytes(s: Seq<u8>) -> ForwardOpenRequest {
    ForwardOpenRequest {
        connection_id: le_u32_at(s, 0) as u32,
        originator_serial_number: le_u32_at(s, 4) as u32,
        timeout_ticks: s[8],
        requested_packet_interval: le_u32_at(s, 9) as u32,
        transport_trigger: s[13],
    }
}

/// The fields of a Forward Open request lie at fixed offsets, multi-byte
/// fields little-endian: connection id at 0, originator serial number at 4,
/// timeout ticks at 8, requested packet interval at 9, transport trigger at 13.
pub proof fn lemma_forward_open_layout(s: Seq<u8>)
    requires
        s.len() >= 14,
    ensures
        forward_open_from_bytes(s).connection_id == s[0] + 256 * s[1] + 65536 * s[2] + 16777216
            * s[3],
        forward_open_from_bytes(s).originator_serial_number == s[4] + 256 * s[5] + 65536 * s[6]
            + 16777216 * s[7],
        forward_open_from_bytes(s).timeout_ticks == s[8],
        forward_open_from_bytes(s).requested_packet_interval == s[9] + 256 * s[10] + 65536 * s[11]
            + 16777216 * s[12],
        forward_open_from_bytes(s).transport_trigger == s[13],
{
}

impl ForwardOpenRequest {
    /// Reads a request from the front of `buf`.
    ///
    /// A buffer of fewer than sixteen bytes gives `None` and is left as it was.
    /// Otherwise the fields are read from the first fourteen bytes and the
    /// buffer is advanced past those fourteen.
    pub fn parse(buf: &mut BytesMut) -> (r: Option<Self>)
        ensures
            r is Some <==> bytes_mut_view(*old(buf)).len() >= FORWARD_OPEN_MIN_LEN,
            r matches Some(req) ==> req == forward_open_from_bytes(bytes_mut_view(*old(buf))),
            bytes_mut_view(*old(buf)).len() >= 16 <==> r is Some,
            r matches Some(req) ==> {
                let b = bytes_mut_view(*old(buf));
                &&& req.connection_id == b[0] + 256 * b[1] + 65536 * b[2] + 16777216 * b[3]
                &&& req.originator_serial_number == b[4] + 256 * b[5] + 65536 * b[6] + 16777216
                    * b[7]
                &&& req.timeout_ticks == b[8]
                &&& req.requested_packet_interval == b[9] + 256 * b[10] + 65536 * b[11]
                    + 16777216 * b[12]
                &&& req.transport_trigger == b[13]
            },
            r is Some ==> bytes_mut_view(*final(buf)).len() == bytes_mut_view(*old(buf)).len() - 14,
            r is Some ==> bytes_mut_view(*final(buf)) == bytes_mut_view(*old(buf)).skip(
                FORWARD_OPEN_READ_LEN as int,
            ),
            r is None ==> bytes_mut_view(*final(buf)) == bytes_mut_view(*old(buf)),
    {
        if bytes_mut_len(buf) < FORWARD_OPEN_MIN_LEN {
            return None;
        }
        let ghost s = bytes_mut_view(*buf);
        let connection_id = bytes_mut_get_u32_le(buf);
        assert(bytes_mut_view(*buf) =~= s.skip(4));
        let originator_serial_number = bytes_mut_get_u32_le(buf);
        assert(bytes_mut_view(*buf) =~= s.skip(8));
        let timeout_ticks = bytes_mut_get_u8(buf);
        assert(bytes_mut_view(*buf) =~= s.skip(9));
        let requested_packet_interval = bytes_mut_get_u32_le(buf);
        assert(bytes_mut_view(*buf) =~= s.skip(13));
        let transport_trigger = bytes_mut_get_u8(buf);
        assert(bytes_mut_view(*buf) =~= s.skip(14));
        Some(
            Self {
                connection_id,
                originator_serial_number,
                timeout_ticks,
                requested_packet_interval,
                transport_trigger,
            },
        )
    }
}

} // verus!
