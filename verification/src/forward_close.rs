//! The Forward Close request that ends a connection.
use vstd::prelude::*;

use bytes::BytesMut;

use crate::wire::{bytes_mut_get_u32_le, bytes_mut_len, bytes_mut_view, le_u32_at};

verus! {

/// The number of bytes a Forward Close request takes on the wire.
pub const FORWARD_CLOSE_LEN: usize = 8;

/// A Forward Close request: the connection to end and the originator that opened it.
#[derive(Debug, Clone, Copy, PartialEq, Eq, Structural)]
pub struct ForwardCloseRequest {
    pub connection_id: u32,
    pub originator_serial_number: u32,
}

/// The request that the first eight bytes of `s` encode.
pub open spec fn forward_close_from_bytes(s: Seq<u8>) -> ForwardCloseRequest {
    ForwardCloseRequest {
        connection_id: le_u32_at(s, 0) as u32,
        originator_serial_number: le_u32_at(s, 4) as u32,
    }
}

/// Both fields of a Forward Close request are read little-endian: the
/// connection id from bytes 0 to 3 and the originator serial number from
/// bytes 4 to 7, least significant byte first.
pub proof fn lemma_forward_close_little_endian(s: Seq<u8>)
    requires
        s.len() >= 8,
    ensures
        forward_close_from_bytes(s).connection_id == s[0] + 256 * s[1] + 65536 * s[2] + 16777216
            * s[3],
        forward_close_from_bytes(s).originator_serial_number == s[4] + 256 * s[5] + 65536 * s[6]
            + 16777216 * s[7],
{
}

impl ForwardCloseRequest {
    /// Reads a request from the front of `buf`.
    ///
    /// A buffer of fewer than eight bytes gives `None` and is left as it was;
    /// otherwise the two little-endian fields are read and the buffer is
    /// advanced past them.
    pub fn parse(buf: &mut BytesMut) -> (r: Option<Self>)
        ensures
            r is Some <==> bytes_mut_view(*old(buf)).len() >= FORWARD_CLOSE_LEN,
            r matches Some(req) ==> req == forward_close_from_bytes(bytes_mut_view(*old(buf))),
            bytes_mut_view(*old(buf)).len() >= 8 <==> r is Some,
            r matches Some(req) ==> {
                let b = bytes_mut_view(*old(buf));
                &&& req.connection_id == b[0] + 256 * b[1] + 65536 * b[2] + 16777216 * b[3]
                &&& req.originator_serial_number == b[4] + 256 * b[5] + 65536 * b[6] + 16777216
                    * b[7]
            },
            r is Some ==> bytes_mut_view(*final(buf)) == bytes_mut_view(*old(buf)).skip(8),
            r is None ==> bytes_mut_view(*final(buf)) == bytes_mut_view(*old(buf)),
    {
        if bytes_mut_len(buf) < FORWARD_CLOSE_LEN {
            return None;
        }
        let ghost s = bytes_mut_view(*buf);
        let connection_id = bytes_mut_get_u32_le(buf);
        let originator_serial_number = bytes_mut_get_u32_le(buf);
        assert(s.skip(4).skip(4) =~= s.skip(8));
        Some(Self { connection_id, originator_serial_number })
    }
}

} // verus!
