//! Explicit (request/response) messages.
use vstd::prelude::*;

use bytes::BytesMut;

use crate::wire::{
    lemma_le_u32_bytes_roundtrip, lemma_le_u32_roundtrip,
    bytes_mut_extend_from_slice, bytes_mut_get_u32_le, bytes_mut_get_u8, bytes_mut_len,
    bytes_mut_put_u32_le, bytes_mut_put_u8, bytes_mut_split, bytes_mut_to_vec, bytes_mut_view,
    bytes_mut_with_capacity, le_u32_at, le_u32_bytes,
};

verus! {

/// The least number of bytes a buffer must hold to be read as an explicit message.
pub const EXPLICIT_MIN_LEN: usize = 6;

/// The status byte that opens a successful response.
pub const RESPONSE_SUCCESS: u8 = 0x10;

/// The status byte that opens a failed response.
pub const RESPONSE_FAILURE: u8 = 0x20;

/// What an explicit message asks for.
#[derive(Debug, Clone, Copy, PartialEq, Eq, Structural)]
pub enum ExplicitMessageType {
    ReadTag,
    WriteTag,
    Unknown,
}

/// An explicit message: its kind, the connection it belongs to and its payload.
#[derive(Debug)]
pub struct ExplicitMessage {
    pub msg_type: ExplicitMessageType,
    pub connection_id: u32,
    pub data: Vec<u8>,
}

/// The kind of message that a command byte names: 0x01 reads, 0x02 writes,
/// any other byte is unknown.
pub open spec fn message_type_of(command: u8) -> ExplicitMessageType {
    if command == 0x01 {
        ExplicitMessageType::ReadTag
    } else if command == 0x02 {
        ExplicitMessageType::WriteTag
    } else {
        ExplicitMessageType::Unknown
    }
}

/// The bytes of a response: the status byte, the little-endian connection id,
/// then the response data.
pub open spec fn response_bytes(success: bool, connection_id: u32, data: Seq<u8>) -> Seq<u8> {
    seq![if success { RESPONSE_SUCCESS } else { RESPONSE_FAILURE }] + le_u32_bytes(connection_id)
        + data
}

impl ExplicitMessage {
    /// Reads a message from `buf`: the command byte, the little-endian
    /// connection id, and everything after them as data.
    ///
    /// A buffer of fewer than six bytes gives `None` and is left as it was;
    /// otherwise the whole buffer is consumed.
    pub fn parse(buf: &mut BytesMut) -> (r: Option<Self>)
        ensures
            r is Some <==> bytes_mut_view(*old(buf)).len() >= EXPLICIT_MIN_LEN,
            r matches Some(m) ==> {
                &&& m.msg_type == message_type_of(bytes_mut_view(*old(buf))[0])
                &&& m.connection_id == le_u32_at(bytes_mut_view(*old(buf)), 1)
                &&& m.data@ == bytes_mut_view(*old(buf)).skip(5)
            },
            bytes_mut_view(*old(buf)).len() >= 6 <==> r is Some,
            r matches Some(m) ==> {
                let b = bytes_mut_view(*old(buf));
                &&& (b[0] == 1 ==> m.msg_type == ExplicitMessageType::ReadTag)
                &&& (b[0] == 2 ==> m.msg_type == ExplicitMessageType::WriteTag)
                &&& (b[0] != 1 && b[0] != 2 ==> m.msg_type == ExplicitMessageType::Unknown)
                &&& m.connection_id == b[1] + 256 * b[2] + 65536 * b[3] + 16777216 * b[4]
                &&& m.data@.len() == b.len() - 5
                &&& forall|k: int| 0 <= k < m.data@.len() ==> #[trigger] m.data@[k] == b[k + 5]
            },
            r is Some ==> bytes_mut_view(*final(buf)) == Seq::<u8>::empty(),
            r is None ==> bytes_mut_view(*final(buf)) == bytes_mut_view(*old(buf)),
    {
        if bytes_mut_len(buf) < EXPLICIT_MIN_LEN {
            return None;
        }
        let ghost s = bytes_mut_view(*buf);
        let command = bytes_mut_get_u8(buf);
        let connection_id = bytes_mut_get_u32_le(buf);
        assert(bytes_mut_view(*buf) =~= s.skip(5));
        assert(le_u32_at(s.skip(1), 0) == le_u32_at(s, 1));
        let rest = bytes_mut_split(buf);
        let data = bytes_mut_to_vec(&rest);

        let msg_type = if command == 0x01 {
            ExplicitMessageType::ReadTag
        } else if command == 0x02 {
            ExplicitMessageType::WriteTag
        } else {
            ExplicitMessageType::Unknown
        };

        Some(Self { msg_type, connection_id, data })
    }

    /// The response to this message: the success or failure status byte, this
    /// message's little-endian connection id, then `response_data`.
    pub fn to_response(&self, success: bool, response_data: Vec<u8>) -> (r: Vec<u8>)
        requires
            response_data@.len() + 8 <= isize::MAX,
        ensures
            r@ == response_bytes(success, self.connection_id, response_data@),
            r@.len() == 5 + response_data@.len(),
            r@[0] == (if success {
                0x10u8
            } else {
                0x20u8
            }),
            r@[1] + 256 * r@[2] + 65536 * r@[3] + 16777216 * r@[4] == self.connection_id,
            forall|k: int| 0 <= k < response_data@.len() ==> #[trigger] r@[k + 5] == response_data@[k],
    {
        proof {
            lemma_response_layout(success, self.connection_id, response_data@);
        }
        let mut response = bytes_mut_with_capacity(8 + response_data.len());
        bytes_mut_put_u8(
            &mut response,
            if success {
                RESPONSE_SUCCESS
            } else {
                RESPONSE_FAILURE
            },
        );
        bytes_mut_put_u32_le(&mut response, self.connection_id);
        bytes_mut_extend_from_slice(&mut response, response_data.as_slice());
        bytes_mut_to_vec(&response)
    }
}

/// The layout of a response: one status byte, 0x10 for success and 0x20 for
/// failure whatever the data; the connection id in the next four bytes, least
/// significant first; then the response data unchanged.
pub proof fn lemma_response_layout(success: bool, connection_id: u32, data: Seq<u8>)
    ensures
        response_bytes(success, connection_id, data).len() == 5 + data.len(),
        response_bytes(success, connection_id, data)[0] == (if success {
            0x10u8
        } else {
            0x20u8
        }),
        ({
            let r = response_bytes(success, connection_id, data);
            r[1] + 256 * r[2] + 65536 * r[3] + 16777216 * r[4] == connection_id
        }),
        forall|k: int|
            0 <= k < data.len() ==> #[trigger] response_bytes(success, connection_id, data)[k + 5]
                == data[k],
{
    lemma_le_u32_roundtrip(connection_id);
    let r = response_bytes(success, connection_id, data);
    let b = le_u32_bytes(connection_id);
    assert(r[1] == b[0] && r[2] == b[1] && r[3] == b[2] && r[4] == b[3]);
}

/// Read back as a message, a response with data is an unknown-kind message
/// of the same connection carrying the response data; a response without data
/// is too short to be read.
pub proof fn lemma_response_reads_back(success: bool, connection_id: u32, data: Seq<u8>)
    ensures
        data.len() >= 1 ==> {
            let r = response_bytes(success, connection_id, data);
            &&& r.len() >= EXPLICIT_MIN_LEN
            &&& message_type_of(r[0]) == ExplicitMessageType::Unknown
            &&& le_u32_at(r, 1) == connection_id
            &&& r.skip(5) == data
        },
        data.len() == 0 ==> response_bytes(success, connection_id, data).len() < EXPLICIT_MIN_LEN,
{
    let r = response_bytes(success, connection_id, data);
    lemma_le_u32_roundtrip(connection_id);
    let b = le_u32_bytes(connection_id);
    assert(r.subrange(1, 5) =~= b);
    assert(le_u32_at(r, 1) == le_u32_at(b, 0));
    assert(r.skip(5) =~= data);
}

/// A response carries the connection id of the message it answers: bytes 1
/// to 4 of the response to a parsed message are bytes 1 to 4 of that message,
/// whatever the status and the response data.
pub proof fn lemma_response_echoes_connection_id(message: Seq<u8>, success: bool, data: Seq<u8>)
    requires
        message.len() >= EXPLICIT_MIN_LEN,
    ensures
        response_bytes(success, le_u32_at(message, 1) as u32, data).subrange(1, 5)
            == message.subrange(1, 5),
{
    lemma_le_u32_bytes_roundtrip(message, 1);
    let r = response_bytes(success, le_u32_at(message, 1) as u32, data);
    assert(r.subrange(1, 5) =~= le_u32_bytes(le_u32_at(message, 1) as u32));
}

} // verus!
