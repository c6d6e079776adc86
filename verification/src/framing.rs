//! Message framing on the daemon's socket: a 4-byte little-endian length,
//! then the codec payload. The reading side refuses a length above 64 KiB.

use vstd::prelude::*;
use vstd::bytes::*;

use crate::codec::{to_framed, Codec, Decode, Encode};
use crate::types::{ClientMsg, ServerMsg};

verus! {

/// The largest payload a reader accepts.
pub const MAX_MESSAGE_LEN: usize = 65_536;

/// Why a received packet was refused.
#[derive(Clone, Copy, Debug, PartialEq, Eq, Structural)]
pub enum FrameError {
    /// The length header announces more than `MAX_MESSAGE_LEN` bytes.
    TooLarge,
    /// The payload is not a well-formed message.
    Decode,
}

/// The payload length announced by a 4-byte header.
pub open spec fn spec_header_len(header: Seq<u8>) -> int {
    spec_u32_from_le_bytes(header) as int
}

/// The payload length announced by a packet header, if a reader accepts it.
pub fn frame_payload_len(header: &[u8; 4]) -> (r: Result<usize, FrameError>)
    ensures
        spec_header_len(header@) > MAX_MESSAGE_LEN ==> r == Err::<usize, FrameError>(
            FrameError::TooLarge,
        ),
        spec_header_len(header@) <= MAX_MESSAGE_LEN ==> r == Ok::<usize, FrameError>(
            spec_header_len(header@) as usize,
        ),
{
    let len = u32_from_le_bytes(header.as_slice()) as usize;
    if len > MAX_MESSAGE_LEN {
        Err(FrameError::TooLarge)
    } else {
        Ok(len)
    }
}

/// The packet the daemon writes to a client for `msg`.
pub fn write_msg(msg: &ServerMsg) -> (packet: Vec<u8>)
    ensures
        packet@ == crate::codec::spec_to_framed::<ServerMsg>(msg@),
{
    to_framed(msg)
}

/// The packet a client writes to the daemon for `msg`.
pub fn write_client_msg(msg: &ClientMsg) -> (packet: Vec<u8>)
    ensures
        packet@ == crate::codec::spec_to_framed::<ClientMsg>(msg@),
{
    to_framed(msg)
}

/// The request in a packet payload received by the daemon; bytes after
/// the request are ignored.
pub fn read_msg(payload: &[u8]) -> (r: Result<ClientMsg, FrameError>)
    ensures
        ClientMsg::spec_decode(payload@) is None ==> r == Err::<ClientMsg, FrameError>(
            FrameError::Decode,
        ),
        ClientMsg::spec_decode(payload@) matches Some((v, _)) ==> r == Ok::<ClientMsg, FrameError>(
            v,
        ),
{
    match ClientMsg::from_bytes(payload) {
        Some(m) => Ok(m),
        None => Err(FrameError::Decode),
    }
}

/// The message in a packet payload received by a client; bytes after the
/// message are ignored.
pub fn read_server_msg(payload: &[u8]) -> (r: Result<ServerMsg, FrameError>)
    ensures
        ServerMsg::spec_decode(payload@) is None ==> r is Err && r->Err_0 == FrameError::Decode,
        ServerMsg::spec_decode(payload@) matches Some((v, _)) ==> r matches Ok(m) && m@ == v,
{
    match ServerMsg::from_bytes(payload) {
        Some(m) => Ok(m),
        None => Err(FrameError::Decode),
    }
}

/// What a client writes, the daemon reads back: the header of the packet
/// for a well-formed request is accepted and announces a payload that
/// decodes to the request.
pub proof fn lemma_client_packet_read_back(msg: ClientMsg)
    requires
        ClientMsg::spec_well_formed(msg),
    ensures
        ({
            let packet = crate::codec::spec_to_framed::<ClientMsg>(msg);
            let n = spec_header_len(packet.subrange(0, 4));
            &&& n <= MAX_MESSAGE_LEN
            &&& packet.len() == 4 + n
            &&& ClientMsg::spec_decode(packet.subrange(4, 4 + n)) == Some((msg, n))
        }),
{
    lemma_auto_spec_u32_to_from_le_bytes();
    let payload = ClientMsg::spec_encode(msg);
    let packet = crate::codec::spec_to_framed::<ClientMsg>(msg);
    assert(packet.subrange(0, 4) =~= spec_u32_to_le_bytes(payload.len() as u32));
    assert(packet.subrange(4, 4 + payload.len() as int) =~= payload + Seq::<u8>::empty());
    ClientMsg::lemma_roundtrip(msg, Seq::<u8>::empty());
}

/// What the daemon writes, a client reads back, for every well-formed
/// message whose payload is within the readers' limit.
pub proof fn lemma_server_packet_read_back(msg: crate::types::ServerMsgView)
    requires
        ServerMsg::spec_well_formed(msg),
        ServerMsg::spec_encode(msg).len() <= MAX_MESSAGE_LEN,
    ensures
        ({
            let packet = crate::codec::spec_to_framed::<ServerMsg>(msg);
            let n = spec_header_len(packet.subrange(0, 4));
            &&& n <= MAX_MESSAGE_LEN
            &&& packet.len() == 4 + n
            &&& ServerMsg::spec_decode(packet.subrange(4, 4 + n)) == Some((msg, n))
        }),
{
    lemma_auto_spec_u32_to_from_le_bytes();
    let payload = ServerMsg::spec_encode(msg);
    let packet = crate::codec::spec_to_framed::<ServerMsg>(msg);
    assert(packet.subrange(0, 4) =~= spec_u32_to_le_bytes(payload.len() as u32));
    assert(packet.subrange(4, 4 + payload.len() as int) =~= payload + Seq::<u8>::empty());
    ServerMsg::lemma_roundtrip(msg, Seq::<u8>::empty());
}

} // verus!
