//! Framing of the connection handshake and of extension lookups.
use vstd::prelude::*;

use crate::errors::ConnectError;
use crate::wire::{append_bytes, read_u16_le, read_u32_le, u16_le, u32_le};
use crate::x11_utils::ExtensionInformation;

verus! {

/// Byte-order mark that announces little-endian data to the server.
pub const BYTE_ORDER_LSB_FIRST: u8 = 0x6c;

/// Opcode of the `QueryExtension` request.
pub const QUERY_EXTENSION_REQUEST: u8 = 98;

/// What this core keeps of the server's setup answer.
#[derive(Debug, Clone, Copy, PartialEq, Eq, Structural)]
pub struct Setup {
    pub resource_id_base: u32,
    pub resource_id_mask: u32,
    /// Largest request without big requests, in 4-byte words.
    pub maximum_request_length: u16,
    /// Number of screens.
    pub roots_len: u8,
}

/// Number of zero bytes that pad `n` bytes to a multiple of four.
pub open spec fn pad_len(n: nat) -> nat {
    ((4 - n % 4) % 4) as nat
}

/// `n` zero bytes.
pub open spec fn zeros(n: nat) -> Seq<u8> {
    Seq::new(n, |i: int| 0u8)
}

/// The two little-endian bytes of `v`.
pub open spec fn le16(v: nat) -> Seq<u8> {
    seq![(v % 256) as u8, ((v / 256) % 256) as u8]
}

/// The setup request: byte order, protocol version 11.0, and the
/// authorization name and data, each padded to four bytes.
pub open spec fn setup_request_bytes(name: Seq<u8>, data: Seq<u8>) -> Seq<u8> {
    seq![BYTE_ORDER_LSB_FIRST, 0u8, 11u8, 0u8, 0u8, 0u8] + le16(name.len()) + le16(data.len()) + seq![0u8, 0u8]
        + name + zeros(pad_len(name.len())) + data + zeros(pad_len(data.len()))
}

/// Appends `n` zero bytes.
fn push_zeros(out: &mut Vec<u8>, n: usize)
    ensures
        final(out)@ == old(out)@ + zeros(n as nat),
{
    let mut i: usize = 0;
    while i < n
        invariant
            i <= n,
            out@ == old(out)@ + zeros(i as nat),
        decreases n - i,
    {
        out.push(0);
        i = i + 1;
        assert(zeros(i as nat) =~= zeros((i - 1) as nat).push(0u8));
    }
}

/// The bytes that open a connection.
pub fn setup_request(auth_name: &[u8], auth_data: &[u8]) -> (r: Vec<u8>)
    requires
        auth_name@.len() <= 0xffff,
        auth_data@.len() <= 0xffff,
    ensures
        r@ == setup_request_bytes(auth_name@, auth_data@),
{
    let n = auth_name.len();
    let d = auth_data.len();
    let mut out: Vec<u8> = Vec::new();
    out.push(BYTE_ORDER_LSB_FIRST);
    out.push(0);
    out.push(11);
    out.push(0);
    out.push(0);
    out.push(0);
    out.push((n % 256) as u8);
    out.push((n / 256) as u8);
    out.push((d % 256) as u8);
    out.push((d / 256) as u8);
    out.push(0);
    out.push(0);
    assert(out@ =~= seq![BYTE_ORDER_LSB_FIRST, 0u8, 11u8, 0u8, 0u8, 0u8] + le16(n as nat) + le16(d as nat) + seq![0u8, 0u8]);
    append_bytes(&mut out, auth_name);
    push_zeros(&mut out, (4 - n % 4) % 4);
    append_bytes(&mut out, auth_data);
    push_zeros(&mut out, (4 - d % 4) % 4);
    out
}

/// Total length of the setup answer whose first 8 bytes are `header`.
pub fn setup_reply_length(header: &[u8]) -> (r: usize)
    requires
        header@.len() >= 8,
    ensures
        r == 8 + 4 * u16_le(header@[6], header@[7]),
{
    8 + 4 * (read_u16_le(header, 6) as usize)
}

/// The setup parsed from the server's answer: status 1 is success, 0 a
/// refusal, 2 a demand for more authentication.
pub open spec fn parsed_setup(reply: Seq<u8>) -> Result<Setup, ConnectError> {
    if reply.len() < 8 {
        Err(ConnectError::ParseError)
    } else if reply[0] == 0 {
        Err(ConnectError::SetupFailed)
    } else if reply[0] == 2 {
        Err(ConnectError::SetupAuthenticate)
    } else if reply[0] != 1 || reply.len() < 40 {
        Err(ConnectError::ParseError)
    } else {
        Ok(Setup {
            resource_id_base: u32_le(reply[12], reply[13], reply[14], reply[15]) as u32,
            resource_id_mask: u32_le(reply[16], reply[17], reply[18], reply[19]) as u32,
            maximum_request_length: u16_le(reply[26], reply[27]) as u16,
            roots_len: reply[28],
        })
    }
}

/// Parses the server's answer to the setup request.
pub fn parse_setup(reply: &[u8]) -> (r: Result<Setup, ConnectError>)
    ensures
        r == parsed_setup(reply@),
{
    if reply.len() < 8 {
        Err(ConnectError::ParseError)
    } else if reply[0] == 0 {
        Err(ConnectError::SetupFailed)
    } else if reply[0] == 2 {
        Err(ConnectError::SetupAuthenticate)
    } else if reply[0] != 1 || reply.len() < 40 {
        Err(ConnectError::ParseError)
    } else {
        Ok(Setup {
            resource_id_base: read_u32_le(reply, 12),
            resource_id_mask: read_u32_le(reply, 16),
            maximum_request_length: read_u16_le(reply, 26),
            roots_len: reply[28],
        })
    }
}

/// The `QueryExtension` request for the extension called `name`.
pub open spec fn query_extension_bytes(name: Seq<u8>) -> Seq<u8> {
    seq![QUERY_EXTENSION_REQUEST, 0u8] + le16(2 + (name.len() + pad_len(name.len())) / 4) + le16(name.len())
        + seq![0u8, 0u8] + name + zeros(pad_len(name.len()))
}

/// The bytes of a `QueryExtension` request.
pub fn query_extension_request(name: &[u8]) -> (r: Vec<u8>)
    requires
        name@.len() <= 0xffff,
    ensures
        r@ == query_extension_bytes(name@),
{
    let n = name.len();
    let p = (4 - n % 4) % 4;
    let words = 2 + (n + p) / 4;
    let mut out: Vec<u8> = Vec::new();
    out.push(QUERY_EXTENSION_REQUEST);
    out.push(0);
    out.push((words % 256) as u8);
    out.push((words / 256) as u8);
    out.push((n % 256) as u8);
    out.push((n / 256) as u8);
    out.push(0);
    out.push(0);
    assert(out@ =~= seq![QUERY_EXTENSION_REQUEST, 0u8] + le16(words as nat) + le16(n as nat) + seq![0u8, 0u8]);
    append_bytes(&mut out, name);
    push_zeros(&mut out, p);
    out
}

/// The extension described by a `QueryExtension` reply, `None` where the
/// server does not have it.
pub open spec fn query_extension_info(reply: Seq<u8>) -> Option<ExtensionInformation> {
    if reply.len() < 32 || reply[0] != 1 || reply[8] == 0 {
        None
    } else {
        Some(ExtensionInformation { major_opcode: reply[9], first_event: reply[10], first_error: reply[11] })
    }
}

/// Reads a `QueryExtension` reply.
pub fn parse_query_extension_reply(reply: &[u8]) -> (r: Option<ExtensionInformation>)
    ensures
        r == query_extension_info(reply@),
{
    if reply.len() < 32 || reply[0] != 1 || reply[8] == 0 {
        None
    } else {
        Some(ExtensionInformation { major_opcode: reply[9], first_event: reply[10], first_error: reply[11] })
    }
}

} // verus!
