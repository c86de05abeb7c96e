//! The gateway's Admin API protocol: a 5-byte command frame, a 5-byte
//! response header, and the HTTP status given to I/O failures.
use vstd::prelude::*;
use crate::discovery_protocol::{encode, hex_encode};
use crate::cdr::le4;
use crate::text::push_str;

verus! {

/// Admin API commands.
#[derive(Debug, Clone, Copy)]
pub enum Command {
    GetMesh,
    GetTopics,
    GetMetrics,
    GetHealth,
    GetWriters,
    GetReaders,
}

pub open spec fn command_code(c: Command) -> u8 {
    match c {
        Command::GetMesh => 0x01,
        Command::GetTopics => 0x02,
        Command::GetMetrics => 0x03,
        Command::GetHealth => 0x04,
        Command::GetWriters => 0x05,
        Command::GetReaders => 0x06,
    }
}

impl Command {
    /// The command's byte on the wire.
    pub fn code(&self) -> (b: u8)
        ensures
            b == command_code(*self),
    {
        match self {
            Command::GetMesh => 0x01,
            Command::GetTopics => 0x02,
            Command::GetMetrics => 0x03,
            Command::GetHealth => 0x04,
            Command::GetWriters => 0x05,
            Command::GetReaders => 0x06,
        }
    }
}

/// The frame of a request: the command byte, then a zero payload length
/// (little-endian `u32`).
pub fn request_frame(cmd: Command) -> (f: [u8; 5])
    ensures
        f@ == seq![command_code(cmd)] + le4(0),
{
    let f: [u8; 5] = [cmd.code(), 0, 0, 0, 0];
    assert(le4(0) =~= seq![0u8, 0u8, 0u8, 0u8]) by {
        assert((0u32 & 0xff) as u8 == 0u8) by (bit_vector);
        assert(((0u32 >> 8u32) & 0xff) as u8 == 0u8) by (bit_vector);
        assert(((0u32 >> 16u32) & 0xff) as u8 == 0u8) by (bit_vector);
        assert(((0u32 >> 24u32) & 0xff) as u8 == 0u8) by (bit_vector);
    }
    assert(f@ =~= seq![command_code(cmd)] + le4(0));
    f
}

/// The message of a response whose status is not zero.
pub open spec fn status_message(status: u8) -> Seq<char> {
    "Admin API error: status=0x"@ + hex_encode(seq![status])
}

/// Reads a response header: `Ok(len)` for status zero with the
/// little-endian payload length, else the error message for the status.
pub fn read_response_header(header: [u8; 5]) -> (r: Result<u32, String>)
    ensures
        header@[0] == 0 ==> r == Ok::<u32, String>(
            (header@[1] + header@[2] * 256 + header@[3] * 65536 + header@[4] * 16777216) as u32,
        ),
        header@[0] != 0 ==> (r matches Err(m) && m@ == status_message(header@[0])),
{
    let status = header[0];
    if status != 0 {
        let mut m = String::from_str("Admin API error: status=0x");
        let one: [u8; 1] = [status];
        assert(one@ =~= seq![status]);
        push_str(&mut m, encode(one.as_slice()).as_str());
        return Err(m);
    }
    Ok((header[1] as u32) + (header[2] as u32) * 256 + (header[3] as u32) * 65536 + (header[4] as u32) * 16777216)
}

/// The kinds of I/O failure the gateway tells apart.
#[derive(Debug, Clone, Copy)]
pub enum IoFailure {
    ConnectionRefused,
    TimedOut,
    Other,
}

pub open spec fn failure_status(k: IoFailure) -> u16 {
    match k {
        IoFailure::ConnectionRefused => 503,
        IoFailure::TimedOut => 504,
        IoFailure::Other => 500,
    }
}

/// An API error response.
pub struct ApiError {
    pub error: String,
    pub code: u16,
}

impl ApiError {
    /// The response to an I/O failure: its message, and 503 for a refused
    /// connection, 504 for a timeout, 500 otherwise.
    pub fn from_io(message: String, kind: IoFailure) -> (e: ApiError)
        ensures
            e.error == message,
            e.code == failure_status(kind),
    {
        let code: u16 = match kind {
            IoFailure::ConnectionRefused => 503,
            IoFailure::TimedOut => 504,
            IoFailure::Other => 500,
        };
        ApiError { error: message, code }
    }
}

} // verus!
