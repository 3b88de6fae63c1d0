//! Decoding of the payload that comes with a keyboard notification.
//!
//! The operating system hands the capture callback a block of memory. The
//! callback views it as bytes, and this module reads the fields from them
//! with every access checked, so that a block that is too short is told
//! apart instead of being read past its end.

use vstd::prelude::*;

verus! {

/// Bytes that the fields of the payload take.
pub const PAYLOAD_LEN: usize = 16;

/// The leading fields of a low-level keyboard notification.
#[derive(Clone, Copy, Debug, PartialEq, Eq, Structural)]
pub struct KeyboardPayload {
    /// Virtual key code.
    pub key_id: u32,
    /// Hardware scan code.
    pub scan_code: u32,
    pub flags: u32,
    /// Time of the notification, in milliseconds.
    pub time_ms: u32,
}

/// The 32-bit number whose four bytes start at `at`, least significant first.
pub open spec fn le_u32(bytes: Seq<u8>, at: int) -> u32
    recommends
        0 <= at,
        at + 4 <= bytes.len(),
{
    (bytes[at] + bytes[at + 1] * 0x100 + bytes[at + 2] * 0x1_0000 + bytes[at + 3] * 0x100_0000) as u32
}

/// The payload that the bytes hold; none where they are too few.
pub open spec fn decoded(bytes: Seq<u8>) -> Option<KeyboardPayload> {
    if bytes.len() < PAYLOAD_LEN {
        None
    } else {
        Some(
            KeyboardPayload {
                key_id: le_u32(bytes, 0),
                scan_code: le_u32(bytes, 4),
                flags: le_u32(bytes, 8),
                time_ms: le_u32(bytes, 12),
            },
        )
    }
}

fn read_le_u32(bytes: &[u8], at: usize) -> (value: u32)
    requires
        at + 4 <= bytes@.len(),
    ensures
        value == le_u32(bytes@, at as int),
{
    (bytes[at] as u32) + (bytes[at + 1] as u32) * 0x100 + (bytes[at + 2] as u32) * 0x1_0000 + (
    bytes[at + 3] as u32) * 0x100_0000
}

/// Reads the payload of a keyboard notification; a block of fewer than
/// `PAYLOAD_LEN` bytes is malformed and gives none. Bytes beyond the
/// fields are not looked at.
pub fn decode_payload(bytes: &[u8]) -> (payload: Option<KeyboardPayload>)
    ensures
        payload == decoded(bytes@),
{
    if bytes.len() < PAYLOAD_LEN {
        return None;
    }
    Some(
        KeyboardPayload {
            key_id: read_le_u32(bytes, 0),
            scan_code: read_le_u32(bytes, 4),
            flags: read_le_u32(bytes, 8),
            time_ms: read_le_u32(bytes, 12),
        },
    )
}

} // verus!
