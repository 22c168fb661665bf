//! Little-endian integers inside a byte buffer, read without ever going out of bounds.
use vstd::prelude::*;

verus! {

/// The little-endian `u16` at `at`.
pub open spec fn le16(b: Seq<u8>, at: int) -> u16 {
    (b[at] as int + 256 * (b[at + 1] as int)) as u16
}

/// The little-endian `u32` at `at`.
pub open spec fn le32(b: Seq<u8>, at: int) -> u32 {
    (b[at] as int + 256 * (b[at + 1] as int) + 65536 * (b[at + 2] as int) + 16777216 * (
    b[at + 3] as int)) as u32
}

/// The `u16` at `at`, when the buffer holds all of it.
pub open spec fn u16_in(b: Seq<u8>, at: int) -> Option<u16> {
    if 0 <= at && at + 2 <= b.len() {
        Some(le16(b, at))
    } else {
        None
    }
}

/// The `u32` at `at`, when the buffer holds all of it.
pub open spec fn u32_in(b: Seq<u8>, at: int) -> Option<u32> {
    if 0 <= at && at + 4 <= b.len() {
        Some(le32(b, at))
    } else {
        None
    }
}

/// Reads a little-endian `u16`, or `None` past the end.
pub fn u16_at(bytes: &[u8], at: usize) -> (r: Option<u16>)
    ensures
        r == u16_in(bytes@, at as int),
{
    if at <= bytes.len() && bytes.len() - at >= 2 {
        let v: u16 = bytes[at] as u16 + 256 * (bytes[at + 1] as u16);
        Some(v)
    } else {
        None
    }
}

/// Reads a little-endian `u32`, or `None` past the end.
pub fn u32_at(bytes: &[u8], at: usize) -> (r: Option<u32>)
    ensures
        r == u32_in(bytes@, at as int),
{
    if at <= bytes.len() && bytes.len() - at >= 4 {
        let v: u32 = bytes[at] as u32 + 256 * (bytes[at + 1] as u32) + 65536 * (bytes[at + 2] as u32)
            + 16777216 * (bytes[at + 3] as u32);
        Some(v)
    } else {
        None
    }
}

} // verus!
