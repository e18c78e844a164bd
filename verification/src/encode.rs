//! Encoding entry points for the two variable-length integer widths.

use vstd::prelude::*;

use crate::codec::{varint_encoding, varlong_encoding};

verus! {

/// Encodes an `i32` as a VarInt.  The encoding of a 32-bit value never
/// exceeds 5 bytes, so this always succeeds.
pub fn varint(value: i32) -> (r: Option<Vec<u8>>)
    ensures
        match r {
            Some(bytes) => bytes@ == varint_encoding(value as u32) && 1 <= bytes@.len() <= 5,
            None => false,
        },
{
    let result = crate::varint::write(value);
    if result.len() > 5 {
        None
    } else {
        Some(result)
    }
}

/// Encodes an `i64` as a VarLong.  The encoding of a 64-bit value never
/// exceeds 10 bytes, so this always succeeds.
pub fn varlong(value: i64) -> (r: Option<Vec<u8>>)
    ensures
        match r {
            Some(bytes) => bytes@ == varlong_encoding(value as u64) && 1 <= bytes@.len() <= 10,
            None => false,
        },
{
    let result = crate::varlong::write(value);
    if result.len() > 10 {
        None
    } else {
        Some(result)
    }
}

} // verus!
