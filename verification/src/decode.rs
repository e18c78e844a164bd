//! Decoding entry points for the two variable-length integer widths.

use vstd::prelude::*;

use crate::codec::{varint_decode, varlong_decode, DecodeOutcome};

verus! {

/// Decodes the first VarInt in a slice of bytes, returning the value and the
/// number of bytes it occupied, or `None` when no VarInt terminates within
/// the slice and its 5-byte limit.
pub fn varint(data: &[u8]) -> (r: Option<(i32, usize)>)
    ensures
        match r {
            Some((value, len)) => varint_decode(data@) == (DecodeOutcome::Value {
                value: (value as u32) as nat,
                consumed: len as nat,
            }),
            None => !(varint_decode(data@) is Value),
        },
{
    match crate::varint::read(data) {
        Ok((value, len)) => Some((value, len)),
        Err(_) => None,
    }
}

/// Decodes the first VarLong in a slice of bytes, returning the value and
/// the number of bytes it occupied, or `None` when no VarLong terminates
/// within the slice and its 10-byte limit.
pub fn varlong(data: &[u8]) -> (r: Option<(i64, usize)>)
    ensures
        match r {
            Some((value, len)) => varlong_decode(data@) == (DecodeOutcome::Value {
                value: (value as u64) as nat,
                consumed: len as nat,
            }),
            None => !(varlong_decode(data@) is Value),
        },
{
    match crate::varlong::read(data) {
        Ok((value, len)) => Some((value, len)),
        Err(_) => None,
    }
}

} // verus!
