//! The VarInt flavour of the wire encoding: a 32-bit signed integer,
//! interpreted as its 32-bit unsigned bit pattern, carried in 1 to 5 bytes.

use vstd::prelude::*;

use crate::codec::{
    after_consuming, lemma_after_consuming_add, lemma_varint_encoding_len, varint_decode,
    varint_decode_at, varint_encoding, CodecError, DecodeOutcome,
};

verus! {

/// Reads a VarInt beginning at the first byte of `data`.  Returns the decoded
/// value together with the number of bytes consumed, or fails: when a sixth
/// byte would be needed the value is too long, and when the input ends before
/// the terminating byte it is too short.
pub fn read(data: &[u8]) -> (r: Result<(i32, usize), CodecError>)
    ensures
        match r {
            Ok((value, len)) => 1 <= len <= 5 && len <= data@.len() && varint_decode(data@)
                == (DecodeOutcome::Value { value: (value as u32) as nat, consumed: len as nat }),
            Err(CodecError::DecodeVarIntTooLong) => varint_decode(data@) == DecodeOutcome::TooLong,
            Err(CodecError::DecodeVarIntTooShort) => varint_decode(data@)
                == DecodeOutcome::TooShort,
            Err(_) => false,
        },
{
    let mut value: i32 = 0;
    let mut shift: u32 = 0;
    let mut i: usize = 0;

    proof {
        assert(data@.skip(0) =~= data@);
    }

    while i < data.len()
        invariant
            0 <= i <= data@.len(),
            i <= 4,
            shift == 7 * i,
            varint_decode(data@) == after_consuming(
                varint_decode_at(data@.skip(i as int), shift, value as u32),
                i as nat,
            ),
        decreases data@.len() - i,
    {
        let b = data[i];
        let ghost rest = data@.skip(i as int);
        proof {
            assert(rest[0] == data@[i as int]);
            assert(rest.drop_first() =~= data@.skip(i as int + 1));
        }
        let seg: u32 = (b & 0x7f) as u32;
        if b & 0x80 == 0 {
            let ghost acc2 = (value as u32) | (seg << shift);
            let result: i32 = value | (#[verifier::truncate] ((seg << shift) as i32));
            proof {
                let v0 = value;
                assert((v0 | ((seg << shift) as i32)) as u32 == (v0 as u32) | (seg
                    << shift)) by (bit_vector);
                assert(varint_decode_at(rest, shift, value as u32) == (DecodeOutcome::Value {
                    value: acc2 as nat,
                    consumed: 1,
                }));
            }
            return Ok((result, i + 1));
        } else if shift + 7 >= 32 {
            proof {
                assert(varint_decode_at(rest, shift, value as u32) == DecodeOutcome::TooLong);
            }
            return Err(CodecError::DecodeVarIntTooLong);
        } else {
            let ghost acc2 = (value as u32) | (seg << shift);
            proof {
                let v0 = value;
                assert((v0 | ((seg << shift) as i32)) as u32 == (v0 as u32) | (seg
                    << shift)) by (bit_vector);
                assert(varint_decode_at(rest, shift, value as u32) == after_consuming(
                    varint_decode_at(rest.drop_first(), (shift + 7) as u32, acc2),
                    1,
                ));
                lemma_after_consuming_add(
                    varint_decode_at(rest.drop_first(), (shift + 7) as u32, acc2),
                    1,
                    i as nat,
                );
            }
            value = value | (#[verifier::truncate] ((seg << shift) as i32));
            shift = shift + 7;
            i = i + 1;
        }
    }
    proof {
        assert(data@.skip(i as int).len() == 0);
    }
    Err(CodecError::DecodeVarIntTooShort)
}

/// Encodes a 32-bit signed integer as a VarInt of 1 to 5 bytes: low 7 bits
/// first, the continuation bit set on every byte but the last.
pub fn write(value: i32) -> (r: Vec<u8>)
    ensures
        r@ == varint_encoding(value as u32),
        1 <= r@.len() <= 5,
{
    let mut result: Vec<u8> = Vec::with_capacity(5);
    let mut v: u32 = value as u32;

    proof {
        assert(varint_encoding(value as u32) =~= Seq::<u8>::empty() + varint_encoding(
            value as u32,
        ));
    }

    while v >= 0x80
        invariant
            varint_encoding(value as u32) == result@ + varint_encoding(v),
        decreases v,
    {
        proof {
            assert((v & 0x7f) | 0x80 < 0x100) by (bit_vector);
        }
        let ghost result0 = result@;
        let ghost v0 = v;
        result.push(((v & 0x7f) | 0x80) as u8);
        proof {
            assert(v0 >= 0x80 ==> v0 >> 7 < v0) by (bit_vector);
            assert(result@ + varint_encoding(v0 >> 7) =~= result0 + (seq![
                ((v0 & 0x7f) | 0x80) as u8,
            ] + varint_encoding(v0 >> 7)));
        }
        v = v >> 7;
    }
    let ghost result1 = result@;
    result.push(v as u8);
    proof {
        assert(result@ =~= result1 + seq![v as u8]);
        assert(result@ =~= varint_encoding(value as u32));
        lemma_varint_encoding_len(value as u32);
    }
    result
}

} // verus!
