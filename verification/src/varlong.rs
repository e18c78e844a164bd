//! The VarLong flavour of the wire encoding: a 64-bit signed integer,
//! interpreted as its 64-bit unsigned bit pattern, carried in 1 to 10 bytes.

use vstd::prelude::*;

use crate::codec::{
    after_consuming, lemma_after_consuming_add, lemma_varlong_encoding_len, varlong_decode,
    varlong_decode_at, varlong_encoding, CodecError, DecodeOutcome,
};

verus! {

/// Reads a VarLong beginning at the first byte of `data`.  Returns the
/// decoded value together with the number of bytes consumed, or fails: when
/// an eleventh byte would be needed the value is too long, and when the input
/// ends before the terminating byte it is too short.
pub fn read(data: &[u8]) -> (r: Result<(i64, usize), CodecError>)
    ensures
        match r {
            Ok((value, len)) => 1 <= len <= 10 && len <= data@.len() && varlong_decode(data@)
                == (DecodeOutcome::Value { value: (value as u64) as nat, consumed: len as nat }),
            Err(CodecError::DecodeVarLongTooLong) => varlong_decode(data@)
                == DecodeOutcome::TooLong,
            Err(CodecError::DecodeVarLongTooShort) => varlong_decode(data@)
                == DecodeOutcome::TooShort,
            Err(_) => false,
        },
{
    let mut value: i64 = 0;
    let mut shift: u32 = 0;
    let mut i: usize = 0;

    proof {
        assert(data@.skip(0) =~= data@);
    }

    while i < data.len()
        invariant
            0 <= i <= data@.len(),
            i <= 9,
            shift == 7 * i,
            varlong_decode(data@) == after_consuming(
                varlong_decode_at(data@.skip(i as int), shift, value as u64),
                i as nat,
            ),
        decreases data@.len() - i,
    {
        let b = data[i];
        let ghost rest = data@.skip(i as int);
        proof {
            assert(rest[0] == data@[i as int]);
            assert(rest.drop_first() =~= data@.skip(i as int + 1));
        }
        let seg: u64 = (b & 0x7f) as u64;
        if b & 0x80 == 0 {
            let ghost acc2 = (value as u64) | (seg << shift);
            let result: i64 = value | (#[verifier::truncate] ((seg << shift) as i64));
            proof {
                let v0 = value;
                assert((v0 | ((seg << shift) as i64)) as u64 == (v0 as u64) | (seg
                    << shift)) by (bit_vector);
                assert(varlong_decode_at(rest, shift, value as u64) == (DecodeOutcome::Value {
                    value: acc2 as nat,
                    consumed: 1,
                }));
            }
            return Ok((result, i + 1));
        } else if shift + 7 >= 64 {
            proof {
                assert(varlong_decode_at(rest, shift, value as u64) == DecodeOutcome::TooLong);
            }
            return Err(CodecError::DecodeVarLongTooLong);
        } else {
            let ghost acc2 = (value as u64) | (seg << shift);
            proof {
                let v0 = value;
                assert((v0 | ((seg << shift) as i64)) as u64 == (v0 as u64) | (seg
                    << shift)) by (bit_vector);
                assert(varlong_decode_at(rest, shift, value as u64) == after_consuming(
                    varlong_decode_at(rest.drop_first(), (shift + 7) as u32, acc2),
                    1,
                ));
                lemma_after_consuming_add(
                    varlong_decode_at(rest.drop_first(), (shift + 7) as u32, acc2),
                    1,
                    i as nat,
                );
            }
            value = value | (#[verifier::truncate] ((seg << shift) as i64));
            shift = shift + 7;
            i = i + 1;
        }
    }
    proof {
        assert(data@.skip(i as int).len() == 0);
    }
    Err(CodecError::DecodeVarLongTooShort)
}

/// Encodes a 64-bit signed integer as a VarLong of 1 to 10 bytes: low 7 bits
/// first, the continuation bit set on every byte but the last.
pub fn write(value: i64) -> (r: Vec<u8>)
    ensures
        r@ == varlong_encoding(value as u64),
        1 <= r@.len() <= 10,
{
    let mut result: Vec<u8> = Vec::with_capacity(10);
    let mut v: u64 = value as u64;

    proof {
        assert(varlong_encoding(value as u64) =~= Seq::<u8>::empty() + varlong_encoding(
            value as u64,
        ));
    }

    while v >= 0x80
        invariant
            varlong_encoding(value as u64) == result@ + varlong_encoding(v),
        decreases v,
    {
        proof {
            assert((v & 0x7f) | 0x80 < 0x100) by (bit_vector);
        }
        let ghost result0 = result@;
        let ghost v0 = v;
        result.push(((v & 0x7f) | 0x80) as u8);
        proof {
            assert(v0 >= 0x80 ==> v0 >> 7 < v0) by (bit_vector);
            assert(result@ + varlong_encoding(v0 >> 7) =~= result0 + (seq![
                ((v0 & 0x7f) | 0x80) as u8,
            ] + varlong_encoding(v0 >> 7)));
        }
        v = v >> 7;
    }
    let ghost result1 = result@;
    result.push(v as u8);
    proof {
        assert(result@ =~= result1 + seq![v as u8]);
        assert(result@ =~= varlong_encoding(value as u64));
        lemma_varlong_encoding_len(value as u64);
    }
    result
}

} // verus!
