//! Mathematical model of the LEB128-style variable-length integer encoding
//! used on the wire: each encoded byte carries 7 payload bits plus one
//! continuation bit, and decoding stops at the first byte whose continuation
//! bit is clear.

use vstd::prelude::*;

verus! {

/// Errors raised by the VarInt/VarLong codec.
#[derive(Debug, Clone, Copy, PartialEq, Eq, Structural)]
pub enum CodecError {
    /// A VarInt ran past its 5-byte limit without terminating.
    DecodeVarIntTooLong,
    /// A VarLong ran past its 10-byte limit without terminating.
    DecodeVarLongTooLong,
    /// The input ended before the terminating byte of a VarInt was seen.
    DecodeVarIntTooShort,
    /// The input ended before the terminating byte of a VarLong was seen.
    DecodeVarLongTooShort,
}

/// What decoding a byte sequence yields: a value and the number of bytes
/// consumed, or one of the two failure modes.
pub enum DecodeOutcome {
    Value { value: nat, consumed: nat },
    TooLong,
    TooShort,
}

/// Whether a byte asks for another byte after it.
pub open spec fn has_cont_bit(b: u8) -> bool {
    b & 0x80 != 0
}

/// The unique VarInt encoding of a 32-bit value: low 7 bits first, the
/// continuation bit set on every byte but the last.
pub open spec fn varint_encoding(v: u32) -> Seq<u8>
    decreases v via varint_encoding_decreases
{
    if v < 0x80 {
        seq![v as u8]
    } else {
        seq![((v & 0x7f) | 0x80) as u8] + varint_encoding(v >> 7)
    }
}

#[via_fn]
proof fn varint_encoding_decreases(v: u32) {
    assert(v >= 0x80 ==> v >> 7 < v) by (bit_vector);
}

/// The unique VarLong encoding of a 64-bit value.
pub open spec fn varlong_encoding(v: u64) -> Seq<u8>
    decreases v via varlong_encoding_decreases
{
    if v < 0x80 {
        seq![v as u8]
    } else {
        seq![((v & 0x7f) | 0x80) as u8] + varlong_encoding(v >> 7)
    }
}

#[via_fn]
proof fn varlong_encoding_decreases(v: u64) {
    assert(v >= 0x80 ==> v >> 7 < v) by (bit_vector);
}

/// Decoding a VarInt from `data`, having already accumulated `acc` with the
/// next segment due at bit position `shift`.  Mirrors the wire rule: a byte
/// whose continuation bit is clear terminates; a continuation byte whose
/// successor would start at bit 32 or beyond is an error; running out of
/// bytes first is an error of its own.
pub open spec fn varint_decode_at(data: Seq<u8>, shift: u32, acc: u32) -> DecodeOutcome
    decreases data.len(),
{
    if data.len() == 0 {
        DecodeOutcome::TooShort
    } else {
        let b = data[0];
        let acc2 = acc | (((b & 0x7f) as u32) << shift);
        if !has_cont_bit(b) {
            DecodeOutcome::Value { value: acc2 as nat, consumed: 1 }
        } else if shift + 7 >= 32 {
            DecodeOutcome::TooLong
        } else {
            match varint_decode_at(data.drop_first(), (shift + 7) as u32, acc2) {
                DecodeOutcome::Value { value, consumed } => DecodeOutcome::Value {
                    value,
                    consumed: consumed + 1,
                },
                o => o,
            }
        }
    }
}

/// Decoding a VarInt from the start of `data`.
pub open spec fn varint_decode(data: Seq<u8>) -> DecodeOutcome {
    varint_decode_at(data, 0, 0)
}

/// The outcome `o`, with `extra` bytes charged on top of what it consumed
/// itself.  Errors are unchanged.
pub open spec fn after_consuming(o: DecodeOutcome, extra: nat) -> DecodeOutcome {
    match o {
        DecodeOutcome::Value { value, consumed } => DecodeOutcome::Value {
            value,
            consumed: consumed + extra,
        },
        other => other,
    }
}

/// Charging extra bytes twice is charging their sum once.
pub proof fn lemma_after_consuming_add(o: DecodeOutcome, a: nat, b: nat)
    ensures
        after_consuming(after_consuming(o, a), b) == after_consuming(o, a + b),
{
}

/// Decoding a VarLong, as `varint_decode_at` but with a 64-bit accumulator
/// and the error threshold at bit 64.
pub open spec fn varlong_decode_at(data: Seq<u8>, shift: u32, acc: u64) -> DecodeOutcome
    decreases data.len(),
{
    if data.len() == 0 {
        DecodeOutcome::TooShort
    } else {
        let b = data[0];
        let acc2 = acc | (((b & 0x7f) as u64) << shift);
        if !has_cont_bit(b) {
            DecodeOutcome::Value { value: acc2 as nat, consumed: 1 }
        } else if shift + 7 >= 64 {
            DecodeOutcome::TooLong
        } else {
            match varlong_decode_at(data.drop_first(), (shift + 7) as u32, acc2) {
                DecodeOutcome::Value { value, consumed } => DecodeOutcome::Value {
                    value,
                    consumed: consumed + 1,
                },
                o => o,
            }
        }
    }
}

/// Decoding a VarLong from the start of `data`.
pub open spec fn varlong_decode(data: Seq<u8>) -> DecodeOutcome {
    varlong_decode_at(data, 0, 0)
}

/// A VarInt encoding takes exactly as many bytes as the value needs 7-bit
/// groups, and never more than 5.
pub proof fn lemma_varint_encoding_len(v: u32)
    ensures
        varint_encoding(v).len() == if v < 0x80 {
            1int
        } else if v < 0x4000 {
            2int
        } else if v < 0x200000 {
            3int
        } else if v < 0x10000000 {
            4int
        } else {
            5int
        },
    decreases v,
{
    if v < 0x80 {
    } else {
        assert(v >= 0x80 ==> v >> 7 < v) by (bit_vector);
        lemma_varint_encoding_len(v >> 7);
        assert((v < 0x4000 <==> v >> 7 < 0x80) && (v < 0x200000 <==> v >> 7 < 0x4000) && (v
            < 0x10000000 <==> v >> 7 < 0x200000) && (v >> 7 < 0x10000000)) by (bit_vector);
    }
}

/// A VarLong encoding never exceeds 10 bytes.
pub proof fn lemma_varlong_encoding_len(v: u64)
    ensures
        varlong_encoding(v).len() == if v < 0x80 {
            1int
        } else if v < 0x4000 {
            2int
        } else if v < 0x200000 {
            3int
        } else if v < 0x10000000 {
            4int
        } else if v < 0x8_0000_0000 {
            5int
        } else if v < 0x400_0000_0000 {
            6int
        } else if v < 0x2_0000_0000_0000 {
            7int
        } else if v < 0x100_0000_0000_0000 {
            8int
        } else if v < 0x8000_0000_0000_0000 {
            9int
        } else {
            10int
        },
    decreases v,
{
    if v < 0x80 {
    } else {
        assert(v >= 0x80 ==> v >> 7 < v) by (bit_vector);
        lemma_varlong_encoding_len(v >> 7);
        assert((v < 0x4000 <==> v >> 7 < 0x80) && (v < 0x200000 <==> v >> 7 < 0x4000) && (v
            < 0x10000000 <==> v >> 7 < 0x200000) && (v < 0x8_0000_0000 <==> v >> 7 < 0x10000000)
            && (v < 0x400_0000_0000 <==> v >> 7 < 0x8_0000_0000) && (v < 0x2_0000_0000_0000 <==> v
            >> 7 < 0x400_0000_0000) && (v < 0x100_0000_0000_0000 <==> v >> 7 < 0x2_0000_0000_0000)
            && (v < 0x8000_0000_0000_0000 <==> v >> 7 < 0x100_0000_0000_0000) && (v >> 7
            < 0x8000_0000_0000_0000)) by (bit_vector);
    }
}

/// Decoding an encoding picks up where the encoder left off: at bit
/// position `shift` with `acc` already accumulated, the encoded bytes of `v`
/// contribute exactly `v` shifted into place.
proof fn lemma_varint_decode_of_encoding(v: u32, shift: u32, acc: u32)
    requires
        shift + 7 * (varint_encoding(v).len() - 1) < 32,
    ensures
        varint_decode_at(varint_encoding(v), shift, acc) == (DecodeOutcome::Value {
            value: ((acc | (v << shift)) as nat),
            consumed: varint_encoding(v).len() as nat,
        }),
    decreases v,
{
    let enc = varint_encoding(v);
    if v < 0x80 {
        assert(((v as u8) & 0x80) == 0 && (((v as u8) & 0x7f) as u32) == v) by (bit_vector)
            requires
                v < 0x80,
        ;
        assert(enc[0] == v as u8);
    } else {
        let b = ((v & 0x7f) | 0x80) as u8;
        let tail = varint_encoding(v >> 7);
        assert(enc == seq![b] + tail);
        assert(enc[0] == b);
        assert(enc.drop_first() =~= tail);
        assert((b & 0x80) != 0 && ((b & 0x7f) as u32) == (v & 0x7f)) by (bit_vector)
            requires
                b == ((v & 0x7f) | 0x80) as u8,
        ;
        lemma_varint_encoding_len(v);
        lemma_varint_encoding_len(v >> 7);
        assert(v >= 0x80 ==> v >> 7 < v) by (bit_vector);
        let acc2 = acc | ((v & 0x7f) << shift);
        lemma_varint_decode_of_encoding(v >> 7, (shift + 7) as u32, acc2);
        assert(shift <= 24 ==> (acc | (v << shift)) == ((acc | ((v & 0x7f) << shift)) | ((v >> 7)
            << ((shift + 7) as u32)))) by (bit_vector);
    }
}

/// Round trip (VarInt): decoding the encoding of any 32-bit value yields
/// that value back, consuming exactly the encoding's length, which is at
/// most 5 bytes.
pub proof fn lemma_varint_round_trip(value: i32)
    ensures
        varint_decode(varint_encoding(value as u32)) == (DecodeOutcome::Value {
            value: (value as u32) as nat,
            consumed: varint_encoding(value as u32).len() as nat,
        }),
        1 <= varint_encoding(value as u32).len() <= 5,
{
    let v = value as u32;
    lemma_varint_encoding_len(v);
    lemma_varint_decode_of_encoding(v, 0, 0);
    assert(0u32 | (v << 0u32) == v) by (bit_vector);
}

/// As `lemma_varint_decode_of_encoding`, for the 64-bit flavour.
proof fn lemma_varlong_decode_of_encoding(v: u64, shift: u32, acc: u64)
    requires
        shift + 7 * (varlong_encoding(v).len() - 1) < 64,
    ensures
        varlong_decode_at(varlong_encoding(v), shift, acc) == (DecodeOutcome::Value {
            value: ((acc | (v << shift)) as nat),
            consumed: varlong_encoding(v).len() as nat,
        }),
    decreases v,
{
    let enc = varlong_encoding(v);
    if v < 0x80 {
        assert(((v as u8) & 0x80) == 0 && (((v as u8) & 0x7f) as u64) == v) by (bit_vector)
            requires
                v < 0x80,
        ;
        assert(enc[0] == v as u8);
    } else {
        let b = ((v & 0x7f) | 0x80) as u8;
        let tail = varlong_encoding(v >> 7);
        assert(enc == seq![b] + tail);
        assert(enc[0] == b);
        assert(enc.drop_first() =~= tail);
        assert((b & 0x80) != 0 && ((b & 0x7f) as u64) == (v & 0x7f)) by (bit_vector)
            requires
                b == ((v & 0x7f) | 0x80) as u8,
        ;
        lemma_varlong_encoding_len(v);
        lemma_varlong_encoding_len(v >> 7);
        assert(v >= 0x80 ==> v >> 7 < v) by (bit_vector);
        let acc2 = acc | ((v & 0x7f) << shift);
        lemma_varlong_decode_of_encoding(v >> 7, (shift + 7) as u32, acc2);
        assert(shift <= 56 ==> (acc | (v << shift)) == ((acc | ((v & 0x7f) << shift)) | ((v >> 7)
            << ((shift + 7) as u32)))) by (bit_vector);
    }
}

/// Round trip (VarLong): decoding the encoding of any 64-bit value yields
/// that value back, consuming exactly the encoding's length, which is at
/// most 10 bytes.
pub proof fn lemma_varlong_round_trip(value: i64)
    ensures
        varlong_decode(varlong_encoding(value as u64)) == (DecodeOutcome::Value {
            value: (value as u64) as nat,
            consumed: varlong_encoding(value as u64).len() as nat,
        }),
        1 <= varlong_encoding(value as u64).len() <= 10,
{
    let v = value as u64;
    lemma_varlong_encoding_len(v);
    lemma_varlong_decode_of_encoding(v, 0, 0);
    assert(0u64 | (v << 0u32) == v) by (bit_vector);
}

/// Decoding reads only the bytes it consumes: once a VarInt terminates
/// within the input, appending more bytes after it changes nothing.
pub proof fn lemma_varint_decode_prefix(s1: Seq<u8>, s2: Seq<u8>, shift: u32, acc: u32)
    requires
        varint_decode_at(s1, shift, acc) is Value,
    ensures
        varint_decode_at(s1 + s2, shift, acc) == varint_decode_at(s1, shift, acc),
    decreases s1.len(),
{
    let b = s1[0];
    assert((s1 + s2)[0] == b);
    assert((s1 + s2).drop_first() =~= s1.drop_first() + s2);
    if has_cont_bit(b) {
        let acc2 = acc | (((b & 0x7f) as u32) << shift);
        lemma_varint_decode_prefix(s1.drop_first(), s2, (shift + 7) as u32, acc2);
    }
}

/// Continuation bytes alone exhaust a VarInt: once every byte up to the
/// 5-byte limit asks for another, decoding fails as too long, whatever has
/// been accumulated so far.
proof fn lemma_varint_too_long_at(data: Seq<u8>, shift: u32, acc: u32)
    requires
        shift <= 28,
        shift % 7 == 0,
        7 * data.len() + shift >= 35,
        forall|i: int| 0 <= i < (35 - shift) / 7 ==> has_cont_bit(#[trigger] data[i]),
    ensures
        varint_decode_at(data, shift, acc) == DecodeOutcome::TooLong,
    decreases data.len(),
{
    assert(has_cont_bit(data[0]));
    if shift < 28 {
        let rest = data.drop_first();
        assert(forall|i: int| 0 <= i < (35 - (shift + 7)) / 7 ==> has_cont_bit(
            #[trigger] rest[i],
        ));
        let b = data[0];
        lemma_varint_too_long_at(rest, (shift + 7) as u32, acc | (((b & 0x7f) as u32) << shift));
    }
}

/// A byte sequence whose first 5 bytes all carry the continuation bit is
/// not a VarInt: decoding fails as too long.
pub proof fn lemma_varint_too_long(data: Seq<u8>)
    requires
        data.len() >= 5,
        forall|i: int| 0 <= i < 5 ==> has_cont_bit(#[trigger] data[i]),
    ensures
        varint_decode(data) == DecodeOutcome::TooLong,
{
    lemma_varint_too_long_at(data, 0, 0);
}

/// As `lemma_varint_too_long_at`, for the 64-bit flavour and its 10-byte
/// limit.
proof fn lemma_varlong_too_long_at(data: Seq<u8>, shift: u32, acc: u64)
    requires
        shift <= 63,
        shift % 7 == 0,
        7 * data.len() + shift >= 70,
        forall|i: int| 0 <= i < (70 - shift) / 7 ==> has_cont_bit(#[trigger] data[i]),
    ensures
        varlong_decode_at(data, shift, acc) == DecodeOutcome::TooLong,
    decreases data.len(),
{
    assert(has_cont_bit(data[0]));
    if shift < 63 {
        let rest = data.drop_first();
        assert(forall|i: int| 0 <= i < (70 - (shift + 7)) / 7 ==> has_cont_bit(
            #[trigger] rest[i],
        ));
        let b = data[0];
        lemma_varlong_too_long_at(rest, (shift + 7) as u32, acc | (((b & 0x7f) as u64) << shift));
    }
}

/// A byte sequence whose first 10 bytes all carry the continuation bit is
/// not a VarLong: decoding fails as too long.
pub proof fn lemma_varlong_too_long(data: Seq<u8>)
    requires
        data.len() >= 10,
        forall|i: int| 0 <= i < 10 ==> has_cont_bit(#[trigger] data[i]),
    ensures
        varlong_decode(data) == DecodeOutcome::TooLong,
{
    lemma_varlong_too_long_at(data, 0, 0);
}

} // verus!
