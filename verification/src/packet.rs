//! The packet framer: splits one inbound byte region into its declared
//! length, its packet id and its payload.
//!
//! Structure of an uncompressed frame on the wire:
//!
//! - length (VarInt): declared byte count of packet id + payload;
//! - packet id (VarInt): identifies the packet's meaning within the current
//!   connection state;
//! - payload (byte array): the remaining bytes.

use vstd::prelude::*;
use vstd::slice::slice_to_vec;

use crate::codec::{
    lemma_varint_decode_prefix, lemma_varint_round_trip, varint_decode, varint_encoding,
    DecodeOutcome,
};

verus! {

/// Errors raised while framing a packet.
#[derive(Debug, Clone, Copy, PartialEq, Eq, Structural)]
pub enum PacketError {
    /// The packet id VarInt could not be decoded.
    IdDecodingError,
    /// The length VarInt could not be decoded, or its value was negative.
    LengthDecodingError,
}

/// What a packet means: connecting to the server, querying its status, and
/// so on.  No ids are classified yet, so `PacketId::get_type` reports every
/// packet as unidentified.
#[derive(Debug, Clone, Copy, PartialEq, Eq, Structural)]
pub enum PacketType {
    Unclassified,
}

/// A packet id together with the byte length of its VarInt encoding.
#[derive(Debug, Clone, Copy)]
pub struct PacketId {
    id: i32,
    id_length: usize,
}

/// What framing `data` yields: the declared length, the id value (as its
/// 32-bit unsigned bit pattern), the byte length of the id VarInt, and the
/// payload — or the error for the first field that fails.  A negative
/// declared length cannot name a byte count and is rejected, though only
/// after the id has been decoded.
pub open spec fn spec_parse(data: Seq<u8>) -> Result<(nat, nat, nat, Seq<u8>), PacketError> {
    match varint_decode(data) {
        DecodeOutcome::Value { value: length, consumed: n1 } => match varint_decode(
            data.skip(n1 as int),
        ) {
            DecodeOutcome::Value { value: id, consumed: n2 } => if length >= 0x8000_0000 {
                Err(PacketError::LengthDecodingError)
            } else {
                Ok((length, id, n2, data.skip((n1 + n2) as int)))
            },
            _ => Err(PacketError::IdDecodingError),
        },
        _ => Err(PacketError::LengthDecodingError),
    }
}

impl PacketId {
    /// The id value.
    pub closed spec fn spec_value(self) -> i32 {
        self.id
    }

    /// The byte length of the id's VarInt encoding.
    pub closed spec fn spec_byte_len(self) -> usize {
        self.id_length
    }

    /// Builds a `PacketId` from an id value and the byte length of its
    /// VarInt encoding.
    pub fn new(id: i32, id_length: usize) -> (r: Self)
        ensures
            r.spec_value() == id,
            r.spec_byte_len() == id_length,
    {
        Self { id, id_length }
    }

    /// The id value.
    pub fn get_value(&self) -> (r: i32)
        ensures
            r == self.spec_value(),
    {
        self.id
    }

    /// The byte length of the id's VarInt encoding.
    pub fn len(&self) -> (r: usize)
        ensures
            r == self.spec_byte_len(),
    {
        self.id_length
    }

    /// Reads a packet id from the front of `value`: the id VarInt and the
    /// count of bytes it occupied.
    pub fn try_from(value: &[u8]) -> (r: Result<Self, PacketError>)
        ensures
            match r {
                Ok(id) => varint_decode(value@) == (DecodeOutcome::Value {
                    value: (id.spec_value() as u32) as nat,
                    consumed: id.spec_byte_len() as nat,
                }),
                Err(e) => e == PacketError::IdDecodingError && !(varint_decode(value@)
                    is Value),
            },
    {
        match crate::varint::read(value) {
            Ok((id, id_length)) => Ok(Self { id, id_length }),
            Err(_) => Err(PacketError::IdDecodingError),
        }
    }

    /// The "type" of the packet: what the packet means for the connection.
    /// `None` stands for a packet that is not identified; no ids are
    /// classified yet, so every packet is unidentified.
    pub fn get_type() -> (r: Option<PacketType>)
        ensures
            r is None,
    {
        None
    }
}

impl Default for PacketId {
    /// A placeholder id: value 0, occupying no bytes.
    fn default() -> (r: Self)
        ensures
            r.spec_value() == 0,
            r.spec_byte_len() == 0,
    {
        Self { id: 0, id_length: 0 }
    }
}

/// One length-prefixed protocol message, parsed eagerly from the byte region
/// read off the socket.
pub struct Packet {
    /// Declared length of `id` + payload, from the wire.
    length: usize,
    /// The packet id, VarInt-decoded.
    id: PacketId,
    /// The raw bytes of the whole frame: length, id and payload.
    data: Vec<u8>,
    /// The payload bytes alone: the frame after length and id.
    payload: Vec<u8>,
}

impl Packet {
    /// The declared length field.
    pub closed spec fn spec_length(self) -> usize {
        self.length
    }

    /// The decoded packet id.
    pub closed spec fn spec_id(self) -> PacketId {
        self.id
    }

    /// The bytes of the whole frame.
    pub closed spec fn spec_data(self) -> Seq<u8> {
        self.data@
    }

    /// The payload bytes.
    pub closed spec fn spec_payload(self) -> Seq<u8> {
        self.payload@
    }

    /// The packet's fields agree with what framing its own bytes yields.
    /// Holds for every packet built by `new`.
    pub open spec fn wf(self) -> bool {
        spec_parse(self.spec_data()) == Ok::<_, PacketError>(
            (
                self.spec_length() as nat,
                (self.spec_id().spec_value() as u32) as nat,
                self.spec_id().spec_byte_len() as nat,
                self.spec_payload(),
            ),
        )
    }

    /// Frames `data`: decodes the length and id VarInts and keeps the rest
    /// as payload.  Fails exactly when `spec_parse` fails, with the same
    /// error.
    pub fn new(data: &[u8]) -> (r: Result<Self, PacketError>)
        ensures
            match r {
                Ok(p) => p.wf() && p.spec_data() == data@,
                Err(e) => spec_parse(data@) == Err::<(nat, nat, nat, Seq<u8>), _>(e),
            },
    {
        match Self::parse_packet(data) {
            Ok((length, id, payload)) => Ok(
                Self { length, id, data: slice_to_vec(data), payload },
            ),
            Err(e) => Err(e),
        }
    }

    /// The whole frame: length, id and payload bytes.
    pub fn get_full_packet(&self) -> (r: &[u8])
        ensures
            r@ == self.spec_data(),
    {
        self.data.as_slice()
    }

    /// The payload: the frame without the length and id fields.
    pub fn get_payload(&self) -> (r: &[u8])
        ensures
            r@ == self.spec_payload(),
    {
        self.payload.as_slice()
    }

    /// A copy of the packet id.
    pub fn get_id(&self) -> (r: PacketId)
        ensures
            r == self.spec_id(),
    {
        self.id
    }

    /// The declared `length` field, as read from the wire.
    pub fn get_length(&self) -> (r: usize)
        ensures
            r == self.spec_length(),
    {
        self.length
    }

    /// The byte count of the whole received frame, like `len`.
    pub fn len_payload(&self) -> (r: usize)
        ensures
            r == self.spec_data().len(),
    {
        self.data.len()
    }

    /// The byte count of the whole received frame.
    pub fn len(&self) -> (r: usize)
        ensures
            r == self.spec_data().len(),
    {
        self.data.len()
    }

    /// Whether the declared length covers exactly the id and the payload,
    /// as the protocol intends.  The framer keeps a frame whose declared
    /// length disagrees — the field is advisory metadata — so a caller that
    /// wants strict framing rejects when this is false.
    pub fn length_matches(&self) -> (r: bool)
        ensures
            r == (self.spec_length() == self.spec_id().spec_byte_len()
                + self.spec_payload().len()),
    {
        if self.id.id_length > self.length {
            false
        } else {
            self.length - self.id.id_length == self.payload.len()
        }
    }

    /// Decodes the length VarInt, then the id VarInt from what follows, and
    /// slices the remainder as payload.
    fn parse_packet(data: &[u8]) -> (r: Result<(usize, PacketId, Vec<u8>), PacketError>)
        ensures
            match r {
                Ok((length, id, payload)) => spec_parse(data@) == Ok::<_, PacketError>(
                    (
                        length as nat,
                        (id.spec_value() as u32) as nat,
                        id.spec_byte_len() as nat,
                        payload@,
                    ),
                ),
                Err(e) => spec_parse(data@) == Err::<(nat, nat, nat, Seq<u8>), _>(e),
            },
    {
        let (length_value, length_len) = match crate::varint::read(data) {
            Ok(x) => x,
            Err(_) => {
                return Err(PacketError::LengthDecodingError);
            },
        };

        let except_length = &data[length_len..data.len()];
        proof {
            assert(except_length@ =~= data@.skip(length_len as int));
        }

        let (id_value, id_len) = match crate::varint::read(except_length) {
            Ok(x) => x,
            Err(_) => {
                return Err(PacketError::IdDecodingError);
            },
        };

        if length_value < 0 {
            proof {
                let lv = length_value;
                assert(lv < 0 <==> (lv as u32) >= 0x8000_0000) by (bit_vector);
            }
            return Err(PacketError::LengthDecodingError);
        }
        proof {
            let lv = length_value;
            assert(lv >= 0 <==> (lv as u32) < 0x8000_0000) by (bit_vector);
        }

        let payload = slice_to_vec(&except_length[id_len..except_length.len()]);
        proof {
            assert(payload@ =~= data@.skip((length_len + id_len) as int));
        }

        let id_obj = PacketId::new(id_value, id_len);
        Ok((length_value as usize, id_obj, payload))
    }
}

/// Framing round trip: a frame assembled on the wire's pattern — the
/// encoded declared length, then the encoded id, then the payload — parses
/// back into exactly those three parts, for every non-negative declared
/// length, every id and every payload.
pub proof fn lemma_frame_round_trip(length: i32, id: i32, payload: Seq<u8>)
    requires
        0 <= length,
    ensures
        spec_parse(
            varint_encoding(length as u32) + (varint_encoding(id as u32) + payload),
        ) == Ok::<_, PacketError>(
            (
                (length as u32) as nat,
                (id as u32) as nat,
                varint_encoding(id as u32).len() as nat,
                payload,
            ),
        ),
{
    let e1 = varint_encoding(length as u32);
    let e2 = varint_encoding(id as u32);
    let frame = e1 + (e2 + payload);

    lemma_varint_round_trip(length);
    lemma_varint_decode_prefix(e1, e2 + payload, 0, 0);
    assert(frame.skip(e1.len() as int) =~= e2 + payload);

    lemma_varint_round_trip(id);
    lemma_varint_decode_prefix(e2, payload, 0, 0);
    assert((e2 + payload).skip(e2.len() as int) =~= payload);

    assert(length >= 0 ==> (length as u32) < 0x8000_0000) by (bit_vector);
    assert(frame.skip((e1.len() + e2.len()) as int) =~= payload);
}

impl Default for Packet {
    /// An empty packet: no bytes, placeholder id, zero length.
    fn default() -> (r: Self)
        ensures
            r.spec_length() == 0,
            r.spec_id().spec_value() == 0,
            r.spec_id().spec_byte_len() == 0,
            r.spec_data() == Seq::<u8>::empty(),
            r.spec_payload() == Seq::<u8>::empty(),
    {
        Self { length: 0, id: PacketId { id: 0, id_length: 0 }, data: Vec::new(), payload: Vec::new() }
    }
}

} // verus!
