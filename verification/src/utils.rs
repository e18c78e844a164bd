//! Printable representations of byte buffers: hexadecimal and binary, one
//! group per byte, separated by single spaces.

use vstd::prelude::*;

verus! {

/// The ASCII code of the hexadecimal digit for `n`, using upper-case
/// letters.
pub open spec fn hex_digit(n: u8) -> u8
    recommends
        n < 16,
{
    if n < 10 {
        (48 + n) as u8
    } else {
        (55 + n) as u8
    }
}

/// The two hexadecimal digits of one byte, high nibble first.
pub open spec fn hex_pair(b: u8) -> Seq<u8> {
    seq![hex_digit(b / 16), hex_digit(b % 16)]
}

/// Hex groups for every byte of `data`, each preceded by a space.
pub open spec fn spec_hex_tail(data: Seq<u8>) -> Seq<u8>
    decreases data.len(),
{
    if data.len() == 0 {
        Seq::empty()
    } else {
        seq![32u8] + hex_pair(data[0]) + spec_hex_tail(data.drop_first())
    }
}

/// The ASCII bytes of the space-separated hexadecimal representation of
/// `data`.
pub open spec fn spec_hex_repr(data: Seq<u8>) -> Seq<u8> {
    if data.len() == 0 {
        Seq::empty()
    } else {
        hex_pair(data[0]) + spec_hex_tail(data.drop_first())
    }
}

/// The ASCII code of binary digit `k` (counting from the least significant
/// bit) of `b`.
pub open spec fn bin_bit(b: u8, k: u32) -> u8 {
    if (b >> k) & 1 == 1 {
        49u8
    } else {
        48u8
    }
}

/// The eight binary digits of one byte, most significant first.
pub open spec fn bin_octet(b: u8) -> Seq<u8> {
    seq![
        bin_bit(b, 7),
        bin_bit(b, 6),
        bin_bit(b, 5),
        bin_bit(b, 4),
        bin_bit(b, 3),
        bin_bit(b, 2),
        bin_bit(b, 1),
        bin_bit(b, 0),
    ]
}

/// Binary octets for every byte of `data`, each preceded by a space.
pub open spec fn spec_bin_tail(data: Seq<u8>) -> Seq<u8>
    decreases data.len(),
{
    if data.len() == 0 {
        Seq::empty()
    } else {
        seq![32u8] + bin_octet(data[0]) + spec_bin_tail(data.drop_first())
    }
}

/// The ASCII bytes of the space-separated binary representation of `data`.
pub open spec fn spec_bin_repr(data: Seq<u8>) -> Seq<u8> {
    if data.len() == 0 {
        Seq::empty()
    } else {
        bin_octet(data[0]) + spec_bin_tail(data.drop_first())
    }
}

/// Builds a `String` out of bytes that are all ASCII: one `char` per byte,
/// with the same code point.
fn ascii_string(bytes: Vec<u8>) -> (r: String)
    requires
        forall|i: int| 0 <= i < bytes@.len() ==> bytes@[i] < 128,
    ensures
        r@ == bytes@.map_values(|b: u8| b as char),
{
    proof {
        crate::text::lemma_ascii_decode(bytes@);
    }
    match crate::text::utf8_string(bytes) {
        Some(s) => s,
        None => vstd::pervasive::unreached(),
    }
}

/// The ASCII code of the hexadecimal digit for `n`.
fn hex_digit_of(n: u8) -> (r: u8)
    requires
        n < 16,
    ensures
        r == hex_digit(n),
        r < 128,
{
    if n < 10 {
        48 + n
    } else {
        55 + n
    }
}

/// Returns the space-separated, upper-case hexadecimal representation of
/// `data` as a `String`: two digits per byte.
pub fn get_hex_repr(data: &[u8]) -> (r: String)
    ensures
        r@ == spec_hex_repr(data@).map_values(|b: u8| b as char),
{
    if data.len() == 0 {
        proof {
            assert(Seq::<u8>::empty().map_values(|b: u8| b as char) =~= Seq::<char>::empty());
        }
        return String::new();
    }

    let mut out: Vec<u8> = Vec::new();
    let b0 = data[0];
    proof {
        assert(b0 >> 4 == b0 / 16 && (b0 & 0x0f) == b0 % 16) by (bit_vector);
    }
    out.push(hex_digit_of(b0 >> 4));
    out.push(hex_digit_of(b0 & 0x0f));
    proof {
        assert(out@ =~= hex_pair(data@[0]));
        assert(data@.drop_first() =~= data@.skip(1));
    }

    let mut i: usize = 1;
    while i < data.len()
        invariant
            1 <= i <= data@.len(),
            forall|j: int| 0 <= j < out@.len() ==> out@[j] < 128,
            out@ + spec_hex_tail(data@.skip(i as int)) == spec_hex_repr(data@),
        decreases data@.len() - i,
    {
        let ghost rest = data@.skip(i as int);
        proof {
            assert(rest[0] == data@[i as int]);
            assert(rest.drop_first() =~= data@.skip(i as int + 1));
        }
        let b = data[i];
        proof {
            assert(b >> 4 == b / 16 && (b & 0x0f) == b % 16) by (bit_vector);
        }
        let ghost out0 = out@;
        out.push(32);
        out.push(hex_digit_of(b >> 4));
        out.push(hex_digit_of(b & 0x0f));
        proof {
            assert(out@ =~= out0 + (seq![32u8] + hex_pair(rest[0])));
            assert(out@ + spec_hex_tail(data@.skip(i as int + 1)) =~= out0 + spec_hex_tail(rest));
        }
        i = i + 1;
    }
    proof {
        assert(spec_hex_tail(data@.skip(i as int)) =~= Seq::<u8>::empty());
        assert(out@ =~= spec_hex_repr(data@));
    }
    ascii_string(out)
}

/// Appends the eight binary digits of `b`, most significant first.
fn push_octet(out: &mut Vec<u8>, b: u8)
    ensures
        final(out)@ == old(out)@ + bin_octet(b),
        forall|j: int|
            old(out)@.len() <= j < final(out)@.len() ==> final(out)@[j] == 48 || final(out)@[j]
                == 49,
{
    out.push(if (b >> 7) & 1 == 1 { 49 } else { 48 });
    out.push(if (b >> 6) & 1 == 1 { 49 } else { 48 });
    out.push(if (b >> 5) & 1 == 1 { 49 } else { 48 });
    out.push(if (b >> 4) & 1 == 1 { 49 } else { 48 });
    out.push(if (b >> 3) & 1 == 1 { 49 } else { 48 });
    out.push(if (b >> 2) & 1 == 1 { 49 } else { 48 });
    out.push(if (b >> 1) & 1 == 1 { 49 } else { 48 });
    out.push(if (b >> 0) & 1 == 1 { 49 } else { 48 });
    proof {
        assert(final(out)@ =~= old(out)@ + bin_octet(b));
    }
}

/// Returns the space-separated binary representation of `data` as a
/// `String`: eight digits per byte.
pub fn get_bin_repr(data: &[u8]) -> (r: String)
    ensures
        r@ == spec_bin_repr(data@).map_values(|b: u8| b as char),
{
    if data.len() == 0 {
        proof {
            assert(Seq::<u8>::empty().map_values(|b: u8| b as char) =~= Seq::<char>::empty());
        }
        return String::new();
    }

    let mut out: Vec<u8> = Vec::new();
    push_octet(&mut out, data[0]);
    proof {
        assert(out@ =~= bin_octet(data@[0]));
        assert(data@.drop_first() =~= data@.skip(1));
    }

    let mut i: usize = 1;
    while i < data.len()
        invariant
            1 <= i <= data@.len(),
            forall|j: int| 0 <= j < out@.len() ==> out@[j] < 128,
            out@ + spec_bin_tail(data@.skip(i as int)) == spec_bin_repr(data@),
        decreases data@.len() - i,
    {
        let ghost rest = data@.skip(i as int);
        proof {
            assert(rest[0] == data@[i as int]);
            assert(rest.drop_first() =~= data@.skip(i as int + 1));
        }
        let ghost out0 = out@;
        out.push(32);
        push_octet(&mut out, data[i]);
        proof {
            assert(out@ =~= out0 + (seq![32u8] + bin_octet(rest[0])));
            assert(out@ + spec_bin_tail(data@.skip(i as int + 1)) =~= out0 + spec_bin_tail(rest));
        }
        i = i + 1;
    }
    proof {
        assert(spec_bin_tail(data@.skip(i as int)) =~= Seq::<u8>::empty());
        assert(out@ =~= spec_bin_repr(data@));
    }
    ascii_string(out)
}

} // verus!
