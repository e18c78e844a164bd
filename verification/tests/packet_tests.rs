use copper::packet::{Packet, PacketError, PacketId};
use copper::utils::{get_bin_repr, get_hex_repr};
use copper::varint;

#[test]
fn test_packet_creation_valid() {
    // Length = ID + Data = 4
    // ID = 4
    // Data = &[1, 2, 3]
    let init_data = &[4, 4, 1, 2, 3];

    let packet: Packet = Packet::new(init_data).expect("Failed to create packet");

    assert_eq!(packet.get_length(), 4);
    assert_eq!(packet.len(), init_data.len());
    assert_eq!(packet.get_id().get_value(), 4);
    assert_eq!(packet.get_payload(), &[1, 2, 3]);
    assert_eq!(packet.get_full_packet(), init_data);
}

#[test]
fn test_packet_creation_invalid_length_too_short() {
    // Length = 1
    // ID = 4
    // Data = &[1, 2, 3]
    let init_data = &[1, 4, 1, 2, 3];

    let packet: Packet = Packet::new(init_data).expect("Failed to create packet");

    assert_eq!(packet.get_length(), 1);
    assert_eq!(packet.len(), init_data.len());
    assert_eq!(packet.get_id().get_value(), 4);
    assert_eq!(packet.get_payload(), &[1, 2, 3]);
    assert_eq!(packet.get_full_packet(), init_data);
}

#[test]
fn test_packet_creation_invalid_length_too_long() {
    // Length = 2048
    // ID = 4
    // Data = &[1, 2, 3]

    let mut init_data = varint::write(2048); // Length
    init_data.push(4); // ID
    init_data.push(1); // Data
    init_data.push(2);
    init_data.push(3);

    let packet: Packet = Packet::new(&init_data).expect("Failed to create packet");

    assert_eq!(packet.get_length(), 2048);
    assert_eq!(packet.get_id().get_value(), 4);
    assert_eq!(packet.get_payload(), &[1, 2, 3]);

    assert_eq!(packet.get_full_packet(), init_data);
    assert_eq!(packet.len(), init_data.len());
}

#[test]
fn test_packet_creation_valid_varint_length() {
    // Length = 256
    // ID = 4
    // Data = &[255; u8], 255 because it's + 1 with the ID
    let mut init_data: Vec<u8> = varint::write(256);
    init_data.push(4);
    let data: &[u8] = &(1..=255).collect::<Vec<u8>>()[..];
    init_data.extend(data);

    let packet: Packet = Packet::new(&init_data).expect("Failed to create packet");

    assert_eq!(packet.get_length(), 256);
    assert_eq!(packet.get_id().get_value(), 4);
    assert_eq!(packet.get_payload(), data);

    assert_eq!(packet.get_full_packet(), init_data);
    assert_eq!(packet.len(), init_data.len());
}

#[test]
fn test_packet_creation_valid_varint_length_id() {
    // Length = ID(varint) + Data = ?
    // ID = 1000
    // Data = &[1, 2, 3]
    let id = varint::write(1000);
    let data = &[1, 2, 3];
    let length = varint::write((id.len() + data.len()) as i32);

    let mut init_data = Vec::new();
    init_data.extend(length);
    init_data.extend(&id);
    init_data.extend(data);

    let packet: Packet = Packet::new(&init_data).expect("Failed to create packet");

    assert_eq!(packet.get_length(), id.len() + data.len());
    assert_eq!(packet.get_id().get_value(), 1000);
    assert_eq!(packet.get_payload(), data);

    assert_eq!(packet.get_full_packet(), init_data);
    assert_eq!(packet.len(), init_data.len());
}

#[test]
fn test_packet_creation_errors() {
    // No bytes at all: the length VarInt cannot be decoded.
    assert!(matches!(
        Packet::new(&[]),
        Err(PacketError::LengthDecodingError)
    ));
    // A truncated length VarInt.
    assert!(matches!(
        Packet::new(&[0x80]),
        Err(PacketError::LengthDecodingError)
    ));
    // A good length but a truncated id VarInt.
    assert!(matches!(
        Packet::new(&[5, 0x80]),
        Err(PacketError::IdDecodingError)
    ));
    // A negative declared length is rejected once the id has been decoded.
    let mut negative = varint::write(-1);
    negative.push(0);
    assert!(matches!(
        Packet::new(&negative),
        Err(PacketError::LengthDecodingError)
    ));
}

#[test]
fn test_packet_length_matches() {
    // Declared length 4 covers the 1-byte id plus 3 payload bytes.
    let good = Packet::new(&[4, 4, 1, 2, 3]).expect("Failed to create packet");
    assert!(good.length_matches());

    // Declared length 1 does not cover the 3 payload bytes.
    let short = Packet::new(&[1, 4, 1, 2, 3]).expect("Failed to create packet");
    assert!(!short.length_matches());

    let mut long = varint::write(2048);
    long.push(4);
    long.extend_from_slice(&[1, 2, 3]);
    let long = Packet::new(&long).expect("Failed to create packet");
    assert!(!long.length_matches());
}

#[test]
fn test_packet_default() {
    let packet = Packet::default();
    assert_eq!(packet.get_length(), 0);
    assert_eq!(packet.get_id().get_value(), 0);
    assert_eq!(packet.get_id().len(), 0);
    assert_eq!(packet.len(), 0);
    assert_eq!(packet.len_payload(), 0);
    assert_eq!(packet.get_full_packet(), &[] as &[u8]);
    assert_eq!(packet.get_payload(), &[] as &[u8]);
}

#[test]
fn test_packet_id_accessors() {
    let id = PacketId::new(1000, 2);
    assert_eq!(id.get_value(), 1000);
    assert_eq!(id.len(), 2);
    assert!(PacketId::get_type().is_none());

    let default_id = PacketId::default();
    assert_eq!(default_id.get_value(), 0);
    assert_eq!(default_id.len(), 0);
}

#[test]
fn test_get_hex_repr() {
    assert_eq!(get_hex_repr(&[]), "");
    assert_eq!(get_hex_repr(&[0x00]), "00");
    assert_eq!(get_hex_repr(&[0x00, 0xFF, 0x1A]), "00 FF 1A");
    assert_eq!(get_hex_repr(&[0xDD, 0xC7, 0x01]), "DD C7 01");
}

#[test]
fn test_get_bin_repr() {
    assert_eq!(get_bin_repr(&[]), "");
    assert_eq!(get_bin_repr(&[5]), "00000101");
    assert_eq!(get_bin_repr(&[0x80, 0x01]), "10000000 00000001");
}
