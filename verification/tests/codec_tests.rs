use std::collections::HashMap;

use copper::codec::CodecError;
use copper::{decode, encode, varint, varlong};

#[test]
fn test_encode_varint() {
    let mut values: HashMap<i32, Vec<u8>> = HashMap::new();

    values.insert(0, vec![0x00]);
    values.insert(1, vec![0x01]);
    values.insert(127, vec![0x7F]);
    values.insert(128, vec![0x80, 0x01]);
    values.insert(255, vec![0xFF, 0x01]);
    values.insert(25565, vec![0xDD, 0xC7, 0x01]);
    values.insert(2097151, vec![0xFF, 0xFF, 0x7F]);
    values.insert(2147483647, vec![0xFF, 0xFF, 0xFF, 0xFF, 0x07]);
    values.insert(-1, vec![0xff, 0xff, 0xff, 0xff, 0x0f]);
    values.insert(-2147483648, vec![0x80, 0x80, 0x80, 0x80, 0x08]);

    for (value, bytes) in values {
        let encoded_varint: Vec<u8> = encode::varint(value).expect("Failed to encode varint");
        assert_eq!(encoded_varint, bytes);
    }
}

#[test]
fn test_varint_read() {
    let values: HashMap<i32, Vec<u8>> = [
        (0, vec![0x00]),
        (1, vec![0x01]),
        (127, vec![0x7F]),
        (128, vec![0x80, 0x01]),
        (255, vec![0xFF, 0x01]),
        (25565, vec![0xDD, 0xC7, 0x01]),
        (2097151, vec![0xFF, 0xFF, 0x7F]),
        (i32::MAX, vec![0xFF, 0xFF, 0xFF, 0xFF, 0x07]),
        (-1, vec![0xff, 0xff, 0xff, 0xff, 0x0f]),
        (i32::MIN, vec![0x80, 0x80, 0x80, 0x80, 0x08]),
    ]
    .iter()
    .cloned()
    .collect();

    for (expected_value, encoded) in values.iter() {
        let (decoded_value, decoded_length) = varint::read(encoded).unwrap();
        assert_eq!(decoded_value, *expected_value);
        assert_eq!(decoded_length, encoded.len());
    }
}

#[test]
fn test_varint_write() {
    let values: HashMap<i32, Vec<u8>> = [
        (0, vec![0x00]),
        (1, vec![0x01]),
        (127, vec![0x7F]),
        (128, vec![0x80, 0x01]),
        (255, vec![0xFF, 0x01]),
        (25565, vec![0xDD, 0xC7, 0x01]),
        (2097151, vec![0xFF, 0xFF, 0x7F]),
        (i32::MAX, vec![0xFF, 0xFF, 0xFF, 0xFF, 0x07]),
        (-1, vec![0xff, 0xff, 0xff, 0xff, 0x0f]),
        (i32::MIN, vec![0x80, 0x80, 0x80, 0x80, 0x08]),
    ]
    .iter()
    .cloned()
    .collect();

    for (value, expected_encoded) in values.iter() {
        let encoded = varint::write(*value);
        assert_eq!(encoded, *expected_encoded);
    }
}

#[test]
fn test_varint_roundtrip() {
    // Test a range of values including edge cases
    let test_values = [
        i32::MIN,
        i32::MIN + 1,
        -1000000,
        -1,
        0,
        1,
        1000000,
        i32::MAX - 1,
        i32::MAX,
    ];
    for &value in &test_values {
        let encoded = varint::write(value);
        let (decoded, _) = varint::read(&encoded).unwrap();
        assert_eq!(value, decoded, "Roundtrip failed for value: {}", value);
    }

    // Test a range of random values
    let mut rng = rand::thread_rng();
    for _ in 0..10_000 {
        let value = rand::Rng::gen::<i32>(&mut rng);
        let encoded = varint::write(value);
        let (decoded, _) = varint::read(&encoded).unwrap();
        assert_eq!(
            value, decoded,
            "Roundtrip failed for random value: {}",
            value
        );
    }
}

#[test]
fn test_varint_invalid_input() {
    // Test for a VarInt that's too long
    let too_long = vec![0x80, 0x80, 0x80, 0x80, 0x80, 0x01];
    assert!(matches!(
        varint::read(&too_long),
        Err(CodecError::DecodeVarIntTooLong)
    ));
}

#[test]
fn test_varlong_read() {
    let values: HashMap<i64, Vec<u8>> = [
        (0, vec![0x00]),
        (1, vec![0x01]),
        (127, vec![0x7F]),
        (128, vec![0x80, 0x01]),
        (255, vec![0xFF, 0x01]),
        (25565, vec![0xDD, 0xC7, 0x01]),
        (2097151, vec![0xFF, 0xFF, 0x7F]),
        (
            i64::MAX,
            vec![0xFF, 0xFF, 0xFF, 0xFF, 0xFF, 0xFF, 0xFF, 0xFF, 0x7F],
        ),
        (
            -1,
            vec![0xFF, 0xFF, 0xFF, 0xFF, 0xFF, 0xFF, 0xFF, 0xFF, 0xFF, 0x01],
        ),
        (
            i64::MIN,
            vec![0x80, 0x80, 0x80, 0x80, 0x80, 0x80, 0x80, 0x80, 0x80, 0x01],
        ),
    ]
    .iter()
    .cloned()
    .collect();

    for (expected_value, encoded) in values.iter() {
        let (decoded_value, decoded_length) = varlong::read(encoded).unwrap();
        assert_eq!(decoded_value, *expected_value);
        assert_eq!(decoded_length, encoded.len());
    }
}

#[test]
fn test_varlong_write() {
    let values: HashMap<i64, Vec<u8>> = [
        (0, vec![0x00]),
        (1, vec![0x01]),
        (127, vec![0x7F]),
        (128, vec![0x80, 0x01]),
        (255, vec![0xFF, 0x01]),
        (25565, vec![0xDD, 0xC7, 0x01]),
        (2097151, vec![0xFF, 0xFF, 0x7F]),
        (
            i64::MAX,
            vec![0xFF, 0xFF, 0xFF, 0xFF, 0xFF, 0xFF, 0xFF, 0xFF, 0x7F],
        ),
        (
            -1,
            vec![0xFF, 0xFF, 0xFF, 0xFF, 0xFF, 0xFF, 0xFF, 0xFF, 0xFF, 0x01],
        ),
        (
            i64::MIN,
            vec![0x80, 0x80, 0x80, 0x80, 0x80, 0x80, 0x80, 0x80, 0x80, 0x01],
        ),
    ]
    .iter()
    .cloned()
    .collect();

    for (value, expected_encoded) in values.iter() {
        let encoded = varlong::write(*value);
        assert_eq!(encoded, *expected_encoded);
    }
}

#[test]
fn test_varlong_roundtrip() {
    // Test a range of values including edge cases
    let test_values = [
        i64::MIN,
        i64::MIN + 1,
        -1000000000000,
        -1,
        0,
        1,
        1000000000000,
        i64::MAX - 1,
        i64::MAX,
    ];

    for &value in &test_values {
        let encoded = varlong::write(value);
        let (decoded, _) = varlong::read(&encoded).unwrap();
        assert_eq!(value, decoded, "Roundtrip failed for value: {}", value);
    }

    // Test a range of random values
    let mut rng = rand::thread_rng();
    for _ in 0..10_000 {
        let value = rand::Rng::gen::<i64>(&mut rng);
        let encoded = varlong::write(value);
        let (decoded, _) = varlong::read(&encoded).unwrap();
        assert_eq!(
            value, decoded,
            "Roundtrip failed for random value: {}",
            value
        );
    }
}

#[test]
fn test_varlong_invalid_input() {
    // Test for a VarLong that's too long
    let too_long = vec![
        0x80, 0x80, 0x80, 0x80, 0x80, 0x80, 0x80, 0x80, 0x80, 0x80, 0x01,
    ];
    assert!(matches!(
        varlong::read(&too_long),
        Err(CodecError::DecodeVarLongTooLong)
    ));
}

#[test]
fn test_varint_read_under_length() {
    // An empty slice and a strict prefix of a valid encoding must fail.
    assert!(matches!(
        varint::read(&[]),
        Err(CodecError::DecodeVarIntTooShort)
    ));
    assert!(matches!(
        varint::read(&[0x80]),
        Err(CodecError::DecodeVarIntTooShort)
    ));
    assert!(matches!(
        varint::read(&[0x80, 0x80, 0x80]),
        Err(CodecError::DecodeVarIntTooShort)
    ));
}

#[test]
fn test_varlong_read_under_length() {
    assert!(matches!(
        varlong::read(&[]),
        Err(CodecError::DecodeVarLongTooShort)
    ));
    assert!(matches!(
        varlong::read(&[0xFF, 0xFF, 0xFF, 0xFF, 0xFF]),
        Err(CodecError::DecodeVarLongTooShort)
    ));
}

#[test]
fn test_encode_varlong_boundaries() {
    assert_eq!(encode::varlong(0).unwrap(), vec![0x00]);
    assert_eq!(encode::varlong(25565).unwrap(), vec![0xDD, 0xC7, 0x01]);
    assert_eq!(
        encode::varlong(-1).unwrap(),
        vec![0xFF, 0xFF, 0xFF, 0xFF, 0xFF, 0xFF, 0xFF, 0xFF, 0xFF, 0x01]
    );
}

#[test]
fn test_decode_varint() {
    assert_eq!(decode::varint(&[0xDD, 0xC7, 0x01]), Some((25565, 3)));
    assert_eq!(decode::varint(&[0x00, 0x55]), Some((0, 1)));
    assert_eq!(decode::varint(&[0x80, 0x80, 0x80, 0x80, 0x80, 0x01]), None);
    assert_eq!(decode::varint(&[]), None);
}

#[test]
fn test_decode_varlong() {
    assert_eq!(decode::varlong(&[0xDD, 0xC7, 0x01]), Some((25565, 3)));
    assert_eq!(
        decode::varlong(&[0xFF, 0xFF, 0xFF, 0xFF, 0xFF, 0xFF, 0xFF, 0xFF, 0xFF, 0x01]),
        Some((-1, 10))
    );
    assert_eq!(
        decode::varlong(&[0x80, 0x80, 0x80, 0x80, 0x80, 0x80, 0x80, 0x80, 0x80, 0x80, 0x01]),
        None
    );
    assert_eq!(decode::varlong(&[0x80]), None);
}
