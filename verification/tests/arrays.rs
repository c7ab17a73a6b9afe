//! Length-prefixed primitive collections: the carried-over read test, round
//! trips, forced widths, and resize-on-read behavior.

use bin_serialization::Endianness;
use bin_serialization::Reflector;
use bin_serialization::SizePolicy;

#[test]
fn test_array_read() {
    let test_set = &[
        1, 20, 1, 2, 3, 4, 5, 6, 7, 8, 9, 10, 11, 12, 13, 14, 15, 16, 17, 18, 19, 20,
    ];
    let mut deserializer = Reflector::reader(&test_set[..], Endianness::LittleEndian);
    let mut vec = vec![0u8; 20];
    deserializer.reflect_u8_array(&mut vec).unwrap();
    assert_eq!(
        vec,
        vec![1, 2, 3, 4, 5, 6, 7, 8, 9, 10, 11, 12, 13, 14, 15, 16, 17, 18, 19, 20]
    );
    let test_set = &[
        1, 20, 1, 2, 3, 4, 5, 6, 7, 8, 9, 10, 11, 12, 13, 14, 15, 16, 17, 18, 19, 20,
    ];
    let mut deserializer = Reflector::reader(&test_set[..], Endianness::BigEndian);
    let mut vec = vec![0u8; 20];
    deserializer.reflect_u8_array(&mut vec).unwrap();
    assert_eq!(
        vec,
        vec![1, 2, 3, 4, 5, 6, 7, 8, 9, 10, 11, 12, 13, 14, 15, 16, 17, 18, 19, 20]
    );
}

#[test]
fn byte_array_round_trip_both_endiannesses() {
    let original: Vec<u8> = (1..=20).collect();
    for endianness in [Endianness::LittleEndian, Endianness::BigEndian] {
        let mut data = original.clone();
        let mut w = Reflector::writer(endianness);
        w.reflect_u8_array(&mut data).unwrap();
        let stream = w.into_bytes();
        // tag byte 1, length byte 20, then the 20 payload bytes, identical
        // under either byte order
        assert_eq!(stream[0], 1);
        assert_eq!(stream[1], 20);
        assert_eq!(&stream[2..], &original[..]);

        let mut back: Vec<u8> = Vec::new();
        let mut r = Reflector::reader(&stream[..], endianness);
        r.reflect_u8_array(&mut back).unwrap();
        assert_eq!(back, original);
    }
}

#[test]
fn u32_array_round_trip() {
    let original: Vec<u32> = vec![0, 1, 0x01020304, u32::MAX];
    for endianness in [Endianness::LittleEndian, Endianness::BigEndian] {
        let mut data = original.clone();
        let mut w = Reflector::writer(endianness);
        w.reflect_u32_array(&mut data).unwrap();
        let stream = w.into_bytes();
        assert_eq!(stream.len(), 2 + 4 * 4);
        let mut back: Vec<u32> = vec![7, 7];
        let mut r = Reflector::reader(&stream[..], endianness);
        r.reflect_u32_array(&mut back).unwrap();
        assert_eq!(back, original);
    }
}

#[test]
fn i16_array_exact_bytes() {
    let mut data: Vec<i16> = vec![-1, 2];
    let mut w = Reflector::writer(Endianness::BigEndian);
    w.reflect_i16_array(&mut data).unwrap();
    assert_eq!(w.into_bytes(), vec![1, 2, 0xFF, 0xFF, 0x00, 0x02]);
}

#[test]
fn array_ext_forces_length_width() {
    let mut data: Vec<u8> = vec![7, 8];
    let mut w = Reflector::writer(Endianness::LittleEndian);
    w.reflect_u8_array_ext(&mut data, SizePolicy::U16).unwrap();
    assert_eq!(w.into_bytes(), vec![2, 2, 0, 7, 8]);

    let mut data: Vec<u64> = vec![1];
    let mut w = Reflector::writer(Endianness::BigEndian);
    w.reflect_u64_array_ext(&mut data, SizePolicy::U32).unwrap();
    assert_eq!(w.into_bytes(), vec![4, 0, 0, 0, 1, 0, 0, 0, 0, 0, 0, 0, 1]);
}

#[test]
fn read_resizes_to_decoded_length() {
    // a shorter destination grows, a longer one shrinks
    let stream = [1u8, 3, 10, 20, 30];
    let mut shorter: Vec<u8> = vec![1];
    let mut r = Reflector::reader(&stream[..], Endianness::LittleEndian);
    r.reflect_u8_array(&mut shorter).unwrap();
    assert_eq!(shorter, vec![10, 20, 30]);

    let mut longer: Vec<u8> = vec![1, 2, 3, 4, 5, 6];
    let mut r = Reflector::reader(&stream[..], Endianness::LittleEndian);
    r.reflect_u8_array(&mut longer).unwrap();
    assert_eq!(longer, vec![10, 20, 30]);
}

#[test]
fn bool_array_round_trip() {
    let mut data = vec![true, false, true, true];
    let mut w = Reflector::writer(Endianness::LittleEndian);
    w.reflect_bool_array(&mut data).unwrap();
    let stream = w.into_bytes();
    assert_eq!(stream, vec![1, 4, 1, 0, 1, 1]);
    let mut back: Vec<bool> = Vec::new();
    let mut r = Reflector::reader(&stream[..], Endianness::LittleEndian);
    r.reflect_bool_array(&mut back).unwrap();
    assert_eq!(back, data);
}

#[test]
fn f64_bits_array_round_trip() {
    let values = [0.0f64, -0.0, 1.5, f64::INFINITY];
    let mut data: Vec<u64> = values.iter().map(|v| v.to_bits()).collect();
    let expected = data.clone();
    let mut w = Reflector::writer(Endianness::BigEndian);
    w.reflect_f64_bits_array(&mut data).unwrap();
    let stream = w.into_bytes();
    let mut back: Vec<u64> = Vec::new();
    let mut r = Reflector::reader(&stream[..], Endianness::BigEndian);
    r.reflect_f64_bits_array(&mut back).unwrap();
    assert_eq!(back, expected);
    // the sign of zero is a distinct bit pattern and must survive
    assert!(f64::from_bits(back[1]).is_sign_negative());
}

#[test]
fn array_payload_short_read_fails() {
    // length says 5, only 3 payload bytes present
    let stream = [1u8, 5, 1, 2, 3];
    let mut data: Vec<u8> = Vec::new();
    let mut r = Reflector::reader(&stream[..], Endianness::LittleEndian);
    assert!(r.reflect_u8_array(&mut data).is_err());
}
