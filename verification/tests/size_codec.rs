//! The self-describing size codec: width-tag boundaries, exact layouts,
//! forced widths, and the corrupt-tag error.

use bin_serialization::CodecError;
use bin_serialization::Endianness;
use bin_serialization::Reflector;
use bin_serialization::SizePolicy;

fn encode_size(n: usize, endianness: Endianness) -> Vec<u8> {
    let mut w = Reflector::writer(endianness);
    let mut size = n;
    w.reflect_size(&mut size).unwrap();
    w.into_bytes()
}

#[test]
fn size_tag_boundaries() {
    assert_eq!(encode_size(255, Endianness::LittleEndian)[0], 1);
    assert_eq!(encode_size(256, Endianness::LittleEndian)[0], 2);
    assert_eq!(encode_size(65535, Endianness::LittleEndian)[0], 2);
    assert_eq!(encode_size(65536, Endianness::LittleEndian)[0], 4);
}

#[test]
fn size_exact_layouts() {
    assert_eq!(encode_size(0, Endianness::LittleEndian), vec![1, 0]);
    assert_eq!(encode_size(255, Endianness::BigEndian), vec![1, 255]);
    assert_eq!(encode_size(256, Endianness::LittleEndian), vec![2, 0, 1]);
    assert_eq!(encode_size(256, Endianness::BigEndian), vec![2, 1, 0]);
    assert_eq!(encode_size(65536, Endianness::LittleEndian), vec![4, 0, 0, 1, 0]);
    assert_eq!(encode_size(65536, Endianness::BigEndian), vec![4, 0, 1, 0, 0]);
}

#[test]
fn size_round_trip() {
    for n in [0usize, 1, 127, 255, 256, 65535, 65536, 0xFFFF_FFFF, 0x1_0000_0000] {
        for endianness in [Endianness::LittleEndian, Endianness::BigEndian] {
            let bytes = encode_size(n, endianness);
            let mut r = Reflector::reader(&bytes[..], endianness);
            let mut back: usize = 0;
            r.reflect_size(&mut back).unwrap();
            assert_eq!(back, n);
        }
    }
}

#[test]
fn size_forced_width() {
    let mut w = Reflector::writer(Endianness::LittleEndian);
    let mut size: usize = 5;
    w.reflect_size_ext(&mut size, SizePolicy::U32).unwrap();
    assert_eq!(w.into_bytes(), vec![4, 5, 0, 0, 0]);

    let mut w = Reflector::writer(Endianness::BigEndian);
    let mut size: usize = 5;
    w.reflect_size_ext(&mut size, SizePolicy::U64).unwrap();
    assert_eq!(w.into_bytes(), vec![8, 0, 0, 0, 0, 0, 0, 0, 5]);

    // the decoder is driven by the wire tag, so a forced encode reads back
    // through the ordinary size decode
    let mut w = Reflector::writer(Endianness::BigEndian);
    let mut size: usize = 300;
    w.reflect_size_ext(&mut size, SizePolicy::U16).unwrap();
    let bytes = w.into_bytes();
    assert_eq!(bytes, vec![2, 1, 44]);
    let mut r = Reflector::reader(&bytes[..], Endianness::BigEndian);
    let mut back: usize = 0;
    r.reflect_size(&mut back).unwrap();
    assert_eq!(back, 300);
}

#[test]
fn corrupt_size_tag_is_fatal() {
    // 3 is not one of the width tags 1, 2, 4, 8
    let input = [3u8, 0u8, 0u8];
    let mut r = Reflector::reader(&input[..], Endianness::LittleEndian);
    let mut size: usize = 0;
    assert_eq!(r.reflect_size(&mut size), Err(CodecError::CorruptSizeTag));

    // the same byte fails the array operations the same way
    let mut v: Vec<u8> = Vec::new();
    let mut r = Reflector::reader(&input[..], Endianness::LittleEndian);
    assert_eq!(r.reflect_u8_array(&mut v), Err(CodecError::CorruptSizeTag));
}

#[test]
fn size_short_read() {
    // a valid tag announcing two length bytes, but only one present
    let input = [2u8, 7u8];
    let mut r = Reflector::reader(&input[..], Endianness::LittleEndian);
    let mut size: usize = 0;
    assert_eq!(r.reflect_size(&mut size), Err(CodecError::ShortRead));

    let empty: [u8; 0] = [];
    let mut r = Reflector::reader(&empty[..], Endianness::BigEndian);
    assert_eq!(r.reflect_size(&mut size), Err(CodecError::ShortRead));
}
