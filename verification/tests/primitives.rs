//! Primitive transfers: exact wire bytes and bit-exact round trips for every
//! scalar the codec carries, under both byte orders.

use bin_serialization::check;
use bin_serialization::CodecError;
use bin_serialization::Direction;
use bin_serialization::Endianness;
use bin_serialization::Reflector;

#[test]
fn test_integers_and_floats_serialization() {
    let mut a: i8 = 13;
    let mut b: i16 = 3123;
    let mut c: i32 = -23123131;
    let d: f32 = 10.43345;
    let e: f64 = 17.1231231;
    let mut d_bits = d.to_bits();
    let mut e_bits = e.to_bits();

    let mut a1: i8 = 0;
    let mut b1: i16 = 0;
    let mut c1: i32 = 0;
    let mut d1_bits: u32 = 0;
    let mut e1_bits: u64 = 0;

    let mut serializer = Reflector::writer(Endianness::LittleEndian);
    serializer.reflect_i8(&mut a).unwrap();
    serializer.reflect_i16(&mut b).unwrap();
    serializer.reflect_i32(&mut c).unwrap();
    serializer.reflect_f32_bits(&mut d_bits).unwrap();
    serializer.reflect_f64_bits(&mut e_bits).unwrap();
    let stream_vec = serializer.into_bytes();

    let mut deserializer = Reflector::reader(&stream_vec[..], Endianness::LittleEndian);
    deserializer.reflect_i8(&mut a1).unwrap();
    deserializer.reflect_i16(&mut b1).unwrap();
    deserializer.reflect_i32(&mut c1).unwrap();
    deserializer.reflect_f32_bits(&mut d1_bits).unwrap();
    deserializer.reflect_f64_bits(&mut e1_bits).unwrap();

    assert_eq!(a, a1);
    assert_eq!(b, b1);
    assert_eq!(c, c1);
    assert_eq!(d, f32::from_bits(d1_bits));
    assert_eq!(e, f64::from_bits(e1_bits));
}

#[test]
fn u32_endianness_bytes() {
    let mut v: u32 = 0x00010203;
    let mut w = Reflector::writer(Endianness::BigEndian);
    w.reflect_u32(&mut v).unwrap();
    assert_eq!(w.into_bytes(), vec![0x00, 0x01, 0x02, 0x03]);

    let mut w = Reflector::writer(Endianness::LittleEndian);
    w.reflect_u32(&mut v).unwrap();
    assert_eq!(w.into_bytes(), vec![0x03, 0x02, 0x01, 0x00]);
}

#[test]
fn u16_and_u64_exact_bytes() {
    let mut v16: u16 = 0xBEEF;
    let mut w = Reflector::writer(Endianness::BigEndian);
    w.reflect_u16(&mut v16).unwrap();
    assert_eq!(w.into_bytes(), vec![0xBE, 0xEF]);

    let mut w = Reflector::writer(Endianness::LittleEndian);
    w.reflect_u16(&mut v16).unwrap();
    assert_eq!(w.into_bytes(), vec![0xEF, 0xBE]);

    let mut v64: u64 = 0x0102030405060708;
    let mut w = Reflector::writer(Endianness::BigEndian);
    w.reflect_u64(&mut v64).unwrap();
    assert_eq!(w.into_bytes(), vec![1, 2, 3, 4, 5, 6, 7, 8]);

    let mut w = Reflector::writer(Endianness::LittleEndian);
    w.reflect_u64(&mut v64).unwrap();
    assert_eq!(w.into_bytes(), vec![8, 7, 6, 5, 4, 3, 2, 1]);
}

#[test]
fn signed_bit_patterns_on_the_wire() {
    let mut v: i16 = -2;
    let mut w = Reflector::writer(Endianness::BigEndian);
    w.reflect_i16(&mut v).unwrap();
    assert_eq!(w.into_bytes(), vec![0xFF, 0xFE]);

    let mut v: i8 = -128;
    let mut w = Reflector::writer(Endianness::LittleEndian);
    w.reflect_i8(&mut v).unwrap();
    assert_eq!(w.into_bytes(), vec![0x80]);
}

#[test]
fn signed_extremes_round_trip() {
    for endianness in [Endianness::LittleEndian, Endianness::BigEndian] {
        let mut w = Reflector::writer(endianness);
        let mut a: i32 = i32::MIN;
        let mut b: i64 = i64::MIN;
        let mut c: i8 = i8::MIN;
        let mut d: i16 = i16::MIN;
        w.reflect_i32(&mut a).unwrap();
        w.reflect_i64(&mut b).unwrap();
        w.reflect_i8(&mut c).unwrap();
        w.reflect_i16(&mut d).unwrap();
        let bytes = w.into_bytes();
        let mut r = Reflector::reader(&bytes[..], endianness);
        let (mut a1, mut b1, mut c1, mut d1): (i32, i64, i8, i16) = (0, 0, 0, 0);
        r.reflect_i32(&mut a1).unwrap();
        r.reflect_i64(&mut b1).unwrap();
        r.reflect_i8(&mut c1).unwrap();
        r.reflect_i16(&mut d1).unwrap();
        assert_eq!((a, b, c, d), (a1, b1, c1, d1));
    }
}

#[test]
fn nan_payload_survives_round_trip() {
    // a quiet NaN with a nonzero payload: the bit pattern must come back
    // exactly, not just "some NaN"
    let nan_bits: u32 = 0x7FC00A01;
    assert!(f32::from_bits(nan_bits).is_nan());
    for endianness in [Endianness::LittleEndian, Endianness::BigEndian] {
        let mut w = Reflector::writer(endianness);
        let mut bits = nan_bits;
        w.reflect_f32_bits(&mut bits).unwrap();
        let bytes = w.into_bytes();
        let mut r = Reflector::reader(&bytes[..], endianness);
        let mut back: u32 = 0;
        r.reflect_f32_bits(&mut back).unwrap();
        assert_eq!(back, nan_bits);
    }

    let nan_bits64: u64 = 0x7FF800000000BEEF;
    assert!(f64::from_bits(nan_bits64).is_nan());
    let mut w = Reflector::writer(Endianness::BigEndian);
    let mut bits = nan_bits64;
    w.reflect_f64_bits(&mut bits).unwrap();
    let bytes = w.into_bytes();
    let mut r = Reflector::reader(&bytes[..], Endianness::BigEndian);
    let mut back: u64 = 0;
    r.reflect_f64_bits(&mut back).unwrap();
    assert_eq!(back, nan_bits64);
}

#[test]
fn unsigned_round_trip_both_endiannesses() {
    for endianness in [Endianness::LittleEndian, Endianness::BigEndian] {
        let mut w = Reflector::writer(endianness);
        let mut a: u8 = 0xFE;
        let mut b: u16 = 0xFEDC;
        let mut c: u32 = 0xFEDCBA98;
        let mut d: u64 = 0xFEDCBA9876543210;
        w.reflect_u8(&mut a).unwrap();
        w.reflect_u16(&mut b).unwrap();
        w.reflect_u32(&mut c).unwrap();
        w.reflect_u64(&mut d).unwrap();
        let bytes = w.into_bytes();
        assert_eq!(bytes.len(), 15);
        let mut r = Reflector::reader(&bytes[..], endianness);
        let (mut a1, mut b1, mut c1, mut d1): (u8, u16, u32, u64) = (0, 0, 0, 0);
        r.reflect_u8(&mut a1).unwrap();
        r.reflect_u16(&mut b1).unwrap();
        r.reflect_u32(&mut c1).unwrap();
        r.reflect_u64(&mut d1).unwrap();
        assert_eq!((a, b, c, d), (a1, b1, c1, d1));
    }
}

#[test]
fn bool_canonical_encode_tolerant_decode() {
    let mut w = Reflector::writer(Endianness::LittleEndian);
    let mut t = true;
    let mut f = false;
    w.reflect_bool(&mut t).unwrap();
    w.reflect_bool(&mut f).unwrap();
    assert_eq!(w.into_bytes(), vec![1, 0]);

    // any nonzero byte decodes to true
    let input = [5u8, 0u8];
    let mut r = Reflector::reader(&input[..], Endianness::BigEndian);
    let mut a = false;
    let mut b = true;
    r.reflect_bool(&mut a).unwrap();
    r.reflect_bool(&mut b).unwrap();
    assert!(a);
    assert!(!b);
}

#[test]
fn short_read_reports_short_read() {
    let input = [1u8, 2u8, 3u8];
    let mut r = Reflector::reader(&input[..], Endianness::LittleEndian);
    let mut v: u32 = 0;
    assert_eq!(r.reflect_u32(&mut v), Err(CodecError::ShortRead));
    // the failed read consumed nothing: a narrower read still works
    let mut w: u16 = 0;
    r.reflect_u16(&mut w).unwrap();
    assert_eq!(w, 0x0201);
}

#[test]
fn reflector_bindings_and_check() {
    let input = [1u8, 2, 3, 4];
    let mut r = Reflector::reader(&input[..], Endianness::BigEndian);
    assert_eq!(r.get_direction(), Direction::Reading);
    assert_eq!(r.get_endianness(), Endianness::BigEndian);
    assert_eq!(r.bytes_consumed(), 0);
    let mut v: u16 = 0;
    r.reflect_u16(&mut v).unwrap();
    assert_eq!(v, 0x0102);
    assert_eq!(r.bytes_consumed(), 2);

    assert_eq!(check(true, CodecError::ShortWrite), Ok(()));
    assert_eq!(check(false, CodecError::ShortWrite), Err(CodecError::ShortWrite));

    let w = Reflector::writer(Endianness::LittleEndian);
    assert_eq!(w.get_direction(), Direction::Writing);
    assert_eq!(w.get_endianness(), Endianness::LittleEndian);
}
