//! Plain composites driven through serialize and deserialize.

use bin_serialization::CodecError;
use bin_serialization::Endianness;
use bin_serialization::Reflectable;
use bin_serialization::Reflector;

#[derive(Debug, Clone, Copy, PartialEq)]
struct TestStruct {
    a: u32,
    b: u16,
    c: u32,
    d: u64,
    e: u8,
    f: u8,
}

impl Reflectable for TestStruct {
    fn blank() -> Self {
        TestStruct { a: 0, b: 0, c: 0, d: 0, e: 0, f: 0 }
    }

    fn reflect(&mut self, reflector: &mut Reflector) -> Result<(), CodecError> {
        reflector.reflect_u32(&mut self.a)?;
        reflector.reflect_u16(&mut self.b)?;
        reflector.reflect_u32(&mut self.c)?;
        reflector.reflect_u64(&mut self.d)?;
        reflector.reflect_u8(&mut self.e)?;
        reflector.reflect_u8(&mut self.f)
    }
}

#[test]
fn test_trivial_reads() {
    let test_set = &[
        0, 0, 1, 0, 1, 0, 1, 0, 0, 0, 1, 0, 0, 0, 0, 0, 0, 0, 1, 1,
    ];
    let le = TestStruct::deserialize(&test_set[..], Endianness::LittleEndian).unwrap();
    let be = TestStruct::deserialize(&test_set[..], Endianness::BigEndian).unwrap();

    assert_eq!(le.a, 0x00010000);
    assert_eq!(le.b, 1);
    assert_eq!(le.c, 1);
    assert_eq!(le.d, 1);
    assert_eq!(le.e, 1);
    assert_eq!(le.f, 1);

    assert_eq!(be.a, 0x00000100);
    assert_eq!(be.b, 0x0100);
    assert_eq!(be.c, 0x01000000);
    assert_eq!(be.d, 0x0100000000000000);
    assert_eq!(be.e, 1);
    assert_eq!(be.f, 1);
}

#[test]
fn test_incorrect_length() {
    let test_set1 = &[0, 0, 1, 0, 1, 0, 1, 0, 0, 0, 1, 0, 0, 0, 0, 0, 0, 0];
    let test_set2 = &[0, 0, 1, 0, 1, 0, 1, 0, 0, 0, 1, 0, 0, 0, 0, 0, 0, 0, 0, 0, 0];
    let deserialize_trial = TestStruct::deserialize(&test_set1[..], Endianness::LittleEndian);
    assert!(deserialize_trial.is_err());
    let deserialize_trial = TestStruct::deserialize(&test_set2[..], Endianness::LittleEndian);
    assert!(deserialize_trial.is_ok());
}

#[test]
fn composite_round_trip_both_endiannesses() {
    let mut original = TestStruct { a: 0xAABBCCDD, b: 0x1122, c: 7, d: u64::MAX, e: 0, f: 255 };
    for endianness in [Endianness::LittleEndian, Endianness::BigEndian] {
        let mut stream: Vec<u8> = Vec::new();
        original.serialize(&mut stream, endianness).unwrap();
        assert_eq!(stream.len(), 20);
        let back = TestStruct::deserialize(&stream[..], endianness).unwrap();
        assert_eq!(original, back);
    }
}

#[test]
fn composite_array_round_trip() {
    let mut items = vec![
        TestStruct { a: 1, b: 2, c: 3, d: 4, e: 5, f: 6 },
        TestStruct { a: 10, b: 20, c: 30, d: 40, e: 50, f: 60 },
        TestStruct { a: u32::MAX, b: u16::MAX, c: 0, d: 0, e: 0, f: 1 },
    ];
    let mut writer = Reflector::writer(Endianness::BigEndian);
    writer.reflect_array_of_composites(&mut items).unwrap();
    let stream = writer.into_bytes();
    // one tag byte, one length byte, then three 20-byte records
    assert_eq!(stream.len(), 2 + 3 * 20);
    assert_eq!(stream[0], 1);
    assert_eq!(stream[1], 3);

    let mut read_back: Vec<TestStruct> = Vec::new();
    let mut reader = Reflector::reader(&stream[..], Endianness::BigEndian);
    reader.reflect_array_of_composites(&mut read_back).unwrap();
    assert_eq!(items, read_back);
}

#[test]
fn serialize_appends_after_existing_bytes() {
    let mut value = TestStruct { a: 1, b: 1, c: 1, d: 1, e: 1, f: 1 };
    let mut stream: Vec<u8> = vec![0xEE, 0xFF];
    value.serialize(&mut stream, Endianness::LittleEndian).unwrap();
    assert_eq!(stream.len(), 22);
    assert_eq!(&stream[..2], &[0xEE, 0xFF]);
}
