//! Tagged composites: the discriminant travels first at its fixed width, the
//! variant's fields follow, and an unrecognized discriminant is a hard error.

use bin_serialization::CodecError;
use bin_serialization::Endianness;
use bin_serialization::Reflector;
use bin_serialization::SizePolicy;
use bin_serialization::TaggedReflectable;

#[derive(Debug, Clone, PartialEq)]
enum Shape {
    Circle { radius: u32 },
    Rect { width: u16, height: u16 },
}

impl TaggedReflectable for Shape {
    fn blank() -> Self {
        Shape::Circle { radius: 0 }
    }

    fn get_size_policy() -> SizePolicy {
        SizePolicy::U8
    }

    fn get_tag(&self) -> u64 {
        match self {
            Shape::Circle { .. } => 1,
            Shape::Rect { .. } => 2,
        }
    }

    fn reflect_tagged(&mut self, tag: u64, reflector: &mut Reflector) -> Result<(), CodecError> {
        match tag {
            1 => {
                if !matches!(self, Shape::Circle { .. }) {
                    *self = Shape::Circle { radius: 0 };
                }
                if let Shape::Circle { radius } = self {
                    reflector.reflect_u32(radius)
                } else {
                    unreachable!()
                }
            }
            2 => {
                if !matches!(self, Shape::Rect { .. }) {
                    *self = Shape::Rect { width: 0, height: 0 };
                }
                if let Shape::Rect { width, height } = self {
                    reflector.reflect_u16(width)?;
                    reflector.reflect_u16(height)
                } else {
                    unreachable!()
                }
            }
            _ => Err(CodecError::UnknownTag),
        }
    }
}

#[test]
fn tagged_round_trip_tag_one() {
    let mut original = Shape::Circle { radius: 77 };
    let mut stream: Vec<u8> = Vec::new();
    original.serialize(&mut stream, Endianness::LittleEndian).unwrap();
    assert_eq!(stream, vec![1, 77, 0, 0, 0]);
    let back = Shape::deserialize(&stream[..], Endianness::LittleEndian).unwrap();
    assert_eq!(back, original);
    assert_eq!(back.get_tag(), 1);
}

#[test]
fn tagged_round_trip_second_variant() {
    let mut original = Shape::Rect { width: 3, height: 0x0102 };
    let mut stream: Vec<u8> = Vec::new();
    original.serialize(&mut stream, Endianness::BigEndian).unwrap();
    assert_eq!(stream, vec![2, 0, 3, 1, 2]);
    let back = Shape::deserialize(&stream[..], Endianness::BigEndian).unwrap();
    assert_eq!(back, original);
}

#[test]
fn unknown_tag_is_fatal() {
    let stream = [9u8, 0, 0, 0, 0];
    let res = Shape::deserialize(&stream[..], Endianness::LittleEndian);
    assert_eq!(res, Err(CodecError::UnknownTag));
}

#[test]
fn tagged_array_round_trip() {
    let mut items = vec![
        Shape::Circle { radius: 1 },
        Shape::Rect { width: 2, height: 3 },
        Shape::Circle { radius: u32::MAX },
    ];
    let mut w = Reflector::writer(Endianness::LittleEndian);
    w.reflect_array_of_tagged_composites(&mut items).unwrap();
    let stream = w.into_bytes();
    assert_eq!(stream[0], 1);
    assert_eq!(stream[1], 3);
    let mut back: Vec<Shape> = Vec::new();
    let mut r = Reflector::reader(&stream[..], Endianness::LittleEndian);
    r.reflect_array_of_tagged_composites(&mut back).unwrap();
    assert_eq!(back, items);
}

#[test]
fn tagged_array_ext_round_trip() {
    let mut items = vec![Shape::Rect { width: 9, height: 9 }];
    let mut w = Reflector::writer(Endianness::LittleEndian);
    w.reflect_array_of_tagged_composites_ext(&mut items, SizePolicy::U16).unwrap();
    let stream = w.into_bytes();
    assert_eq!(&stream[..3], &[2, 1, 0]);
    let mut back: Vec<Shape> = Vec::new();
    let mut r = Reflector::reader(&stream[..], Endianness::LittleEndian);
    r.reflect_array_of_tagged_composites_ext(&mut back, SizePolicy::U16).unwrap();
    assert_eq!(back, items);
}

#[test]
fn tagged_composite_inside_reflector() {
    let mut shape = Shape::Circle { radius: 5 };
    let mut w = Reflector::writer(Endianness::LittleEndian);
    w.reflect_tagged_composite(&mut shape).unwrap();
    assert_eq!(w.into_bytes(), vec![1, 5, 0, 0, 0]);
}
