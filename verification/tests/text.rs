//! String and code-page text transfer, including the deliberate encode-side
//! lossiness of the code-page writer.

use bin_serialization::CodecError;
use bin_serialization::Endianness;
use bin_serialization::Reflector;

#[test]
fn test_string_serialization() {
    let mut s = "Hey dude".to_string();
    let mut s2 = "Yo dude".to_string();
    let mut serializer = Reflector::writer(Endianness::LittleEndian);
    serializer.reflect_string(&mut s).unwrap();
    let stream_vec = serializer.into_bytes();
    let mut deserializer = Reflector::reader(&stream_vec[..], Endianness::LittleEndian);
    deserializer.reflect_string(&mut s2).unwrap();
    assert_eq!(s, s2);
}

#[test]
fn string_wire_layout() {
    let mut s = "abc".to_string();
    let mut w = Reflector::writer(Endianness::BigEndian);
    w.reflect_string(&mut s).unwrap();
    assert_eq!(w.into_bytes(), vec![1, 3, b'a', b'b', b'c']);
}

#[test]
fn string_utf8_round_trip() {
    // multi-byte characters travel as their raw UTF-8 bytes
    let mut s = "приставка".to_string();
    let mut w = Reflector::writer(Endianness::LittleEndian);
    w.reflect_string(&mut s).unwrap();
    let stream = w.into_bytes();
    let mut back = String::new();
    let mut r = Reflector::reader(&stream[..], Endianness::LittleEndian);
    r.reflect_string(&mut back).unwrap();
    assert_eq!(s, back);
}

#[test]
fn string_ext_forces_length_width() {
    let mut s = "hi".to_string();
    let mut w = Reflector::writer(Endianness::LittleEndian);
    w.reflect_string_ext(&mut s, bin_serialization::SizePolicy::U16).unwrap();
    assert_eq!(w.into_bytes(), vec![2, 2, 0, b'h', b'i']);
}

#[test]
fn cp866_ascii_round_trip() {
    let mut s = "DOS FILE".to_string();
    let mut w = Reflector::writer(Endianness::LittleEndian);
    w.reflect_cp866_string(&mut s).unwrap();
    let stream = w.into_bytes();
    assert_eq!(stream[0], 8);
    let mut back = String::new();
    let mut r = Reflector::reader(&stream[..], Endianness::LittleEndian);
    r.reflect_cp866_string(&mut back).unwrap();
    assert_eq!(back, "DOS FILE");
}

#[test]
fn cp866_decode_consults_code_page_table() {
    // 0x80 is the first high-half entry of code page 866 (Cyrillic А) and
    // 0xAF its forty-eighth (Cyrillic п); an identity decode would fail here
    let input = [2u8, 0x80, 0xAF];
    let mut s = String::new();
    let mut r = Reflector::reader(&input[..], Endianness::LittleEndian);
    r.reflect_cp866_string(&mut s).unwrap();
    assert_eq!(s, "Ап");
}

#[test]
fn cp866_encode_is_lossy_for_non_ascii() {
    // the documented quirk: the encode side never consults the code-page
    // table; a non-ASCII character becomes a literal space, and the length
    // byte counts UTF-8 bytes, so the original does not come back
    let mut s = "aé".to_string();
    let mut w = Reflector::writer(Endianness::LittleEndian);
    w.reflect_cp866_string(&mut s).unwrap();
    let stream = w.into_bytes();
    assert_eq!(stream, vec![3, b'a', b' ']);

    let mut back = String::new();
    let mut r = Reflector::reader(&stream[..], Endianness::LittleEndian);
    let res = r.reflect_cp866_string(&mut back);
    assert!(res.is_err() || back != "aé");
}

#[test]
fn cp866_zstring_round_trip_keeps_terminator() {
    let mut s = "AB".to_string();
    let mut w = Reflector::writer(Endianness::BigEndian);
    w.reflect_cp866_zstring(&mut s).unwrap();
    let stream = w.into_bytes();
    assert_eq!(stream, vec![b'A', b'B', 0]);

    let mut back = String::new();
    let mut r = Reflector::reader(&stream[..], Endianness::BigEndian);
    r.reflect_cp866_zstring(&mut back).unwrap();
    // the decoded terminator stays in the string
    assert_eq!(back, "AB\u{0}");
}

#[test]
fn cp866_zstring_without_terminator_fails() {
    let input = [b'A', b'B'];
    let mut s = String::new();
    let mut r = Reflector::reader(&input[..], Endianness::LittleEndian);
    assert_eq!(r.reflect_cp866_zstring(&mut s), Err(CodecError::ShortRead));
}

#[test]
fn string_length_short_read() {
    // the length field claims more bytes than the input holds
    let input = [1u8, 10, b'x'];
    let mut s = String::new();
    let mut r = Reflector::reader(&input[..], Endianness::LittleEndian);
    assert_eq!(r.reflect_string(&mut s), Err(CodecError::ShortRead));
}
