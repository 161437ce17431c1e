use velocity_proxy::io::{ByteReader, IoError};
use velocity_proxy::types::{MCData, MCString, Uuid, VarInt};

fn varint_bytes(value: i32) -> Vec<u8> {
    let mut out = Vec::new();
    VarInt::new(value).unwrap().write(&mut out).unwrap();
    out
}

#[test]
fn varint_zero_is_one_zero_byte() {
    assert_eq!(varint_bytes(0), vec![0x00]);
    assert_eq!(VarInt::new(0).unwrap().byte_size(), 1);
}

#[test]
fn varint_known_encodings() {
    assert_eq!(varint_bytes(1), vec![0x01]);
    assert_eq!(varint_bytes(127), vec![0x7f]);
    assert_eq!(varint_bytes(128), vec![0x80, 0x01]);
    assert_eq!(varint_bytes(255), vec![0xff, 0x01]);
    assert_eq!(varint_bytes(25565), vec![0xdd, 0xc7, 0x01]);
    assert_eq!(varint_bytes(2097151), vec![0xff, 0xff, 0x7f]);
    assert_eq!(varint_bytes(i32::MAX), vec![0xff, 0xff, 0xff, 0xff, 0x07]);
    assert_eq!(varint_bytes(-1), vec![0xff, 0xff, 0xff, 0xff, 0x0f]);
    assert_eq!(varint_bytes(i32::MIN), vec![0x80, 0x80, 0x80, 0x80, 0x08]);
}

#[test]
fn varint_round_trip_and_size() {
    for value in [0, 1, 2, 127, 128, 16383, 16384, 2097151, 2097152, 268435455, 268435456, i32::MAX, -1, -128, i32::MIN] {
        let bytes = varint_bytes(value);
        assert!(bytes.len() <= 5);
        assert_eq!(VarInt::new(value).unwrap().byte_size(), bytes.len());
        let mut reader = ByteReader::new(&bytes);
        let back = VarInt::read(&mut reader).unwrap();
        assert_eq!(back.get(), value);
        assert_eq!(reader.remaining(), 0);
    }
}

#[test]
fn varint_sixth_byte_is_invalid_data() {
    let bytes = [0x80u8, 0x80, 0x80, 0x80, 0x80, 0x00];
    let mut reader = ByteReader::new(&bytes);
    assert_eq!(VarInt::read(&mut reader).err(), Some(IoError::InvalidData));
    let bytes = [0xffu8, 0xff, 0xff, 0xff, 0xff, 0xff, 0x01];
    let mut reader = ByteReader::new(&bytes);
    assert_eq!(VarInt::read(&mut reader).err(), Some(IoError::InvalidData));
}

#[test]
fn varint_that_ends_early_is_unexpected_eof() {
    let bytes = [0x80u8, 0x80];
    let mut reader = ByteReader::new(&bytes);
    assert_eq!(VarInt::read(&mut reader).err(), Some(IoError::UnexpectedEof));
    let bytes: [u8; 0] = [];
    let mut reader = ByteReader::new(&bytes);
    assert_eq!(VarInt::read(&mut reader).err(), Some(IoError::UnexpectedEof));
}

#[test]
fn string_round_trip() {
    for text in ["", "Guest", "proxy.example", "h\u{e9}llo \u{1F600}"] {
        let s = MCString::<32767>::new(text.to_string()).unwrap();
        let mut out = Vec::new();
        s.write(&mut out).unwrap();
        assert_eq!(out.len(), s.byte_size());
        assert_eq!(out[0] as usize, text.len());
        assert_eq!(&out[1..], text.as_bytes());
        let mut reader = ByteReader::new(&out);
        let back = MCString::<32767>::read(&mut reader).unwrap();
        assert_eq!(back.as_str(), text);
        assert_eq!(reader.remaining(), 0);
    }
}

#[test]
fn string_limit_on_construction() {
    assert!(MCString::<16>::new("a".repeat(16)).is_ok());
    assert!(MCString::<16>::new("a".repeat(17)).is_err());
    assert!(MCString::<32767>::new("a".repeat(32767)).is_ok());
    assert!(MCString::<32767>::new("a".repeat(32768)).is_err());
}

#[test]
fn string_limit_on_read() {
    let mut bytes = vec![17u8];
    bytes.extend_from_slice(&[b'a'; 17]);
    let mut reader = ByteReader::new(&bytes);
    assert_eq!(MCString::<16>::read(&mut reader).err(), Some(IoError::InvalidData));
    let mut reader = ByteReader::new(&bytes);
    assert_eq!(MCString::<32767>::read(&mut reader).unwrap().as_str(), "a".repeat(17));
}

#[test]
fn string_invalid_utf8_is_replaced() {
    let bytes = [3u8, b'a', 0xff, b'b'];
    let mut reader = ByteReader::new(&bytes);
    let text = MCString::<32767>::read(&mut reader).unwrap();
    assert_eq!(text.as_str(), "a\u{fffd}b");
}

#[test]
fn string_that_ends_early_is_unexpected_eof() {
    let bytes = [5u8, b'a', b'b'];
    let mut reader = ByteReader::new(&bytes);
    assert_eq!(MCString::<32767>::read(&mut reader).err(), Some(IoError::UnexpectedEof));
}

#[test]
fn string_negative_length_is_invalid_data() {
    let bytes = [0xffu8, 0xff, 0xff, 0xff, 0x0f, b'a'];
    let mut reader = ByteReader::new(&bytes);
    assert_eq!(MCString::<32767>::read(&mut reader).err(), Some(IoError::InvalidData));
}

#[test]
fn uuid_is_big_endian() {
    let id = Uuid(0x0123456789abcdef_0123456789abcdef);
    let mut out = Vec::new();
    id.write(&mut out).unwrap();
    assert_eq!(out, 0x0123456789abcdef_0123456789abcdefu128.to_be_bytes().to_vec());
    assert_eq!(id.byte_size(), 16);
    let mut reader = ByteReader::new(&out);
    assert_eq!(Uuid::read(&mut reader).unwrap().0, id.0);
}

#[test]
fn fixed_integers_are_big_endian() {
    let bytes = [0x63u8, 0xdd, 0xff];
    let mut reader = ByteReader::new(&bytes);
    assert_eq!(reader.read_u16(), Ok(25565));
    assert_eq!(reader.read_u8(), Ok(0xff));
    assert_eq!(reader.read_u8(), Err(IoError::UnexpectedEof));
    assert_eq!(reader.read_u16(), Err(IoError::UnexpectedEof));
}

#[test]
fn varint_from_a_number_and_back() {
    let v = VarInt::try_from(25565).unwrap();
    assert_eq!(*v, 25565);
    assert_eq!(v.get(), 25565);
    assert_eq!(v, VarInt::new(25565).unwrap());
    assert_eq!(*Uuid(77), 77);
}
