use bytes::{Bytes, BytesMut};
use minecraft_server::error::PacketError;
use minecraft_server::fields::{
    read_string, read_unsigned_short, read_uuid, write_string, PlayerUuid,
};

#[test]
fn reads_short_most_significant_first() {
    let mut buf = Bytes::from_static(&[0x63, 0xDD, 0x09]);
    assert_eq!(read_unsigned_short(&mut buf), Ok(25565));
    assert_eq!(&buf[..], &[0x09]);
    let mut largest = Bytes::from_static(&[0xFF, 0xFF]);
    assert_eq!(read_unsigned_short(&mut largest), Ok(65535));
}

#[test]
fn refuses_half_a_short() {
    let mut buf = Bytes::from_static(&[0x63]);
    assert_eq!(read_unsigned_short(&mut buf), Err(PacketError::ShortTruncated));
    assert_eq!(&buf[..], &[0x63]);
}

#[test]
fn string_round_trip() {
    let long = "x".repeat(300);
    for text in ["", "localhost", "gr\u{fc}n", "\u{1F600}", long.as_str()] {
        let mut buf = BytesMut::new();
        assert_eq!(write_string(text, &mut buf), Ok(()));
        buf.extend_from_slice(b"rest");
        let mut buf = buf.freeze();
        assert_eq!(read_string(&mut buf), Ok(String::from(text)));
        assert_eq!(&buf[..], b"rest");
    }
}

#[test]
fn string_is_its_length_and_its_bytes() {
    let mut buf = BytesMut::new();
    assert_eq!(write_string("gr\u{fc}n", &mut buf), Ok(()));
    assert_eq!(&buf[..], &[0x05, b'g', b'r', 0xC3, 0xBC, b'n']);
}

#[test]
fn patches_bytes_that_are_not_utf8() {
    let mut buf = Bytes::from_static(&[0x03, b'a', 0xFF, b'b', b'c']);
    assert_eq!(read_string(&mut buf), Ok(String::from("a\u{fffd}b")));
    assert_eq!(&buf[..], b"c");
}

#[test]
fn refuses_string_that_ends_early() {
    let mut buf = Bytes::from_static(&[0x04, b'a', b'b', b'c']);
    assert_eq!(read_string(&mut buf), Err(PacketError::StringTruncated));
    assert_eq!(&buf[..], b"abc");
    let mut empty = Bytes::new();
    assert_eq!(read_string(&mut empty), Err(PacketError::VarIntTruncated));
    let mut endless = Bytes::from_static(&[0x80, 0x80, 0x80, 0x80, 0x80, 0x01]);
    assert_eq!(read_string(&mut endless), Err(PacketError::VarIntTooBig));
}

#[test]
fn reads_uuid_halves() {
    let mut buf = Bytes::from_static(&[
        0xa1, 0xa2, 0xa3, 0xa4, 0xb1, 0xb2, 0xc1, 0xc2, 0xd1, 0xd2, 0xd3, 0xd4, 0xd5, 0xd6, 0xd7,
        0xd8, 0x01,
    ]);
    assert_eq!(
        read_uuid(&mut buf),
        Ok(PlayerUuid { high: 0xa1a2a3a4b1b2c1c2, low: 0xd1d2d3d4d5d6d7d8 })
    );
    assert_eq!(&buf[..], &[0x01]);
}

#[test]
fn refuses_uuid_that_ends_early() {
    let mut buf = Bytes::from_static(&[0x11; 15]);
    assert_eq!(read_uuid(&mut buf), Err(PacketError::UuidTruncated));
    assert_eq!(buf.len(), 15);
}
