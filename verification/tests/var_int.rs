use bytes::{Bytes, BytesMut};
use minecraft_server::error::PacketError;
use minecraft_server::packet_length::PacketLengthReader;
use minecraft_server::var_int::{read_var_int, write_var_int};

const SAMPLES: [(u32, &[u8]); 12] = [
    (0, &[0x00]),
    (1, &[0x01]),
    (127, &[0x7F]),
    (128, &[0x80, 0x01]),
    (255, &[0xFF, 0x01]),
    (300, &[0xAC, 0x02]),
    (16383, &[0xFF, 0x7F]),
    (16384, &[0x80, 0x80, 0x01]),
    (25565, &[0xDD, 0xC7, 0x01]),
    (2097151, &[0xFF, 0xFF, 0x7F]),
    (268435455, &[0xFF, 0xFF, 0xFF, 0x7F]),
    (u32::MAX, &[0xFF, 0xFF, 0xFF, 0xFF, 0x0F]),
];

/// Feeds bytes to a reader until it has a length or an error.
fn stream_length(bytes: &[u8]) -> Result<Option<u32>, PacketError> {
    let mut reader = PacketLengthReader::new();
    for byte in bytes {
        match reader.push(*byte) {
            Ok(None) => {}
            done => return done,
        }
    }
    Ok(None)
}

#[test]
fn writes_known_var_ints() {
    for (value, bytes) in SAMPLES {
        let mut buf = BytesMut::new();
        assert_eq!(write_var_int(value, &mut buf), Ok(bytes.len() as u8));
        assert_eq!(&buf[..], bytes);
    }
}

#[test]
fn writing_appends() {
    let mut buf = BytesMut::from(&b"ab"[..]);
    assert_eq!(write_var_int(300, &mut buf), Ok(2));
    assert_eq!(&buf[..], &[b'a', b'b', 0xAC, 0x02]);
}

#[test]
fn reads_back_var_ints_and_leaves_the_rest() {
    for (value, bytes) in SAMPLES {
        let mut all = bytes.to_vec();
        all.extend_from_slice(&[0x85, 0x00, 0x42]);
        let mut buf = Bytes::from(all);
        assert_eq!(read_var_int(&mut buf), Ok(value));
        assert_eq!(&buf[..], &[0x85, 0x00, 0x42]);
    }
}

#[test]
fn reads_padded_var_int() {
    let mut buf = Bytes::from_static(&[0x81, 0x80, 0x80, 0x00, 0x07]);
    assert_eq!(read_var_int(&mut buf), Ok(1));
    assert_eq!(&buf[..], &[0x07]);
}

#[test]
fn fifth_group_keeps_four_bits() {
    let mut buf = Bytes::from_static(&[0x80, 0x80, 0x80, 0x80, 0x7F]);
    assert_eq!(read_var_int(&mut buf), Ok(0xF000_0000));
    assert!(buf.is_empty());
}

#[test]
fn refuses_var_int_that_ends_early() {
    let mut empty = Bytes::new();
    assert_eq!(read_var_int(&mut empty), Err(PacketError::VarIntTruncated));
    let mut cut = Bytes::from_static(&[0x80, 0x80]);
    assert_eq!(read_var_int(&mut cut), Err(PacketError::VarIntTruncated));
    assert!(cut.is_empty());
}

#[test]
fn refuses_var_int_of_six_groups() {
    let mut buf = Bytes::from_static(&[0xFF, 0xFF, 0xFF, 0xFF, 0xFF, 0x01]);
    assert_eq!(read_var_int(&mut buf), Err(PacketError::VarIntTooBig));
    assert_eq!(&buf[..], &[0x01]);
}

#[test]
fn stream_gives_the_same_lengths() {
    for (value, bytes) in SAMPLES {
        assert_eq!(stream_length(bytes), Ok(Some(value)));
        assert_eq!(stream_length(&bytes[..bytes.len() - 1]), Ok(None));
    }
    assert_eq!(stream_length(&[0x80, 0x80, 0x80, 0x80, 0x7F]), Ok(Some(0xF000_0000)));
}

#[test]
fn stream_refuses_length_of_six_groups() {
    let bytes = [0x80, 0x80, 0x80, 0x80, 0x80];
    assert_eq!(stream_length(&bytes[..4]), Ok(None));
    assert_eq!(stream_length(&bytes), Err(PacketError::PacketLengthTooBig));
}
