use bytes::{Bytes, BytesMut};
use minecraft_server::error::PacketError;
use minecraft_server::packet::{decode_packet, encode_packet, packet_buffer};
use minecraft_server::packet_length::PacketLengthReader;

#[test]
fn frames_a_packet() {
    let packet = encode_packet(0x27, &Bytes::from_static(b"abc")).unwrap();
    assert_eq!(&packet[..], &[0x04, 0x27, b'a', b'b', b'c']);
    let empty = encode_packet(3, &Bytes::new()).unwrap();
    assert_eq!(&empty[..], &[0x01, 0x03]);
}

#[test]
fn long_identifier_counts_in_the_length() {
    let packet = encode_packet(300, &Bytes::from(vec![7; 200])).unwrap();
    assert_eq!(&packet[..4], &[0xCA, 0x01, 0xAC, 0x02]);
    assert_eq!(packet.len(), 204);
}

#[test]
fn packets_come_back_from_a_stream() {
    let sent: [(u32, Vec<u8>); 4] =
        [(0, vec![]), (0x42, vec![1, 2, 3]), (u32::MAX, vec![9; 128]), (130, vec![0; 20000])];
    let mut stream: Vec<u8> = Vec::new();
    for (protocol, payload) in &sent {
        let packet = encode_packet(*protocol, &Bytes::from(payload.clone())).unwrap();
        stream.extend_from_slice(&packet);
    }
    let mut at: usize = 0;
    for (protocol, payload) in &sent {
        let mut reader = PacketLengthReader::new();
        let length = loop {
            let step = reader.push(stream[at]).unwrap();
            at += 1;
            if let Some(length) = step {
                break length;
            }
        };
        let mut buffer = packet_buffer(length);
        buffer.copy_from_slice(&stream[at..at + length as usize]);
        at += length as usize;
        let (id, rest) = decode_packet(buffer).unwrap();
        assert_eq!(id, *protocol);
        assert_eq!(&rest[..], &payload[..]);
    }
    assert_eq!(at, stream.len());
}

#[test]
fn packet_buffer_is_zeroed() {
    assert_eq!(&packet_buffer(5)[..], &[0; 5]);
    assert!(packet_buffer(0).is_empty());
}

#[test]
fn refuses_packet_without_identifier() {
    assert_eq!(decode_packet(BytesMut::new()), Err(PacketError::VarIntTruncated));
    let endless = BytesMut::from(&[0x80u8, 0x80, 0x80, 0x80, 0x80][..]);
    assert_eq!(decode_packet(endless), Err(PacketError::VarIntTooBig));
}
