use minecraft_server::error::{PacketError, PacketErrorKind};

#[test]
fn errors_describe_themselves() {
    let expected = [
        (PacketError::VarIntTruncated, "Buffer empty while reading VarInt"),
        (PacketError::VarIntTooBig, "VarInt is too big"),
        (PacketError::PacketLengthTooBig, "VarInt too big"),
        (PacketError::ShortTruncated, "buffer too short"),
        (PacketError::StringTruncated, "Buffer too short"),
        (PacketError::UuidTruncated, "Incomplete UUID"),
        (PacketError::InvalidState(0), "Invalid state value: 0"),
        (PacketError::InvalidState(1234567890), "Invalid state value: 1234567890"),
        (PacketError::InvalidState(u32::MAX), "Invalid state value: 4294967295"),
        (PacketError::KeepAliveMismatch, "Keep-alive ID mismatch"),
    ];
    for (error, text) in expected {
        assert_eq!(error.message(), text);
    }
}

#[test]
fn errors_have_kinds() {
    for error in [
        PacketError::ShortTruncated,
        PacketError::StringTruncated,
        PacketError::UuidTruncated,
    ] {
        assert_eq!(error.kind(), PacketErrorKind::UnexpectedEof);
    }
    for error in [
        PacketError::VarIntTruncated,
        PacketError::VarIntTooBig,
        PacketError::PacketLengthTooBig,
        PacketError::InvalidState(7),
        PacketError::KeepAliveMismatch,
    ] {
        assert_eq!(error.kind(), PacketErrorKind::InvalidData);
    }
}
