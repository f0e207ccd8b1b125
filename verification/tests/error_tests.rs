use hyperg::error::{Error, ProtocolError};

#[test]
fn protocol_error_wraps_into_error() {
    assert_eq!(
        ProtocolError::HandshakeTimeout.into_err(),
        Error::ProtocolError(ProtocolError::HandshakeTimeout)
    );
    assert_eq!(ProtocolError::Disconnect.into_err(), Error::ProtocolError(ProtocolError::Disconnect));
}

#[test]
fn protocol_error_messages() {
    assert_eq!(ProtocolError::Disconnect.message(), "disconnect");
    assert_eq!(ProtocolError::DisconnectByMe.message(), "forced disconnect");
    assert_eq!(ProtocolError::InvalidHandshake.message(), "invalid handshake");
    assert_eq!(ProtocolError::MissingHandshake.message(), "missing handshake");
    assert_eq!(ProtocolError::HandshakeTimeout.message(), "handshake timeout");
}

#[test]
fn error_messages() {
    assert_eq!(Error::IO("disk full".to_string()).message(), "disk full");
    assert_eq!(
        Error::InvalidJsonFormat("eof".to_string()).message(),
        "invalid format: eof"
    );
    assert_eq!(Error::InvalidBinFormat("eof".to_string()).message(), "invalid format: eof");
    assert_eq!(
        Error::InvalidMetaVersion { detected_version: 0 }.message(),
        "invalid metadata version: 0"
    );
    assert_eq!(
        Error::InvalidMetaVersion { detected_version: 12 }.message(),
        "invalid metadata version: 12"
    );
    assert_eq!(
        Error::InvalidMetaVersion { detected_version: u32::MAX }.message(),
        "invalid metadata version: 4294967295"
    );
    assert_eq!(Error::MetadataNotFound.message(), "metadata not found");
    assert_eq!(Error::ServiceFail("database").message(), "database not working");
    assert_eq!(Error::Mailbox("closed".to_string()).message(), "closed");
    assert_eq!(
        Error::RequestCanceled("oneshot canceled".to_string()).message(),
        "request canceled oneshot canceled"
    );
    assert_eq!(
        Error::ResourceNotFound(0xab).message(),
        "resource 000000000000000000000000000000ab not found"
    );
    assert_eq!(
        Error::InvalidBlockHash(u128::MAX).message(),
        "invalid block hash ffffffffffffffffffffffffffffffff"
    );
    assert_eq!(
        Error::ProtocolError(ProtocolError::MissingHandshake).message(),
        "missing handshake"
    );
}
