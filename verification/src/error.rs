//! Failure signals of the peer protocol and the library-wide error type.

use crate::hex::{hash_to_hex, hex_digit_char, hex_digit_str, hex_string};
use vstd::prelude::*;

verus! {

/// Why a peer connection ended, or failed to become usable.
#[derive(Debug, Clone, Copy, PartialEq, Eq, Structural)]
pub enum ProtocolError {
    /// The peer closed the connection, or the socket was reset.
    Disconnect,
    /// This side closed the connection on purpose.
    DisconnectByMe,
    /// The peer's handshake could not be understood.
    InvalidHandshake,
    /// The peer sent something else before its handshake.
    MissingHandshake,
    /// The peer did not send its handshake in time.
    HandshakeTimeout,
}

/// A number in decimal digits, without leading zeros.
pub open spec fn decimal_text(n: nat) -> Seq<char>
    decreases n,
{
    if n < 10 {
        seq![hex_digit_char(n)]
    } else {
        decimal_text(n / 10).push(hex_digit_char(n % 10))
    }
}

fn push_decimal(out: &mut String, n: u32)
    ensures
        final(out)@ == old(out)@ + decimal_text(n as nat),
    decreases n,
{
    if n < 10 {
        out.append(hex_digit_str(n as u8));
    } else {
        push_decimal(out, n / 10);
        out.append(hex_digit_str((n % 10) as u8));
        assert(final(out)@ =~= old(out)@ + decimal_text(n as nat));
    }
}

impl ProtocolError {
    /// What is said about the failure.
    pub open spec fn text(self) -> Seq<char> {
        match self {
            ProtocolError::Disconnect => "disconnect"@,
            ProtocolError::DisconnectByMe => "forced disconnect"@,
            ProtocolError::InvalidHandshake => "invalid handshake"@,
            ProtocolError::MissingHandshake => "missing handshake"@,
            ProtocolError::HandshakeTimeout => "handshake timeout"@,
        }
    }

    /// What is said about the failure.
    pub fn message(&self) -> (m: &'static str)
        ensures
            m@ == self.text(),
    {
        match self {
            ProtocolError::Disconnect => "disconnect",
            ProtocolError::DisconnectByMe => "forced disconnect",
            ProtocolError::InvalidHandshake => "invalid handshake",
            ProtocolError::MissingHandshake => "missing handshake",
            ProtocolError::HandshakeTimeout => "handshake timeout",
        }
    }

    /// Wraps the protocol failure in the library-wide error type.
    pub fn into_err(&self) -> (e: Error)
        ensures
            e == Error::ProtocolError(*self),
    {
        Error::ProtocolError(*self)
    }
}

/// Every failure the library reports.
///
/// Failures that arise outside the library (in the file system, in a
/// serialiser, in a request queue) are carried as the text that describes
/// them.
#[derive(Debug, Clone, PartialEq, Eq)]
pub enum Error {
    /// A file or socket operation failed.
    IO(String),
    /// A JSON document could not be read.
    InvalidJsonFormat(String),
    /// A binary payload could not be read.
    InvalidBinFormat(String),
    /// Stored metadata was written by an incompatible version.
    InvalidMetaVersion { detected_version: u32 },
    /// Stored metadata is missing.
    MetadataNotFound,
    /// A named internal service is not running.
    ServiceFail(&'static str),
    /// A request queue was closed or full.
    Mailbox(String),
    /// The request was dropped before it was answered.
    RequestCanceled(String),
    /// No resource is registered under this hash.
    ResourceNotFound(u128),
    /// A delivered block hashed to this value instead of the expected one.
    InvalidBlockHash(u128),
    /// The peer connection failed.
    ProtocolError(ProtocolError),
}

impl Error {
    /// What is said about the failure.
    pub open spec fn text(self) -> Seq<char> {
        match self {
            Error::IO(cause) => cause@,
            Error::InvalidJsonFormat(cause) => "invalid format: "@ + cause@,
            Error::InvalidBinFormat(cause) => "invalid format: "@ + cause@,
            Error::InvalidMetaVersion { detected_version } => "invalid metadata version: "@
                + decimal_text(detected_version as nat),
            Error::MetadataNotFound => "metadata not found"@,
            Error::ServiceFail(service) => service@ + " not working"@,
            Error::Mailbox(cause) => cause@,
            Error::RequestCanceled(cause) => "request canceled "@ + cause@,
            Error::ResourceNotFound(hash) => "resource "@ + hex_string(hash) + " not found"@,
            Error::InvalidBlockHash(hash) => "invalid block hash "@ + hex_string(hash),
            Error::ProtocolError(error) => error.text(),
        }
    }

    /// What is said about the failure.
    pub fn message(&self) -> (m: String)
        ensures
            m@ == self.text(),
    {
        match self {
            Error::IO(cause) => cause.clone(),
            Error::InvalidJsonFormat(cause) => {
                let mut m = String::from_str("invalid format: ");
                m.append(cause.as_str());
                m
            },
            Error::InvalidBinFormat(cause) => {
                let mut m = String::from_str("invalid format: ");
                m.append(cause.as_str());
                m
            },
            Error::InvalidMetaVersion { detected_version } => {
                let mut m = String::from_str("invalid metadata version: ");
                push_decimal(&mut m, *detected_version);
                m
            },
            Error::MetadataNotFound => String::from_str("metadata not found"),
            Error::ServiceFail(service) => {
                let mut m = String::from_str(service);
                m.append(" not working");
                m
            },
            Error::Mailbox(cause) => cause.clone(),
            Error::RequestCanceled(cause) => {
                let mut m = String::from_str("request canceled ");
                m.append(cause.as_str());
                m
            },
            Error::ResourceNotFound(hash) => {
                let mut m = String::from_str("resource ");
                m.append(hash_to_hex(*hash).as_str());
                m.append(" not found");
                m
            },
            Error::InvalidBlockHash(hash) => {
                let mut m = String::from_str("invalid block hash ");
                m.append(hash_to_hex(*hash).as_str());
                m
            },
            Error::ProtocolError(error) => String::from_str(error.message()),
        }
    }
}

} // verus!
