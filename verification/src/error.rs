//! Errors that the codec and the drivers report.

use vstd::prelude::*;

verus! {

/// What went wrong inside a secure-channel session.
#[derive(Debug, Clone, Copy, PartialEq, Eq)]
pub enum SecureSessionError {
    /// A secured frame was needed, or a secure operation was asked for, and no
    /// secure session stands.
    NotSecure,
    /// A handshake step arrived out of order.
    BadTransition,
    /// The application denied key material for the handshake.
    KeyUnavailable,
    /// The peer's cryptogram does not match.
    BadCryptogram,
    /// A frame's MAC, or the initial R-MAC, does not match.
    BadMac,
    /// A secured frame carries, or would carry, DATA in the clear.
    PlaintextData,
}

/// Codec, driver and transport errors.
#[allow(inconsistent_fields)]
#[derive(Debug, Clone, Copy, PartialEq, Eq)]
pub enum Error {
    /// More bytes are needed before a frame can be parsed.
    Truncated { have: usize, need: usize },
    /// The first byte is not the start-of-message byte.
    BadSom(u8),
    /// The LEN field cannot hold the frame that the other fields announce.
    BadLength(usize),
    /// CRC-16 trailer mismatch.
    BadCrc { expected: u16, got: u16 },
    /// Checksum trailer mismatch.
    BadChecksum { expected: u8, got: u8 },
    /// Not a seven-bit bus address.
    BadAddress(u8),
    /// Not a sequence number.
    BadSqn(u8),
    /// A security block of this type is unknown or out of place.
    BadSecurityBlock(u8),
    /// Unknown command code.
    UnknownCommand(u8),
    /// Unknown or unexpected reply code.
    UnknownReply(u8),
    /// The DATA of a command or reply does not have its prescribed shape.
    MalformedPayload { code: u8, reason: &'static str },
    /// A field is too long to be put on the wire.
    PayloadTooLarge { len: usize },
    /// The PD answered with a sequence number other than the one sent.
    SqnMismatch { expected: u8, got: u8 },
    /// The PD refused with `osdp_NAK`.
    Nak { code: u8 },
    /// Secure-channel failure.
    SecureSession(SecureSessionError),
    /// No complete reply within the reply-delay budget.
    Timeout,
    /// The transport failed.
    Io,
}

impl From<SecureSessionError> for Error {
    fn from(err: SecureSessionError) -> (e: Error) {
        Error::SecureSession(err)
    }
}

impl vstd::std_specs::convert::FromSpecImpl<SecureSessionError> for Error {
    open spec fn obeys_from_spec() -> bool {
        true
    }

    open spec fn from_spec(err: SecureSessionError) -> Error {
        Error::SecureSession(err)
    }
}

} // verus!
