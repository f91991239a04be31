//! The errors of the library.

use vstd::prelude::*;

verus! {

/// What went wrong in one of the library's operations.
#[derive(Debug, Clone, PartialEq, Eq)]
pub enum NatError {
    /// A big-endian `u32` needs exactly four bytes; this many were given.
    NotFourBytes(usize),
    /// A big-endian `u16` needs exactly two bytes; this many were given.
    NotTwoBytes(usize),
    /// The body of a message is shorter than the field that was asked for.
    BodyTooShort,
    /// The message is not the server's OK command.
    NotOkMessage,
    /// The message is not the client's AUTH command.
    NotAuthMessage,
    /// The payload does not fit the two-byte size field of a frame.
    MessageTooBig,
    /// A frame is shorter than its header.
    FrameTooShort,
    /// The byte that names the protocol of a frame is none of the known ones.
    UnknownProtocol(u8),
    /// The checksum over a frame is not zero.
    ChecksumMismatch,
    /// Deriving the secret from the password failed.
    KeyDerivation,
    /// The request line carries no URL.
    UnknownRequest,
    /// The request method, carried as written, is neither GET nor POST.
    UnsupportedMethod(String),
    /// The peer's address lies outside the allowed subnet.
    AddressNotAllowed,
}

} // verus!
