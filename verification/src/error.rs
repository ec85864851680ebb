//! Everything that can go wrong while decoding, encoding or authenticating.

use vstd::prelude::*;

verus! {

/// The states that a [`Core`](crate::Core) can be in, without their payloads.
#[derive(Debug, Clone, Copy, PartialEq, Eq, Structural)]
pub enum CoreStatus {
    Startup,
    Authenticating,
    Authenticated,
    Disconnected,
    Shutdown,
    StartReplication,
    Streaming,
    ClosingCopy,
    Failed,
}

/// The attribute of a SCRAM server-first-message that could not be found.
#[derive(Debug, Clone, Copy, PartialEq, Eq, Structural)]
pub enum ServerFirstField {
    /// `r=`, the nonce.
    Nonce,
    /// `s=`, the salt.
    Salt,
    /// `i=`, the iteration count.
    Iterations,
}

/// Errors of the protocol library.
#[derive(Debug, Clone, Copy, PartialEq, Eq, Structural)]
pub enum Error {
    /// Fewer bytes are left than the next field takes.
    UnexpectedEof { need: usize, have: usize },
    /// A string is not terminated by a zero byte.
    MissingTerminator,
    /// A string is not valid UTF-8.
    InvalidUtf8,
    /// A tuple tag other than `N` where only a new tuple can stand.
    ExpectedNewTuple { tag: u8 },
    /// A tuple tag that an `Update` cannot hold.
    UnexpectedUpdateTuple { tag: u8 },
    /// A tuple tag that a `Delete` cannot hold.
    UnexpectedDeleteTuple { tag: u8 },
    /// A column value of an unknown kind.
    UnsupportedTupleValue { tag: u8 },
    /// A logical replication message of an unknown kind.
    UnsupportedLogicalMessage { tag: u8 },
    /// A copy format code other than text and binary.
    UnsupportedCopyFormat,
    /// An authentication request of an unknown kind.
    UnsupportedAuthentication { code: i32 },
    /// A streaming replication message of an unknown kind.
    UnsupportedReplicationMessage { tag: u8 },
    /// A backend message of an unknown kind.
    UnsupportedBackendMessage { tag: u8 },
    /// A frame length that does not cover the length field itself.
    InvalidFrameLength { length: usize },
    /// A frame length beyond the limit.
    FrameTooLarge { length: usize },
    /// The client has been shut down.
    ClientShutdown,
    /// A message that cannot be handled in the current state.
    IncorrectState { state: CoreStatus },
    /// A SASL message without a SASL exchange in progress.
    IncorrectAuthState,
    /// Authentication was requested before connection parameters were given.
    MissingConnectParams,
    /// The server does not offer SCRAM-SHA-256.
    UnsupportedMechanisms,
    /// The system's random number source failed.
    NonceUnavailable,
    /// A server-first-message lacks an attribute.
    InvalidServerFirst { missing: ServerFirstField },
    /// The salt is not valid base64.
    InvalidSalt,
    /// The iteration count is not a decimal number that fits.
    InvalidIterations,
    /// The iteration count is zero.
    ZeroIterations,
    /// The server's nonce does not start with the client's.
    NonceMismatch,
    /// The server added nothing to the client's nonce.
    NonceNotExtended,
    /// A server-final-message without a signature.
    InvalidServerFinal,
    /// The server's signature is not the expected one.
    InvalidServerSignature,
    /// No salt has been received yet.
    MissingSalt,
    /// No iteration count has been received yet.
    MissingIterations,
    /// No server-first-message has been received yet.
    MissingServerFirst,
    /// No server nonce has been received yet.
    MissingNonce,
    /// The key was refused by the HMAC implementation.
    InvalidHmacKey,
    /// The transport took no bytes of a non-empty write.
    WriteZero,
}

} // verus!
