//! Errors of the AnyTLS protocol.
use crate::text;
pub use crate::io_error::{ErrorKind, IoError};
use vstd::prelude::*;

verus! {

/// Errors of the AnyTLS protocol.
#[derive(Debug)]
pub enum AnyTlsError {
    /// Input or output failed.
    Io(IoError),
    /// TLS failed.
    Tls(String),
    /// The protocol was violated, or something could not be parsed.
    Protocol(String),
    /// The password is wrong.
    AuthenticationFailed,
    /// The session has no such stream.
    StreamNotFound(u32),
    /// The session has been closed.
    SessionClosed,
    /// A frame is malformed.
    InvalidFrame(String),
    /// The padding scheme is no good.
    PaddingScheme(String),
    /// The configuration is no good.
    Config(String),
}

/// Result of an AnyTLS operation.
pub type Result<T> = std::result::Result<T, AnyTlsError>;

/// The text of an error.
pub open spec fn error_text(e: AnyTlsError) -> Seq<char> {
    match e {
        AnyTlsError::Io(io) => "IO error: "@ + io.message@,
        AnyTlsError::Tls(s) => "TLS error: "@ + s@,
        AnyTlsError::Protocol(s) => "Protocol error: "@ + s@,
        AnyTlsError::AuthenticationFailed => "Authentication failed"@,
        AnyTlsError::StreamNotFound(id) => "Stream not found: "@ + text::decimal(id as nat),
        AnyTlsError::SessionClosed => "Session closed"@,
        AnyTlsError::InvalidFrame(s) => "Invalid frame: "@ + s@,
        AnyTlsError::PaddingScheme(s) => "Padding scheme error: "@ + s@,
        AnyTlsError::Config(s) => "Configuration error: "@ + s@,
    }
}

impl AnyTlsError {
    /// Whether this is the protocol error with the given text.
    pub open spec fn is_protocol(self, what: Seq<char>) -> bool {
        self matches AnyTlsError::Protocol(s) && s@ == what
    }

    /// Whether this is the configuration error with the given text.
    pub open spec fn is_config(self, what: Seq<char>) -> bool {
        self matches AnyTlsError::Config(s) && s@ == what
    }

    /// Whether this is the TLS error with the given text.
    pub open spec fn is_tls(self, what: Seq<char>) -> bool {
        self matches AnyTlsError::Tls(s) && s@ == what
    }

    /// Whether this is the input or output error of the given kind and text.
    pub open spec fn is_io(self, kind: ErrorKind, what: Seq<char>) -> bool {
        self matches AnyTlsError::Io(e) && e.kind == kind && e.message@ == what
    }

    /// The text of the error.
    pub fn message(&self) -> (out: String)
        ensures
            out@ == error_text(*self),
    {
        match self {
            AnyTlsError::Io(io) => text::join2("IO error: ", io.message.as_str()),
            AnyTlsError::Tls(s) => text::join2("TLS error: ", s.as_str()),
            AnyTlsError::Protocol(s) => text::join2("Protocol error: ", s.as_str()),
            AnyTlsError::AuthenticationFailed => "Authentication failed".to_owned(),
            AnyTlsError::StreamNotFound(id) => {
                let mut out = "Stream not found: ".to_owned();
                text::push_decimal(&mut out, *id as u64);
                out
            },
            AnyTlsError::SessionClosed => "Session closed".to_owned(),
            AnyTlsError::InvalidFrame(s) => text::join2("Invalid frame: ", s.as_str()),
            AnyTlsError::PaddingScheme(s) => text::join2("Padding scheme error: ", s.as_str()),
            AnyTlsError::Config(s) => text::join2("Configuration error: ", s.as_str()),
        }
    }
}

/// A protocol error with the given text.
pub fn protocol_error(what: &str) -> (e: AnyTlsError)
    ensures
        e.is_protocol(what@),
{
    AnyTlsError::Protocol(what.to_owned())
}

/// An input or output error of the given kind and text.
pub fn io_error(kind: ErrorKind, what: &str) -> (e: AnyTlsError)
    ensures
        e.is_io(kind, what@),
{
    AnyTlsError::Io(IoError { kind, message: what.to_owned() })
}

} // verus!
