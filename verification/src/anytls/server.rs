//! The life of a server connection: TLS handshake, authentication, session.
use crate::anytls::auth::{auth_of, authenticate_client, hash_password, sha256, AuthModel, AuthStep};
use crate::anytls::error::{io_error, AnyTlsError, ErrorKind};
use crate::anytls::string_map::StringMap;
use crate::octets;
use crate::text;
use vstd::prelude::*;

verus! {

/// What a server needs to know of itself.
#[derive(Debug)]
pub struct Server {
    pub password_hash: [u8; 32],
    pub server_settings: Option<StringMap>,
    /// Whether new streams go to a handler of the host's own.
    pub custom_handler: bool,
}

impl Server {
    /// A server that lets in whoever knows the password and forwards streams
    /// itself.
    pub fn new(password: &str, server_settings: Option<StringMap>) -> (s: Self)
        ensures
            s.password_hash@ == sha256(vstd::utf8::encode_utf8(password@)),
            s.server_settings == server_settings,
            !s.custom_handler,
    {
        Server {
            password_hash: hash_password(password),
            server_settings,
            custom_handler: false,
        }
    }

    /// The server with its streams given to a handler of the host's own.
    pub fn with_stream_handler(self) -> (s: Self)
        ensures
            s == (Server { custom_handler: true, ..self }),
    {
        Server { custom_handler: true, ..self }
    }
}

/// Who serves the streams of a session.
#[derive(Clone, Copy, Debug, PartialEq, Eq, Structural)]
pub enum StreamHandling {
    /// The host's own handler.
    Custom,
    /// The default handler, which forwards them over TCP.
    TcpProxy,
}

/// How far a connection has come.
#[derive(Clone, Copy, Debug, PartialEq, Eq, Structural)]
pub enum ConnPhase {
    Handshake,
    Authenticating,
    Serving,
    Closed,
}

/// What to do next with a connection.
#[derive(Debug)]
pub enum ConnStep {
    /// Read more from the client.
    Read,
    /// Run a session: its receive loop, its stream data, and the streams; the
    /// bytes arrived already.
    Serve { handling: StreamHandling, received: Vec<u8> },
    /// Close the connection.
    Fail(AnyTlsError),
}

/// One connection of a server.
#[derive(Debug)]
pub struct Connection {
    pub phase: ConnPhase,
    /// What arrived and was not used yet.
    pub pending: Vec<u8>,
}

impl Connection {
    /// A connection before its TLS handshake.
    pub fn new() -> (c: Self)
        ensures
            c.phase is Handshake,
            c.pending@.len() == 0,
    {
        Connection { phase: ConnPhase::Handshake, pending: Vec::new() }
    }

    /// The TLS handshake ended; its error comes with its own words.
    pub fn on_handshake(&mut self, result: Result<(), String>) -> (step: ConnStep)
        requires
            old(self).phase is Handshake,
        ensures
            final(self).pending@ == old(self).pending@,
            match result {
                Ok(_) => step is Read && final(self).phase is Authenticating,
                Err(why) => (step matches ConnStep::Fail(e) && e.is_tls(
                    "TLS handshake failed: "@ + why@,
                )) && final(self).phase is Closed,
            },
    {
        match result {
            Ok(_) => {
                self.phase = ConnPhase::Authenticating;
                ConnStep::Read
            },
            Err(why) => {
                self.phase = ConnPhase::Closed;
                ConnStep::Fail(
                    AnyTlsError::Tls(text::join2("TLS handshake failed: ", why.as_str())),
                )
            },
        }
    }

    /// Bytes arrived before the client was authenticated. Nothing is served
    /// before the password was right.
    pub fn on_data(&mut self, server: &Server, data: &[u8]) -> (step: ConnStep)
        requires
            old(self).phase is Authenticating,
        ensures
            ({
                let b = old(self).pending@ + data@;
                match auth_of(b, server.password_hash@) {
                    AuthModel::Incomplete => step is Read && final(self).phase is Authenticating
                        && final(self).pending@ == b,
                    AuthModel::Failed => (step matches ConnStep::Fail(e)
                        && e is AuthenticationFailed) && final(self).phase is Closed
                        && final(self).pending@ == b,
                    AuthModel::Done(n) => {
                        &&& step matches ConnStep::Serve { handling, received } && received@
                            == b.skip(n) && handling == (if server.custom_handler {
                            StreamHandling::Custom
                        } else {
                            StreamHandling::TcpProxy
                        })
                        &&& final(self).phase is Serving
                        &&& final(self).pending@.len() == 0
                    },
                }
            }),
    {
        octets::append(&mut self.pending, data);
        let ghost b = self.pending@;
        match authenticate_client(self.pending.as_slice(), &server.password_hash) {
            AuthStep::Incomplete => ConnStep::Read,
            AuthStep::Failed(e) => {
                self.phase = ConnPhase::Closed;
                ConnStep::Fail(e)
            },
            AuthStep::Done(n) => {
                self.phase = ConnPhase::Serving;
                let total: usize = self.pending.len();
                let received = octets::copy_range(self.pending.as_slice(), n, total);
                assert(received@ =~= b.skip(n as int));
                self.pending = Vec::new();
                let handling = if server.custom_handler {
                    StreamHandling::Custom
                } else {
                    StreamHandling::TcpProxy
                };
                ConnStep::Serve { handling, received }
            },
        }
    }

    /// The client closed the connection before it was authenticated.
    pub fn on_eof(&mut self) -> (step: ConnStep)
        requires
            old(self).phase is Authenticating,
        ensures
            final(self).phase is Closed,
            final(self).pending@ == old(self).pending@,
            step matches ConnStep::Fail(e) && e.is_io(ErrorKind::UnexpectedEof, "early eof"@),
    {
        self.phase = ConnPhase::Closed;
        ConnStep::Fail(io_error(ErrorKind::UnexpectedEof, "early eof"))
    }
}

/// Why a receive loop ended.
#[derive(Clone, Copy, Debug, PartialEq, Eq, Structural)]
pub enum RecvEnd {
    /// It came to its end.
    Normal,
    /// The client closed the connection, which is normal too.
    PeerClosed,
    /// The session was closed.
    SessionClosed,
    /// Something went wrong.
    Error,
}

/// Whether an input or output error says that the peer closed the connection.
pub open spec fn says_closed(e: crate::io_error::IoError) -> bool {
    text::has_part(e.message@, "close_notify"@) || text::has_part(e.message@, "unexpected EOF"@)
        || e.kind is UnexpectedEof
}

/// Why a receive loop ended, by its result.
pub fn recv_end(result: &Result<(), AnyTlsError>) -> (end: RecvEnd)
    ensures
        end == (match *result {
            Ok(_) => RecvEnd::Normal,
            Err(AnyTlsError::Io(e)) => if says_closed(e) {
                RecvEnd::PeerClosed
            } else {
                RecvEnd::Error
            },
            Err(AnyTlsError::SessionClosed) => RecvEnd::SessionClosed,
            Err(_) => RecvEnd::Error,
        }),
{
    match result {
        Ok(_) => RecvEnd::Normal,
        Err(AnyTlsError::Io(e)) => {
            let eof = match e.kind {
                ErrorKind::UnexpectedEof => true,
                _ => false,
            };
            if text::contains(e.message.as_str(), "close_notify") || text::contains(
                e.message.as_str(),
                "unexpected EOF",
            ) || eof {
                RecvEnd::PeerClosed
            } else {
                RecvEnd::Error
            }
        },
        Err(AnyTlsError::SessionClosed) => RecvEnd::SessionClosed,
        Err(_) => RecvEnd::Error,
    }
}

} // verus!
