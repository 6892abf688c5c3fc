//! The AnyTLS protocol: frames, streams, padding, authentication, the local
//! SOCKS5 and HTTP proxies, and the helpers around them.
use vstd::prelude::*;

pub mod codec;
pub mod auth;
pub mod cert_analyzer;
pub mod cert_laws;
pub mod cert_reloader;
pub mod dns_cache;
pub mod error;
pub mod http_proxy;
pub mod http_proxy_laws;
pub mod lookup_laws;
pub mod padding;
pub mod server;
pub mod session_laws;
pub mod socket_protect;
pub mod socks5;
pub mod socks5_laws;
pub mod stream;
pub mod stream_reader;
pub mod string_map;
pub mod tls;
pub mod tls_laws;
pub mod wire_laws;
pub mod writer;

verus! {

} // verus!
