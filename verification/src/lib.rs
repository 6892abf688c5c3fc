//! Verified core of the meow proxy kernel.
use vstd::prelude::*;

pub mod anytls;
pub mod api;
pub mod bench;
pub mod clock;
pub mod common;
pub mod config;
pub mod dns;
pub mod io_error;
pub mod net;
pub mod net_laws;
pub mod numbers;
pub mod octets;
pub mod runtime;
pub mod split_laws;
pub mod text;
pub mod text_laws;

verus! {

} // verus!
