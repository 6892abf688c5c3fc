//! What every part of the kernel shares: dialing, host lookup and sniffing.
use vstd::prelude::*;

pub mod dial;
pub mod host_laws;
pub mod host_lookup;
pub mod protect;
pub mod sniff_http;

verus! {

} // verus!
