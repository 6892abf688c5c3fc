//! DNS: answer cache, client rules and the host-resolver bridge.
use vstd::prelude::*;

pub mod answer_laws;
pub mod answers;
pub mod cache;
pub mod cache_history;
pub mod cache_laws;
pub mod cache_use_laws;
pub mod client;
pub mod client_laws;
pub mod exchange_laws;
pub mod families;
pub mod family_laws;
pub mod host_resolver_hook;
pub mod ip_list;
pub mod lru_store;
pub mod message;

verus! {

} // verus!
