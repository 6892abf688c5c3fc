//! What the program around the kernel decides: first downloads, health checks
//! and the Windows service.
use vstd::prelude::*;

pub mod geodata_fetch;
pub mod health_check;
pub mod probe_laws;
pub mod service_laws;
pub mod service_setup;
pub mod windows_path;
pub mod windows_service;

verus! {

} // verus!
