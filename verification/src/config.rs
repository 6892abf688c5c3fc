//! What a configuration brings in from outside: providers, dashboards and the
//! HTTP client that fetches them.
use vstd::prelude::*;

pub mod archive_laws;
pub mod chunked;
pub mod external_ui;
pub mod internal_http;
pub mod internal_http_laws;
pub mod path_laws;
pub mod provider_laws;
pub mod proxy_provider;
pub mod raw;
pub mod safe_path;

verus! {

} // verus!
