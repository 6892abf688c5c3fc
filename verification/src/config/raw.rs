//! What a configuration writes, as far as it is read here.
use crate::anytls::string_map::StringMap;
use vstd::prelude::*;

verus! {

/// The health check of a provider.
#[derive(Debug)]
pub struct RawHealthCheck {
    pub enable: Option<bool>,
    pub url: Option<String>,
    pub interval: Option<u64>,
    pub timeout: Option<u64>,
    pub expected_status: Option<String>,
    pub lazy: Option<bool>,
}

/// A provider of proxies.
#[derive(Debug)]
pub struct RawProxyProvider {
    pub provider_type: String,
    pub url: Option<String>,
    pub path: Option<String>,
    pub interval: Option<u64>,
    pub filter: Option<String>,
    pub exclude_filter: Option<String>,
    pub exclude_type: Option<Vec<String>>,
    pub health_check: Option<RawHealthCheck>,
    pub header: Option<StringMap>,
}

/// A group of proxies.
#[derive(Debug)]
pub struct RawProxyGroup {
    pub name: String,
    pub group_type: String,
    pub url: Option<String>,
    pub interval: Option<u64>,
    pub lazy: Option<bool>,
    pub filter: Option<String>,
    pub exclude_filter: Option<String>,
    pub exclude_type: Option<Vec<String>>,
}

impl Default for RawProxyGroup {
    /// A group that sets nothing.
    fn default() -> (g: Self)
        ensures
            g.name@.len() == 0,
            g.group_type@.len() == 0,
            g.url is None,
            g.interval is None,
            g.lazy is None,
            g.filter is None,
            g.exclude_filter is None,
            g.exclude_type is None,
    {
        RawProxyGroup {
            name: String::new(),
            group_type: String::new(),
            url: None,
            interval: None,
            lazy: None,
            filter: None,
            exclude_filter: None,
            exclude_type: None,
        }
    }
}

} // verus!
