//! The proxy's configuration, as plain values.
use vstd::prelude::*;

verus! {

/// Everything the proxy is configured with.
#[derive(Debug)]
pub struct Settings {
    /// Download the GeoIP databases at start.
    pub auto_mmdb: bool,
    /// Send a PROXY protocol header upstream.
    pub haproxy: bool,
    pub mmdb_asn: String,
    pub mmdb_city: String,
    pub l4_ip: String,
    pub l4_port: u16,
    pub outbound_ip: String,
    pub outbound_port: u16,
    pub blocked_asn: Vec<u32>,
    pub blocked_country: Vec<String>,
    /// Requests per minute allowed from one address.
    pub rate_limit: isize,
    pub connect_rate_limit: isize,
    pub memcached_addrs: Vec<String>,
}

} // verus!
