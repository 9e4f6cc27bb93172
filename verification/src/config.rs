//! The server's immutable configuration, constructed once at startup and
//! passed into the resolver and the listing renderer.  Loading it from
//! disk is the caller's concern; the library only holds the values.

use vstd::prelude::*;

verus! {

/// Parameters of the request-rate gate applied before resolution.
#[derive(Clone, Debug)]
pub struct RateLimit {
    pub per_second: u64,
    pub burst_size: u32,
}

/// The IP allow/block lists and the rate limit, applied before a request
/// reaches the resolver.
#[derive(Clone, Debug)]
pub struct Filtering {
    pub ip_blacklist: Vec<String>,
    pub ip_whitelist: Vec<String>,
    pub rate_limit: RateLimit,
}

/// Where the TLS listener binds and which key and certificate it uses.
#[derive(Clone, Debug)]
pub struct Https {
    pub enabled: bool,
    pub ip: String,
    pub port: u16,
    pub key: String,
    pub cert: String,
}

/// Where the plain listener binds.
#[derive(Clone, Debug)]
pub struct Http {
    pub enabled: bool,
    pub ip: String,
    pub port: u16,
}

/// The route under which directory listings are served, and the directory
/// they list.
#[derive(Clone, Debug)]
pub struct FileListing {
    pub enabled: bool,
    pub dir: String,
    pub route: String,
}

/// The whole configuration: listeners, listing route, the public root
/// every served file must lie under, the not-found fallback page, and the
/// request filters.
#[derive(Clone, Debug)]
pub struct Config {
    pub https: Https,
    pub http: Http,
    pub file_listing: FileListing,
    pub not_found_page: String,
    pub public_dir: String,
    pub filtering: Filtering,
}

} // verus!
