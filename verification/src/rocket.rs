//! The application that handles a request: its configuration and its routes.
use vstd::prelude::*;

verus! {

/// How much data is accepted, by kind of data.
pub struct Limits {
    /// The kinds and their limits in bytes.
    pub limits: Vec<(String, u64)>,
}

/// The part of the configuration that requests depend on.
pub struct Config {
    /// The header in which a proxy puts the address of its client.
    pub ip_header: Option<String>,
    /// The header in which a proxy puts the protocol that its client used.
    pub proxy_proto_header: Option<String>,
    /// How much data is accepted.
    pub limits: Limits,
}

/// A running application.
pub struct Rocket {
    /// Its configuration.
    pub config: Config,
    /// Whether it serves over TLS.
    pub tls_enabled: bool,
}

impl Rocket {
    /// The configuration.
    pub fn config(&self) -> (r: &Config)
        ensures
            *r == self.config,
    {
        &self.config
    }
}

/// A route that requests are matched with.
pub struct Route {
    /// The number of segments in the path where the route is mounted.
    pub base_len: usize,
    /// The route's name.
    pub name: Option<String>,
}

} // verus!
