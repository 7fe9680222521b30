//! The settings of the exporter, as they are once loaded.
use vstd::prelude::*;

verus! {

/// The polling interval, in seconds, when the settings give none.
pub const DEFAULT_INTERVAL_SECONDS: u64 = 15;

/// How the exporter authenticates to the endpoint.
#[derive(Debug)]
pub enum Auth {
    /// HTTP Basic authentication.
    Basic { username: String, password: String },
    /// A bearer token.
    Bearer { token: String },
}

/// The settings of the exporter.
#[derive(Debug)]
pub struct Config {
    /// The log verbosity, by name.
    pub loglevel: Option<String>,
    /// The polling interval, in seconds.
    pub interval_seconds: Option<u64>,
    /// The URL that snapshots are pushed to.
    pub endpoint: String,
    /// How to authenticate, if at all.
    pub auth: Option<Auth>,
    /// Labels that are attached to every series, in order.
    pub labels: Option<Vec<(String, String)>>,
}

impl Config {
    /// The polling interval in seconds: the one that is set, else the
    /// default.
    pub fn interval(&self) -> (seconds: u64)
        ensures
            seconds == match self.interval_seconds {
                Some(set) => set,
                None => DEFAULT_INTERVAL_SECONDS,
            },
    {
        match self.interval_seconds {
            Some(set) => set,
            None => DEFAULT_INTERVAL_SECONDS,
        }
    }
}

} // verus!
