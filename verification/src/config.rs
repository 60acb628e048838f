//! Process configuration, constructed once at start-up and passed by
//! reference into every component that needs it; no handler reads global
//! environment state.

use vstd::prelude::*;

verus! {

/// The configuration of one running service process.
#[derive(Debug)]
pub struct AppConfig {
    /// The connection string of the backing store.
    pub database_url: String,
    /// The socket address the service binds to.
    pub address: String,
    /// The secret that signs and verifies bearer tokens.
    pub jwt_secret: String,
}

impl AppConfig {
    /// Builds a configuration from already-read plain values.
    pub fn new(database_url: String, address: String, jwt_secret: String) -> (r: AppConfig)
        ensures
            r.database_url@ == database_url@,
            r.address@ == address@,
            r.jwt_secret@ == jwt_secret@,
    {
        AppConfig { database_url, address, jwt_secret }
    }
}

} // verus!
