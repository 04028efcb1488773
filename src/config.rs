//! Connection settings handed to the library's host. Durations are milliseconds.

use vstd::prelude::*;

verus! {

/// Where an HTTP service is and how long a request to it may take.
#[derive(Clone, Debug)]
pub struct HttpClientConfig {
    pub url: String,
    pub timeout: Option<u64>,
}

/// Size and timeouts of the database connection pool.
#[derive(Clone, Copy, Debug, PartialEq, Eq, Structural)]
pub struct DbConnectionConfig {
    pub size: u32,
    pub idle_size: Option<u32>,
    pub timeout: u64,
    pub max_lifetime: u64,
}

} // verus!
