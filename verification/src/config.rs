//! Settings read from the environment.

use vstd::prelude::*;

verus! {

/// Where the server listens and which message-bus servers it connects to.
pub struct Config {
    pub listen_url: String,
    pub nats_servers: Vec<String>,
}

} // verus!
