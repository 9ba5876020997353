//! The deployment configuration both ends share.
//!
//! The discovery port, the server's streaming port and the two fixed
//! delays are injected into each component at startup as one explicit
//! value, rather than compiled-in literals, so the two ends need not be
//! rebuilt together to stay in agreement.

use vstd::prelude::*;

verus! {

/// The protocol's deployment constants. Both ends must hold the same
/// discovery port; the server broadcasts its own streaming port in the
/// discovery message.
#[derive(Clone, Copy, Debug, PartialEq, Eq, Structural)]
pub struct Config {
    /// The well-known UDP port discovery datagrams are sent to.
    pub discovery_port: u16,
    /// The TCP port the server streams on and announces.
    pub stream_port: u16,
    /// Seconds between two discovery broadcasts.
    pub broadcast_interval_secs: u32,
    /// The fixed backoff, in seconds, between failed connect attempts.
    pub backoff_secs: u32,
}

/// Usable ports and non-degenerate delays.
pub open spec fn config_wf(c: Config) -> bool {
    &&& c.discovery_port >= 1
    &&& c.stream_port >= 1
    &&& c.broadcast_interval_secs >= 1
    &&& c.backoff_secs >= 1
}

impl Config {
    /// Builds a configuration, rejecting a zero port or a zero delay.
    pub fn new(discovery_port: u16, stream_port: u16, broadcast_interval_secs: u32, backoff_secs: u32) -> (r:
        Option<Config>)
        ensures
            match r {
                Some(c) => {
                    &&& config_wf(c)
                    &&& c.discovery_port == discovery_port
                    &&& c.stream_port == stream_port
                    &&& c.broadcast_interval_secs == broadcast_interval_secs
                    &&& c.backoff_secs == backoff_secs
                },
                None => !(discovery_port >= 1 && stream_port >= 1 && broadcast_interval_secs >= 1
                    && backoff_secs >= 1),
            },
            r is Some <==> discovery_port >= 1 && stream_port >= 1 && broadcast_interval_secs >= 1
                && backoff_secs >= 1,
    {
        if discovery_port >= 1 && stream_port >= 1 && broadcast_interval_secs >= 1 && backoff_secs
            >= 1 {
            Some(
                Config {
                    discovery_port,
                    stream_port,
                    broadcast_interval_secs,
                    backoff_secs,
                },
            )
        } else {
            None
        }
    }
}

} // verus!
