//! A discovery-and-reconnect protocol for a single server and client on a
//! local network: the server periodically broadcasts a small text message
//! naming its TCP port, the client extracts a connectable endpoint from the
//! first valid datagram, keeps a TCP session alive through a retry state
//! machine, and the server forwards a subordinate producer's output to the
//! peer as newline-delimited lines.
//!
//! The modules hold the protocol's pure core: the discovery message codec,
//! the listener's datagram selection, the connection supervisor's state
//! machine, and the line framing shared by both ends. All socket, process
//! and radio work stays outside the library and hands in plain values.

pub mod codec;
pub mod config;
pub mod listener;
pub mod stream;
pub mod supervisor;
