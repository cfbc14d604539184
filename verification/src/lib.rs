//! Verified core of a forwarder that multiplexes many local TCP connections
//! over one reliable, in-order byte stream (an L2CAP connection-oriented
//! channel to a paired mobile device).
//!
//! The crate holds the protocol logic only: the wire codec for the four
//! packet kinds, the reassembly buffer that turns arbitrarily chunked
//! transport reads into exact-length reads, the port table with its
//! allocation discipline, and the per-packet demultiplexing decisions.
//! The surrounding process (sockets, Bluetooth rendezvous, task spawning)
//! drives this core and performs the I/O it decides on.

pub mod central;
pub mod chunker;
pub mod codec;
pub mod mux;
pub mod table;
