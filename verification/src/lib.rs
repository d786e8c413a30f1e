//! Latency and packet-loss measurement over an unreliable transport.
//!
//! A client emits sequence-numbered probes, the server classifies each arrival
//! against the one before it and accumulates the size of the gaps it sees, and
//! the client turns the server's replicated history back into round-trip
//! times, which it folds into session-wide and rolling statistics.

pub mod aggregator;
pub mod histogram;
pub mod rolling;
pub mod sender;
pub mod session;
pub mod tracker;
pub mod world;
