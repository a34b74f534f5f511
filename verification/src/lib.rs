//! Coordination core for a LAN wake-on-demand overlay: an authenticated peer
//! registry, a CPU-occupation aggregator, and a leaderless decision rule that
//! elects one node to wake a configured-but-absent machine.

pub mod auth;
pub mod codec;
pub mod config;
pub mod decision;
pub mod host_info;
pub mod host_occupation;
pub mod peer_map;
