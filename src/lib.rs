//! A reverse tunnel between a hub and agents that cannot be reached directly.
//!
//! The library holds the parts of the system that decide: the registry of live
//! connections with their outbound queues, the table of correlated requests, the
//! hub's handling of proxy requests and agent callbacks, the command frame
//! format, and the agent's reconnection state machine. Sockets, timers and the
//! HTTP surface drive these from outside.

pub mod agent;
pub mod cli;
pub mod config;
pub mod correlator;
pub mod gateway;
pub mod protocol;
pub mod registry;
pub mod text;
