//! NetShield: packet parsing, traffic accounting and rate-based DDoS
//! detection for raw Ethernet frames.
pub mod alert;
pub mod api;
pub mod config;
pub mod dpdk;
pub mod engine;
pub mod error;
pub mod generator;
pub mod mock;
pub mod packet;
pub mod parser;
pub mod pipeline;
pub mod protocol;
pub mod scenarios;
pub mod rate_tracker;
pub mod server_traffic;
pub mod simulation;
pub mod stats;
