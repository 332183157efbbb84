//! KineContext Engine: verified core logic.
mod assoc;
pub mod text;
pub mod error;
pub mod types;
pub mod memory;
pub mod amplifier;
pub mod latency;
pub mod metrics;
pub mod page;
pub mod store;
pub mod graph;
pub mod expansion;
pub mod swarm;
pub mod clock;
pub mod cache;
pub mod resilience;
pub mod idempotency;
pub mod ecma;
pub mod mce;
pub mod api;
pub mod mcp;
pub mod rng;
pub mod regulation;
pub mod pipeline;
pub mod crdt;
