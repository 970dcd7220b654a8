//! Stateful dispatch plane of a real-time event gateway: connection registry,
//! ordering keys, presence bookkeeping, replay control and counters.

pub mod auth;
pub mod connections;
pub mod digest;
pub mod json;
pub mod metrics;
pub mod ordering;
pub mod presence;
pub mod rate_limit;
pub mod replay;
pub mod table;
pub mod text;
pub mod utils;
