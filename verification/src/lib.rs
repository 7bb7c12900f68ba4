//! Internet reachability monitoring core: probe result model, downtime
//! reconstruction, rotating log bookkeeping, drift-compensated scheduling,
//! and the structured log line format.

pub mod check;
pub mod clock;
pub mod codec;
pub mod files;
pub mod log;
pub mod model;
pub mod monitor;
pub mod report;
pub mod runner;
pub mod strutil;
pub mod time;
pub mod tracker;
