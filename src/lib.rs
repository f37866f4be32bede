//! Network-latency monitoring core: the t-digest wire codec, window
//! alignment, the rollup cascade planner, retention rules, the raw-sample
//! batch buffer and the pure parts of the ICMP, DNS and HTTP probes.

pub mod codec;
pub mod config;
pub mod dns;
pub mod icmp;
pub mod ping;
pub mod policy;
pub mod probe;
pub mod registry;
pub mod rollup;
pub mod sample;
pub mod time;
pub mod units;
pub mod writer;
