//! Raw probe samples as they travel from the probes to the raw store.

use vstd::prelude::*;
use crate::time::Timestamp;

verus! {

/// Outcome of one probe: a round-trip time in nanoseconds, or a timeout.
#[derive(Clone, Copy, Debug, PartialEq, Eq, Structural)]
pub enum Latency {
    Timeout,
    Nanos(u64),
}

/// One raw probe outcome for a target.
#[derive(Clone, Copy, Debug, PartialEq, Eq, Structural)]
pub struct RawSample {
    pub time: Timestamp,
    pub target_id: i64,
    pub latency: Latency,
}

} // verus!
