//! Instants as Unix seconds plus a sub-second nanosecond part, and the
//! alignment of instants to window boundaries.

use vstd::prelude::*;

verus! {

/// Nanoseconds in one second.
pub const NANOS_PER_SEC: u32 = 1_000_000_000;

/// An instant in UTC: whole seconds since the Unix epoch plus nanoseconds.
#[derive(Clone, Copy, Debug, PartialEq, Eq, Structural)]
pub struct Timestamp {
    pub secs: i64,
    pub nanos: u32,
}

/// Largest distance, in seconds, of a valid instant from the epoch: about
/// three million years, wider than any calendar date the clock or the
/// store can produce.
pub const MAX_UNIX_SECS: i64 = 100_000_000_000_000;

/// `x` held within `[lo, hi]`.
pub open spec fn clamp(x: int, lo: int, hi: int) -> int {
    if x < lo { lo } else if x > hi { hi } else { x }
}

impl Timestamp {
    /// The sub-second part is below one second, and the instant lies within
    /// `MAX_UNIX_SECS` of the epoch.
    pub open spec fn wf(&self) -> bool {
        &&& self.nanos < NANOS_PER_SEC
        &&& -MAX_UNIX_SECS <= self.secs <= MAX_UNIX_SECS
    }

    /// The instant as nanoseconds since the epoch.
    pub open spec fn as_nanos(&self) -> int {
        self.secs * NANOS_PER_SEC + self.nanos
    }

    pub fn new(secs: i64, nanos: u32) -> (r: Timestamp)
        requires
            nanos < NANOS_PER_SEC,
            -MAX_UNIX_SECS <= secs <= MAX_UNIX_SECS,
        ensures
            r.wf(),
            r.secs == secs,
            r.nanos == nanos,
    {
        Timestamp { secs, nanos }
    }

    /// The instant at a whole second.
    pub fn from_secs(secs: i64) -> (r: Timestamp)
        requires
            -MAX_UNIX_SECS <= secs <= MAX_UNIX_SECS,
        ensures
            r.wf(),
            r.secs == secs,
            r.nanos == 0,
    {
        Timestamp { secs, nanos: 0 }
    }

    /// What `clamped` returns.
    pub open spec fn clamped_spec(secs: i64, nanos: u32) -> Timestamp {
        Timestamp {
            secs: clamp(secs as int, -MAX_UNIX_SECS as int, MAX_UNIX_SECS as int) as i64,
            nanos: if nanos < NANOS_PER_SEC { nanos } else { (NANOS_PER_SEC - 1) as u32 },
        }
    }

    /// The instant of a clock or calendar reading: seconds held within the
    /// valid range, and a leap second's extra nanoseconds held at the end of
    /// the second.
    pub fn clamped(secs: i64, nanos: u32) -> (r: Timestamp)
        ensures
            r.wf(),
            r == Timestamp::clamped_spec(secs, nanos),
    {
        let secs = if secs < -MAX_UNIX_SECS {
            -MAX_UNIX_SECS
        } else if secs > MAX_UNIX_SECS {
            MAX_UNIX_SECS
        } else {
            secs
        };
        let nanos = if nanos < NANOS_PER_SEC { nanos } else { NANOS_PER_SEC - 1 };
        Timestamp { secs, nanos }
    }
}

/// Start of the window of `w` seconds that holds second `secs`.
pub open spec fn window_floor(secs: int, w: int) -> int {
    secs - secs % w
}

/// Truncates an instant to the start of its window: the largest multiple of
/// `window_seconds` (in Unix seconds) that is not after it.
pub fn truncate_to_window(t: Timestamp, window_seconds: i32) -> (r: Timestamp)
    requires
        t.wf(),
        window_seconds > 0,
    ensures
        r.nanos == 0,
        r.secs == window_floor(t.secs as int, window_seconds as int),
        (r.secs as int) % (window_seconds as int) == 0,
        r.as_nanos() <= t.as_nanos() < r.as_nanos() + window_seconds * NANOS_PER_SEC,
{
    let w = window_seconds as i64;
    let rem = t.secs.checked_rem_euclid(w).unwrap();
    let secs = t.secs - rem;
    proof {
        let s = t.secs as int;
        let wi = w as int;
        assert(0 <= s % wi < wi) by (nonlinear_arith)
            requires wi > 0;
        assert((s - s % wi) % wi == 0) by {
            vstd::arithmetic::div_mod::lemma_fundamental_div_mod(s, wi);
            vstd::arithmetic::div_mod::lemma_mod_multiples_basic(s / wi, wi);
            assert(s - s % wi == wi * (s / wi));
            vstd::arithmetic::mul::lemma_mul_is_commutative(wi, s / wi);
        }
        assert(secs as int * 1_000_000_000 <= s * 1_000_000_000 + t.nanos) by (nonlinear_arith)
            requires secs as int <= s, t.nanos >= 0;
        assert(s * 1_000_000_000 + t.nanos < (secs as int + wi) * 1_000_000_000) by (nonlinear_arith)
            requires s < secs as int + wi, t.nanos < 1_000_000_000;
    }
    Timestamp { secs, nanos: 0 }
}

/// Relies on chrono::Utc::now: the current instant, as Unix seconds and the
/// nanoseconds past them. Nothing is promised of the values.
#[verifier::external_body]
fn clock_now() -> (r: (i64, u32)) {
    let t = chrono::Utc::now();
    (t.timestamp(), t.timestamp_subsec_nanos())
}

/// The current instant, as `Timestamp::clamped` takes the clock's reading.
pub fn now() -> (r: Timestamp)
    ensures
        r.wf(),
        exists|secs: i64, nanos: u32| r == Timestamp::clamped_spec(secs, nanos),
{
    let (secs, nanos) = clock_now();
    Timestamp::clamped(secs, nanos)
}

} // verus!
