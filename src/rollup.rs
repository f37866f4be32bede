//! The rollup cascade: where each (target, window) pair resumes, which
//! aligned windows are final, and how the rows of one window are tallied.
//!
//! The store queries and the t-digest arithmetic happen around these
//! functions; every decision about which windows are written is made here.

use vstd::prelude::*;
use crate::codec::{
    DigestFrame, serialize_tdigest, frame_bytes, decoded_frame, DEFAULT_COMPRESSION_BITS,
};
use crate::sample::{Latency, RawSample};
use crate::time::{Timestamp, truncate_to_window, window_floor, MAX_UNIX_SECS, NANOS_PER_SEC};

verus! {

/// Seconds of slack, past the probe timeout, before a window counts as final.
pub const CUTOFF_SLACK_SECS: i64 = 3;

/// Start of the next window to emit for one (target, window) pair: one
/// window after the last rollup, else the window holding the earliest raw
/// sample, else nothing.
pub open spec fn resume_start(last_rollup: Option<int>, earliest_raw: Option<Timestamp>, w: int) -> Option<int> {
    match last_rollup {
        Some(l) => Some(l + w),
        None => match earliest_raw {
            Some(e) => Some(window_floor(e.secs as int, w)),
            None => None,
        },
    }
}

/// Whether the window `[t, t + w)` is final at `now`: it ended at least the
/// probe timeout plus the slack before `now`, to the nanosecond.
pub open spec fn window_due(t: int, w: int, now: Timestamp, timeout_nanos: int) -> bool {
    (t + w + CUTOFF_SLACK_SECS) * NANOS_PER_SEC + timeout_nanos <= now.as_nanos()
}

/// The latest whole second at which a window may end and still be emitted.
pub open spec fn cutoff_secs(now: Timestamp, timeout_nanos: int) -> int {
    (now.as_nanos() - timeout_nanos) / (NANOS_PER_SEC as int) - CUTOFF_SLACK_SECS
}

/// How many consecutive windows of `w` seconds from `first` end by `limit`.
pub open spec fn due_count(first: int, w: int, limit: int) -> nat {
    if limit < first {
        0
    } else {
        ((limit - first) / w) as nat
    }
}

/// Starts of the windows that one rollup cycle emits for a pair.
pub open spec fn planned_windows(
    last_rollup: Option<int>,
    earliest_raw: Option<Timestamp>,
    w: int,
    now: Timestamp,
    timeout_nanos: int,
) -> Seq<int> {
    match resume_start(last_rollup, earliest_raw, w) {
        Some(first) => Seq::new(
            due_count(first, w, cutoff_secs(now, timeout_nanos)),
            |k: int| first + k * w,
        ),
        None => Seq::empty(),
    }
}

/// The last rollup time of the pair once a cycle has written `plan`: the
/// greatest window start among its rows.
pub open spec fn last_rollup_after(last_rollup: Option<int>, plan: Seq<int>) -> Option<int> {
    if plan.len() == 0 {
        last_rollup
    } else {
        Some(plan.last())
    }
}

pub open spec fn opt_secs(t: Option<i64>) -> Option<int> {
    match t {
        Some(x) => Some(x as int),
        None => None,
    }
}

/// A window ends by the cutoff second exactly when it is final.
pub proof fn lemma_window_due(t: int, w: int, now: Timestamp, timeout_nanos: int)
    ensures
        window_due(t, w, now, timeout_nanos) <==> t + w <= cutoff_secs(now, timeout_nanos),
{
    let n = now.as_nanos() - timeout_nanos;
    let d = NANOS_PER_SEC as int;
    let a = t + w + CUTOFF_SLACK_SECS;
    vstd::arithmetic::div_mod::lemma_fundamental_div_mod(n, d);
    assert(0 <= n % d < d) by {
        vstd::arithmetic::div_mod::lemma_mod_bound(n, d);
    }
    let q = n / d;
    if a <= q {
        assert(a * d <= q * d) by (nonlinear_arith)
            requires a <= q, d > 0;
        assert(d * q == q * d) by (nonlinear_arith);
    }
    if a * d <= n {
        if a > q {
            assert(a * d >= (q + 1) * d) by (nonlinear_arith)
                requires a >= q + 1, d > 0;
            assert((q + 1) * d == d * q + d) by (nonlinear_arith);
        }
    }
}

/// Window starts (Unix seconds) that the rollup cycle emits for one
/// (target, window) pair, in ascending order: every window from the resume
/// point on that is final at `now`, given the probe timeout in nanoseconds.
pub fn plan_rollup_windows(
    last_rollup: Option<i64>,
    earliest_raw: Option<Timestamp>,
    window_seconds: i32,
    now: Timestamp,
    timeout_nanos: u64,
) -> (r: Vec<i64>)
    requires
        window_seconds > 0,
        now.wf(),
        earliest_raw matches Some(e) ==> e.wf(),
    ensures
        r@.len() == planned_windows(
            opt_secs(last_rollup),
            earliest_raw,
            window_seconds as int,
            now,
            timeout_nanos as int,
        ).len(),
        forall|k: int|
            0 <= k < r@.len() ==> r@[k] as int == planned_windows(
                opt_secs(last_rollup),
                earliest_raw,
                window_seconds as int,
                now,
                timeout_nanos as int,
            )[k],
        forall|k: int| 0 <= k < r@.len() ==> window_due(r@[k] as int, window_seconds as int, now, timeout_nanos as int),
{
    let w = window_seconds as i128;
    let first: i128 = match last_rollup {
        Some(l) => l as i128 + w,
        None => match earliest_raw {
            Some(e) => truncate_to_window(e, window_seconds).secs as i128,
            None => {
                return Vec::new();
            },
        },
    };
    assert(resume_start(opt_secs(last_rollup), earliest_raw, w as int) == Some(first as int));
    let ghost limit = cutoff_secs(now, timeout_nanos as int);
    let now_nanos: i128 = (now.secs as i128) * (NANOS_PER_SEC as i128) + now.nanos as i128;
    let budget: i128 = now_nanos - timeout_nanos as i128;
    proof {
        let s = now.secs as int;
        assert(s * 1_000_000_000 <= 100_000_000_000_000 * 1_000_000_000) by (nonlinear_arith)
            requires s <= 100_000_000_000_000;
        assert(s * 1_000_000_000 >= -100_000_000_000_000 * 1_000_000_000) by (nonlinear_arith)
            requires s >= -100_000_000_000_000;
    }
    let mut out: Vec<i64> = Vec::new();
    let mut start: i128 = first;
    let mut count: usize = 0;
    proof {
        assert(limit <= MAX_UNIX_SECS) by {
            assert(now.as_nanos() - timeout_nanos <= (MAX_UNIX_SECS + 1) * 1_000_000_000);
            vstd::arithmetic::div_mod::lemma_div_is_ordered(
                now.as_nanos() - timeout_nanos, (MAX_UNIX_SECS + 1) * 1_000_000_000, 1_000_000_000);
            vstd::arithmetic::div_mod::lemma_div_by_multiple(MAX_UNIX_SECS + 1, 1_000_000_000);
        }
    }
    loop
        invariant
            w == window_seconds as int,
            w > 0,
            limit == cutoff_secs(now, timeout_nanos as int),
            now_nanos == now.as_nanos(),
            budget == now.as_nanos() - timeout_nanos,
            now.wf(),
            first >= i64::MIN,
            first <= i64::MAX as int + i32::MAX as int,
            resume_start(opt_secs(last_rollup), earliest_raw, w as int) == Some(first as int),
            count == 0 ==> start == first,
            count == out@.len(),
            start == first + count * w,
            count == 0 || start <= limit,
            start >= i64::MIN,
            start <= i64::MAX as int + i32::MAX as int,
            limit <= MAX_UNIX_SECS,
            forall|k: int| 0 <= k < out@.len() ==> out@[k] as int == first + k * w,
            forall|k: int| 0 <= k < out@.len() ==> window_due(out@[k] as int, w as int, now, timeout_nanos as int),
        decreases limit - start,
    {
        let a: i128 = start + w + CUTOFF_SLACK_SECS as i128;
        proof {
            assert(-0x1_0000_0000_0000_0000 * 1_000_000_000 <= a * 1_000_000_000 <= 0x1_0000_0000_0000_0000 * 1_000_000_000)
                by (nonlinear_arith)
                requires -0x1_0000_0000_0000_0000 <= a <= 0x1_0000_0000_0000_0000;
            lemma_window_due(start as int, w as int, now, timeout_nanos as int);
        }
        if a * (NANOS_PER_SEC as i128) > budget {
            proof {
                let f = first as int;
                let c = count as int;
                assert(c * w >= 0) by (nonlinear_arith)
                    requires c >= 0, w > 0;
                if limit < f {
                    assert(c == 0);
                } else {
                    assert(c * w <= limit - f < c * w + w);
                    assert((limit - f) / (w as int) == c) by (nonlinear_arith)
                        requires c * w <= limit - f, limit - f < c * w + w, w > 0;
                }
                assert(due_count(f, w as int, limit as int) == c);
            }
            return out;
        }
        assert(first + count * w >= first) by (nonlinear_arith)
            requires count >= 0, w > 0;
        out.push(start as i64);
        start = start + w;
        proof {
            assert((count + 1) * w == count * w + w) by (nonlinear_arith);
        }
        count = out.len();
    }
}

/// Once a cycle has written its windows, a second cycle with no new raw
/// data, at any later clock reading where no further window has become
/// final, emits nothing: the set of rows stays as it was.
pub proof fn lemma_rollup_idempotent(
    last_rollup: Option<int>,
    earliest_raw: Option<Timestamp>,
    w: int,
    now: Timestamp,
    now2: Timestamp,
    timeout_nanos: int,
)
    requires
        w > 0,
        planned_windows(last_rollup, earliest_raw, w, now2, timeout_nanos).len()
            == planned_windows(last_rollup, earliest_raw, w, now, timeout_nanos).len(),
    ensures
        ({
            let plan = planned_windows(last_rollup, earliest_raw, w, now, timeout_nanos);
            planned_windows(last_rollup_after(last_rollup, plan), earliest_raw, w, now2, timeout_nanos).len() == 0
        }),
{
    let plan = planned_windows(last_rollup, earliest_raw, w, now, timeout_nanos);
    let limit = cutoff_secs(now2, timeout_nanos);
    if plan.len() > 0 {
        let first = resume_start(last_rollup, earliest_raw, w)->0;
        let n = plan.len() as int;
        let next = plan.last() + w;
        assert(plan.last() == first + (n - 1) * w);
        assert(next == first + n * w) by (nonlinear_arith)
            requires next == first + (n - 1) * w + w;
        assert(limit >= first);
        assert(n == (limit - first) / w);
        assert(limit - first < n * w + w) by (nonlinear_arith)
            requires n == (limit - first) / w, w > 0, limit >= first;
        if limit >= next {
            assert((limit - next) / w == 0) by (nonlinear_arith)
                requires 0 <= limit - next < w;
        }
    }
}

/// The last rollup time of a pair never moves backwards from one cycle to
/// the next.
pub proof fn lemma_rollup_monotone(
    last_rollup: Option<int>,
    earliest_raw: Option<Timestamp>,
    w: int,
    now: Timestamp,
    timeout_nanos: int,
)
    requires
        w > 0,
    ensures
        ({
            let after = last_rollup_after(
                last_rollup,
                planned_windows(last_rollup, earliest_raw, w, now, timeout_nanos),
            );
            last_rollup matches Some(l) ==> (after matches Some(a) && a >= l)
        }),
{
    let plan = planned_windows(last_rollup, earliest_raw, w, now, timeout_nanos);
    if plan.len() > 0 {
        if let Some(l) = last_rollup {
            let n = plan.len() as int;
            assert(plan.last() == l + w + (n - 1) * w);
            assert((n - 1) * w >= 0) by (nonlinear_arith)
                requires n >= 1, w > 0;
        }
    }
}

/// Number of timeouts among the samples.
pub open spec fn timeouts_in(s: Seq<RawSample>) -> nat
    decreases s.len(),
{
    if s.len() == 0 {
        0
    } else {
        timeouts_in(s.drop_last()) + if s.last().latency is Timeout { 1nat } else { 0nat }
    }
}

/// The measured latencies among the samples, in order.
pub open spec fn latencies_in(s: Seq<RawSample>) -> Seq<u64>
    decreases s.len(),
{
    if s.len() == 0 {
        Seq::empty()
    } else {
        match s.last().latency {
            Latency::Nanos(v) => latencies_in(s.drop_last()).push(v),
            Latency::Timeout => latencies_in(s.drop_last()),
        }
    }
}

/// Separates the raw rows of one window into a timeout count and the
/// latencies that feed the window's digest.
pub fn split_raw_latencies(samples: &Vec<RawSample>) -> (r: (usize, Vec<u64>))
    ensures
        r.0 == timeouts_in(samples@),
        r.1@ == latencies_in(samples@),
{
    let mut timeouts: usize = 0;
    let mut values: Vec<u64> = Vec::new();
    let mut i: usize = 0;
    while i < samples.len()
        invariant
            i <= samples@.len(),
            timeouts == timeouts_in(samples@.take(i as int)),
            timeouts <= i,
            values@ == latencies_in(samples@.take(i as int)),
        decreases samples@.len() - i,
    {
        assert(samples@.take(i + 1).drop_last() =~= samples@.take(i as int));
        match samples[i].latency {
            Latency::Timeout => {
                timeouts = timeouts + 1;
            },
            Latency::Nanos(v) => {
                values.push(v);
            },
        }
        i += 1;
    }
    assert(samples@.take(i as int) =~= samples@);
    (timeouts, values)
}

/// Sum of a sequence of counts.
pub open spec fn count_sum(s: Seq<i64>) -> int
    decreases s.len(),
{
    if s.len() == 0 {
        0
    } else {
        count_sum(s.drop_last()) + s.last()
    }
}

/// Sums the timeout counts of the smaller-window rows under one window,
/// saturating at `i64::MAX`.
pub fn sum_timeouts(counts: &Vec<i64>) -> (r: i64)
    requires
        forall|i: int| 0 <= i < counts@.len() ==> counts@[i] >= 0,
    ensures
        r == if count_sum(counts@) > i64::MAX { i64::MAX as int } else { count_sum(counts@) },
{
    let mut total: i64 = 0;
    let mut i: usize = 0;
    let mut saturated = false;
    while i < counts.len()
        invariant
            i <= counts@.len(),
            forall|j: int| 0 <= j < counts@.len() ==> counts@[j] >= 0,
            0 <= count_sum(counts@.take(i as int)),
            saturated ==> count_sum(counts@.take(i as int)) > i64::MAX && total == i64::MAX,
            !saturated ==> total == count_sum(counts@.take(i as int)),
        decreases counts@.len() - i,
    {
        assert(counts@.take(i + 1).drop_last() =~= counts@.take(i as int));
        if !saturated {
            match total.checked_add(counts[i]) {
                Some(t) => {
                    total = t;
                },
                None => {
                    total = i64::MAX;
                    saturated = true;
                },
            }
        }
        i += 1;
    }
    assert(counts@.take(i as int) =~= counts@);
    total
}

/// The sketch bytes of an empty tile: an empty digest with the default
/// compression. They decode as "not a sketch", which readers take as empty.
pub fn empty_tile_bytes() -> (r: Vec<u8>)
    ensures
        r@ == frame_bytes(DEFAULT_COMPRESSION_BITS, Seq::empty(), Seq::empty()),
        decoded_frame(r@) is None,
{
    let frame = DigestFrame::empty();
    let r = serialize_tdigest(&frame);
    proof {
        lemma_empty_frame_rejected();
    }
    r
}

proof fn lemma_empty_frame_rejected()
    ensures
        decoded_frame(frame_bytes(DEFAULT_COMPRESSION_BITS, Seq::empty(), Seq::empty())) is None,
{
    crate::codec::lemma_frame_count(DEFAULT_COMPRESSION_BITS, Seq::empty(), Seq::empty());
}

/// Every window a cycle emits starts on a multiple of its size, provided the
/// last rollup time (if any) does.
pub proof fn lemma_planned_windows_aligned(
    last_rollup: Option<int>,
    earliest_raw: Option<Timestamp>,
    w: int,
    now: Timestamp,
    timeout_nanos: int,
    k: int,
)
    requires
        w > 0,
        last_rollup matches Some(l) ==> l % w == 0,
        0 <= k < planned_windows(last_rollup, earliest_raw, w, now, timeout_nanos).len(),
    ensures
        planned_windows(last_rollup, earliest_raw, w, now, timeout_nanos)[k] % w == 0,
{
    let first = resume_start(last_rollup, earliest_raw, w)->0;
    assert(0int % w == 0) by {
        vstd::arithmetic::div_mod::lemma_small_mod(0nat, w as nat);
    }
    assert(first % w == 0) by {
        match last_rollup {
            Some(l) => {
                vstd::arithmetic::div_mod::lemma_add_mod_noop(l, w, w);
                vstd::arithmetic::div_mod::lemma_mod_self_0(w);
                assert(first == l + w);
            },
            None => {
                let s = earliest_raw->0.secs as int;
                vstd::arithmetic::div_mod::lemma_fundamental_div_mod(s, w);
                vstd::arithmetic::div_mod::lemma_mod_multiples_basic(s / w, w);
                vstd::arithmetic::mul::lemma_mul_is_commutative(w, s / w);
                assert(first == s - s % w);
                assert(first == (s / w) * w);
            },
        }
    }
    let plan = planned_windows(last_rollup, earliest_raw, w, now, timeout_nanos);
    assert(plan[k] == first + k * w);
    vstd::arithmetic::div_mod::lemma_mod_multiples_basic(k, w);
    vstd::arithmetic::div_mod::lemma_add_mod_noop(first, k * w, w);
}

} // verus!
