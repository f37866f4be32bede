//! Retention policies: the ladder of window sizes a target is rolled up
//! through, how long each tier is kept, and the rules over both.

use vstd::prelude::*;
use crate::time::Timestamp;

verus! {

/// One tier of the retention ladder: a window size in seconds (0 for the
/// raw tier) and how many seconds its rows are kept.
#[derive(Clone, Copy, Debug, PartialEq, Eq, Structural)]
pub struct RetentionPolicy {
    pub window: i32,
    pub retention: i64,
}

/// Whether some policy has window `x`.
pub open spec fn has_window(p: Seq<RetentionPolicy>, x: i32) -> bool {
    exists|i: int| 0 <= i < p.len() && p[i].window == x
}

/// No policy has a window strictly between `a` and `b`.
pub open spec fn no_window_between(p: Seq<RetentionPolicy>, a: i32, b: i32) -> bool {
    forall|k: int| 0 <= k < p.len() ==> !(a < #[trigger] p[k].window && p[k].window < b)
}

/// A policy list is valid when no window is negative and, taking the windows
/// in ascending order, each non-zero window is a multiple of the non-zero
/// window just below it.
pub open spec fn policies_valid(p: Seq<RetentionPolicy>) -> bool {
    &&& forall|i: int| 0 <= i < p.len() ==> p[i].window >= 0
    &&& forall|i: int, j: int|
        0 <= i < p.len() && 0 <= j < p.len() && 0 < #[trigger] p[i].window && p[i].window < #[trigger] p[j].window
            && no_window_between(p, p[i].window, p[j].window) ==> p[j].window % p[i].window == 0
}

/// `l` is the rollup ladder of `p`: its distinct positive windows, ascending.
pub open spec fn is_ladder(p: Seq<RetentionPolicy>, l: Seq<i32>) -> bool {
    &&& forall|i: int, j: int| 0 <= i < j < l.len() ==> l[i] < l[j]
    &&& forall|x: i32| (x > 0 && has_window(p, x)) <==> #[trigger] l.contains(x)
}

/// The policies new targets get: raw rows for a week, one-minute windows for
/// six months, five-minute windows for a year, hourly ones for ten years and
/// daily ones for about a century.
pub fn default_policies() -> (r: Vec<RetentionPolicy>)
    ensures
        r@ == seq![
            RetentionPolicy { window: 0, retention: 604800 },
            RetentionPolicy { window: 60, retention: 15768000 },
            RetentionPolicy { window: 300, retention: 31536000 },
            RetentionPolicy { window: 3600, retention: 315360000 },
            RetentionPolicy { window: 86400, retention: 3153600000 },
        ],
{
    let r = vec![
        RetentionPolicy { window: 0, retention: 604800 },
        RetentionPolicy { window: 60, retention: 15768000 },
        RetentionPolicy { window: 300, retention: 31536000 },
        RetentionPolicy { window: 3600, retention: 315360000 },
        RetentionPolicy { window: 86400, retention: 3153600000 },
    ];
    assert(r@ =~= seq![
        RetentionPolicy { window: 0, retention: 604800 },
        RetentionPolicy { window: 60, retention: 15768000 },
        RetentionPolicy { window: 300, retention: 31536000 },
        RetentionPolicy { window: 3600, retention: 315360000 },
        RetentionPolicy { window: 86400, retention: 3153600000 },
    ]);
    r
}

/// The distinct positive windows of the policies in ascending order: the
/// tiers the rollup cascade fills, smallest first.
pub fn rollup_ladder(policies: &[RetentionPolicy]) -> (r: Vec<i32>)
    ensures
        is_ladder(policies@, r@),
{
    let ghost p = policies@;
    let mut out: Vec<i32> = Vec::new();
    let mut cur: i32 = 0;
    loop
        invariant
            p == policies@,
            cur >= 0,
            forall|i: int, j: int| 0 <= i < j < out@.len() ==> out@[i] < out@[j],
            forall|i: int| 0 <= i < out@.len() ==> 0 < #[trigger] out@[i] && out@[i] <= cur,
            forall|x: i32| (0 < x <= cur && has_window(p, x)) <==> #[trigger] out@.contains(x),
        decreases i32::MAX - cur,
    {
        let mut found = false;
        let mut best: i32 = 0;
        let mut i: usize = 0;
        while i < policies.len()
            invariant
                p == policies@,
                i <= p.len(),
                found ==> best > cur && has_window(p, best),
                forall|k: int| 0 <= k < i && p[k].window > cur ==> found && best <= p[k].window,
            decreases p.len() - i,
        {
            let w = policies[i].window;
            if w > cur && (!found || w < best) {
                found = true;
                best = w;
            }
            i += 1;
        }
        if !found {
            assert forall|x: i32| (x > 0 && has_window(p, x)) <==> #[trigger] out@.contains(x) by {
                if x > 0 && has_window(p, x) {
                    let k = choose|k: int| 0 <= k < p.len() && p[k].window == x;
                    assert(x <= cur);
                }
            }
            return out;
        }
        let ghost old_out = out@;
        out.push(best);
        assert forall|x: i32| (0 < x <= best && has_window(p, x)) <==> #[trigger] out@.contains(x) by {
            if 0 < x <= best && has_window(p, x) {
                if x <= cur {
                    assert(old_out.contains(x));
                    let m = choose|m: int| 0 <= m < old_out.len() && old_out[m] == x;
                    assert(out@[m] == x);
                } else {
                    let k = choose|k: int| 0 <= k < p.len() && p[k].window == x;
                    assert(best <= x);
                    assert(out@[out@.len() - 1] == x);
                }
            }
            if out@.contains(x) {
                let m = choose|m: int| 0 <= m < out@.len() && out@[m] == x;
                if m < old_out.len() {
                    assert(old_out[m] == x);
                    assert(old_out.contains(x));
                }
            }
        }
        cur = best;
    }
}

/// The message for a window that is not a multiple of the window below it.
fn not_multiple_message(window: i32, smaller: i32) -> String {
    let mut msg = String::from_str("window ");
    msg.append(window.to_string().as_str());
    msg.append(" is not a multiple of smaller window ");
    msg.append(smaller.to_string().as_str());
    msg
}

/// Checks a policy list: `Ok` exactly when no window is negative and each
/// non-zero window is a multiple of the non-zero window just below it.
pub fn validate_retention_policies(policies: &[RetentionPolicy]) -> (r: Result<(), String>)
    ensures
        r is Ok <==> policies_valid(policies@),
{
    let ghost p = policies@;
    let mut i: usize = 0;
    while i < policies.len()
        invariant
            p == policies@,
            i <= p.len(),
            forall|k: int| 0 <= k < i ==> p[k].window >= 0,
        decreases p.len() - i,
    {
        if policies[i].window < 0 {
            return Err(String::from_str("retention window cannot be negative"));
        }
        i += 1;
    }
    let ladder = rollup_ladder(policies);
    let ghost l = ladder@;
    let mut j: usize = 1;
    while j < ladder.len()
        invariant
            l == ladder@,
            p == policies@,
            forall|k: int| 0 <= k < p.len() ==> p[k].window >= 0,
            is_ladder(p, l),
            1 <= j,
            j <= l.len() || l.len() == 0,
            forall|m: int| 1 <= m < j && m < l.len() ==> #[trigger] l[m] % l[m - 1] == 0,
        decreases l.len() - j,
    {
        let a = ladder[j - 1];
        let b = ladder[j];
        assert(l.contains(a) && l.contains(b));
        if (b as u32) % (a as u32) != 0 {
            proof {
                assert(l[j - 1] < l[j as int]);
                let ia = choose|k: int| 0 <= k < p.len() && p[k].window == a;
                let ib = choose|k: int| 0 <= k < p.len() && p[k].window == b;
                assert forall|k: int| 0 <= k < p.len() implies !(a < #[trigger] p[k].window && p[k].window < b) by {
                    let c = p[k].window;
                    if a < c && c < b {
                        assert(has_window(p, c));
                        assert(l.contains(c));
                        let m = choose|m: int| 0 <= m < l.len() && l[m] == c;
                        if m <= j - 1 {
                            if m < j - 1 {
                                assert(l[m] < l[j - 1]);
                            }
                        } else if m >= j {
                            if m > j {
                                assert(l[j as int] < l[m]);
                            }
                        }
                    }
                }
                assert(no_window_between(p, a, b));
                assert(a > 0 && b > a);
                assert((b as u32) % (a as u32) == (b as int) % (a as int));
                assert(p[ib].window % p[ia].window != 0);
                assert(0 < p[ia].window && p[ia].window < p[ib].window
                    && no_window_between(p, p[ia].window, p[ib].window));
                assert(!policies_valid(p));
            }
            return Err(not_multiple_message(b, a));
        }
        j += 1;
    }
    proof {
        assert forall|ia: int, ib: int|
            0 <= ia < p.len() && 0 <= ib < p.len() && 0 < #[trigger] p[ia].window && p[ia].window < #[trigger] p[ib].window
                && no_window_between(p, p[ia].window, p[ib].window) implies p[ib].window % p[ia].window == 0 by {
            let a = p[ia].window;
            let b = p[ib].window;
            assert(has_window(p, a) && has_window(p, b));
            assert(l.contains(a) && l.contains(b));
            let x = choose|m: int| 0 <= m < l.len() && l[m] == a;
            let y = choose|m: int| 0 <= m < l.len() && l[m] == b;
            if y <= x {
                if y < x {
                    assert(l[y] < l[x]);
                }
            } else {
                if y > x + 1 {
                    let c = l[x + 1];
                    assert(l[x] < l[x + 1] && l[x + 1] < l[y]);
                    assert(l.contains(c));
                    assert(has_window(p, c));
                    let k = choose|k: int| 0 <= k < p.len() && p[k].window == c;
                    assert(!(a < p[k].window && p[k].window < b));
                }
                assert(y == x + 1);
                assert(l[y] % l[y - 1] == 0);
            }
        }
    }
    Ok(())
}

/// The rollup steps of a policy list: each ladder window with its source
/// window, the ladder window just below it (0, the raw tier, for the
/// smallest).
pub fn rollup_steps(policies: &[RetentionPolicy]) -> (r: Vec<(i32, i32)>)
    ensures
        is_ladder(policies@, r@.map_values(|s: (i32, i32)| s.0)),
        forall|i: int| 0 <= i < r@.len() ==> #[trigger] r@[i].1 == if i == 0 { 0 } else { r@[i - 1].0 },
{
    let ladder = rollup_ladder(policies);
    let mut out: Vec<(i32, i32)> = Vec::new();
    let mut i: usize = 0;
    while i < ladder.len()
        invariant
            i <= ladder@.len(),
            out@.len() == i,
            forall|k: int| 0 <= k < i ==> #[trigger] out@[k].0 == ladder@[k],
            forall|k: int| 0 <= k < i ==> #[trigger] out@[k].1 == if k == 0 { 0 } else { ladder@[k - 1] },
        decreases ladder@.len() - i,
    {
        let source = if i == 0 { 0 } else { ladder[i - 1] };
        out.push((ladder[i], source));
        i += 1;
    }
    assert(out@.map_values(|s: (i32, i32)| s.0) =~= ladder@);
    out
}

/// A window of `w` seconds gives at least 200 points over `d` seconds.
pub open spec fn fits_duration(w: i32, d: i64) -> bool {
    200 * (w as int) <= d as int
}

/// Window size for a query spanning `duration_secs`, aiming at about 200
/// points: the largest positive policy window no larger than a 200th of the
/// span, else the smallest positive window, else 60.
pub fn select_window(policies: &[RetentionPolicy], duration_secs: i64) -> (r: i32)
    ensures
        (exists|i: int| 0 <= i < policies@.len() && policies@[i].window > 0 && fits_duration(policies@[i].window, duration_secs))
            ==> r > 0 && has_window(policies@, r) && fits_duration(r, duration_secs)
            && forall|i: int| 0 <= i < policies@.len() && policies@[i].window > 0
                && fits_duration(policies@[i].window, duration_secs) ==> policies@[i].window <= r,
        !(exists|i: int| 0 <= i < policies@.len() && policies@[i].window > 0 && fits_duration(policies@[i].window, duration_secs))
            && (exists|i: int| 0 <= i < policies@.len() && policies@[i].window > 0)
            ==> r > 0 && has_window(policies@, r)
            && forall|i: int| 0 <= i < policies@.len() && policies@[i].window > 0 ==> r <= policies@[i].window,
        !(exists|i: int| 0 <= i < policies@.len() && policies@[i].window > 0) ==> r == 60,
{
    let ghost p = policies@;
    let mut found_fit = false;
    let mut best_fit: i32 = 0;
    let mut found_pos = false;
    let mut min_pos: i32 = 0;
    let mut i: usize = 0;
    while i < policies.len()
        invariant
            p == policies@,
            i <= p.len(),
            found_fit ==> best_fit > 0 && has_window(p, best_fit) && fits_duration(best_fit, duration_secs),
            forall|k: int| 0 <= k < i && p[k].window > 0 && fits_duration(p[k].window, duration_secs)
                ==> found_fit && p[k].window <= best_fit,
            found_pos ==> min_pos > 0 && has_window(p, min_pos),
            forall|k: int| 0 <= k < i && p[k].window > 0 ==> found_pos && min_pos <= p[k].window,
        decreases p.len() - i,
    {
        let w = policies[i].window;
        if w > 0 {
            if !found_pos || w < min_pos {
                found_pos = true;
                min_pos = w;
            }
            if 200 * (w as i64) <= duration_secs && (!found_fit || w > best_fit) {
                found_fit = true;
                best_fit = w;
            }
        }
        i += 1;
    }
    if found_fit {
        best_fit
    } else if found_pos {
        min_pos
    } else {
        60
    }
}

/// What the retention pass deletes for one policy.
#[derive(Clone, Copy, Debug, PartialEq, Eq, Structural)]
pub enum RetentionAction {
    /// Delete the target's raw rows older than the instant.
    DeleteRawBefore(Timestamp),
    /// Delete the target's rows of this window size older than the instant.
    DeleteAggregatedBefore(i32, Timestamp),
}

/// `now` less `retention` seconds, held within the range of `i64` seconds.
pub open spec fn retention_cutoff(now: Timestamp, retention: i64) -> Timestamp {
    let s = now.secs - retention;
    Timestamp {
        secs: if s < i64::MIN { i64::MIN } else if s > i64::MAX { i64::MAX } else { s as i64 },
        nanos: now.nanos,
    }
}

pub open spec fn retention_action(p: RetentionPolicy, now: Timestamp) -> RetentionAction {
    if p.window == 0 {
        RetentionAction::DeleteRawBefore(retention_cutoff(now, p.retention))
    } else {
        RetentionAction::DeleteAggregatedBefore(p.window, retention_cutoff(now, p.retention))
    }
}

/// The deletions one retention pass makes for a target, one per policy in
/// order: rows of the policy's tier older than `now` less its retention.
pub fn retention_actions(policies: &[RetentionPolicy], now: Timestamp) -> (r: Vec<RetentionAction>)
    ensures
        r@.len() == policies@.len(),
        forall|i: int| 0 <= i < r@.len() ==> #[trigger] r@[i] == retention_action(policies@[i], now),
{
    let mut out: Vec<RetentionAction> = Vec::new();
    let mut i: usize = 0;
    while i < policies.len()
        invariant
            i <= policies@.len(),
            out@.len() == i,
            forall|k: int| 0 <= k < i ==> #[trigger] out@[k] == retention_action(policies@[k], now),
        decreases policies@.len() - i,
    {
        let p = policies[i];
        let s: i128 = now.secs as i128 - p.retention as i128;
        let secs: i64 = if s < i64::MIN as i128 {
            i64::MIN
        } else if s > i64::MAX as i128 {
            i64::MAX
        } else {
            s as i64
        };
        let cutoff = Timestamp { secs, nanos: now.nanos };
        let action = if p.window == 0 {
            RetentionAction::DeleteRawBefore(cutoff)
        } else {
            RetentionAction::DeleteAggregatedBefore(p.window, cutoff)
        };
        out.push(action);
        i += 1;
    }
    out
}

} // verus!
