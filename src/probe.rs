//! Probe configuration, errors, and the decisions around a probe run: which
//! probe a type tag names, when a result counts as a timeout, and which
//! outcomes become raw samples.

use vstd::prelude::*;
use std::time::Duration;
use crate::sample::{Latency, RawSample};
use crate::time::Timestamp;

verus! {

/// Why a probe produced no latency.
#[derive(Clone, Debug)]
pub enum ProbeError {
    /// No answer within the timeout.
    Timeout(Duration),
    Network(String),
    /// The probe configuration is unusable.
    Config(String),
    /// The external command failed or printed nothing usable.
    Command(String),
}

/// What one probe run needs.
#[derive(Clone, Debug)]
pub struct ProbeConfig {
    pub probe_type: String,
    pub address: String,
    pub timeout: Duration,
}

impl ProbeConfig {
    pub fn new(probe_type: &str, address: &str, timeout: Duration) -> (r: ProbeConfig)
        ensures
            r.probe_type@ == probe_type@,
            r.address@ == address@,
            r.timeout == timeout,
    {
        ProbeConfig { probe_type: String::from_str(probe_type), address: String::from_str(address), timeout }
    }
}

/// The probe implementations a type tag can name.
#[derive(Clone, Copy, Debug, PartialEq, Eq, Structural)]
pub enum ProbeKind {
    Http,
    Dns,
    Ping,
}

/// Whether `a` and `b` hold the same characters.
pub fn str_equal(a: &str, b: &str) -> (r: bool)
    ensures
        r == (a@ == b@),
{
    let n = a.unicode_len();
    if n != b.unicode_len() {
        return false;
    }
    let mut i: usize = 0;
    while i < n
        invariant
            n == a@.len(),
            n == b@.len(),
            i <= n,
            forall|k: int| 0 <= k < i ==> a@[k] == b@[k],
        decreases n - i,
    {
        if a.get_char(i) != b.get_char(i) {
            return false;
        }
        i += 1;
    }
    assert(a@ =~= b@);
    true
}

/// Whether `s` begins with `prefix`.
pub open spec fn has_prefix(s: Seq<char>, prefix: Seq<char>) -> bool {
    prefix.len() <= s.len() && s.take(prefix.len() as int) == prefix
}

/// Whether `s` begins with `prefix`.
pub fn str_starts_with(s: &str, prefix: &str) -> (r: bool)
    ensures
        r == has_prefix(s@, prefix@),
{
    let n = prefix.unicode_len();
    if n > s.unicode_len() {
        return false;
    }
    let mut i: usize = 0;
    while i < n
        invariant
            n == prefix@.len(),
            n <= s@.len(),
            i <= n,
            forall|k: int| 0 <= k < i ==> s@[k] == prefix@[k],
        decreases n - i,
    {
        if s.get_char(i) != prefix.get_char(i) {
            assert(s@.take(n as int)[i as int] != prefix@[i as int]);
            return false;
        }
        i += 1;
    }
    assert(s@.take(n as int) =~= prefix@);
    true
}

/// The probe named by a type tag; any tag but `http`, `dns` and `ping` is a
/// configuration error.
pub fn probe_kind(probe_type: &str) -> (r: Result<ProbeKind, ProbeError>)
    ensures
        probe_type@ == "http"@ ==> r == Ok::<ProbeKind, ProbeError>(ProbeKind::Http),
        probe_type@ == "dns"@ ==> r == Ok::<ProbeKind, ProbeError>(ProbeKind::Dns),
        probe_type@ == "ping"@ ==> r == Ok::<ProbeKind, ProbeError>(ProbeKind::Ping),
        probe_type@ != "http"@ && probe_type@ != "dns"@ && probe_type@ != "ping"@ ==> r matches Err(ProbeError::Config(_)),
{
    proof {
        reveal_strlit("http");
        reveal_strlit("dns");
        reveal_strlit("ping");
        assert("dns"@.len() != "http"@.len());
        assert("ping"@[0] != "http"@[0]);
    }
    if str_equal(probe_type, "http") {
        Ok(ProbeKind::Http)
    } else if str_equal(probe_type, "dns") {
        Ok(ProbeKind::Dns)
    } else if str_equal(probe_type, "ping") {
        Ok(ProbeKind::Ping)
    } else {
        let mut msg = String::from_str("unknown probe type: ");
        msg.append(probe_type);
        Err(ProbeError::Config(msg))
    }
}

/// Turns a success whose latency reaches the timeout into a timeout; any
/// other result passes unchanged. `timeout_nanos` is `timeout` in
/// nanoseconds.
pub fn enforce_timeout(result: Result<u64, ProbeError>, timeout: Duration, timeout_nanos: u128) -> (r: Result<u64, ProbeError>)
    ensures
        match result {
            Ok(l) => if l as u128 >= timeout_nanos {
                r == Err::<u64, ProbeError>(ProbeError::Timeout(timeout))
            } else {
                r == result
            },
            Err(_) => r == result,
        },
{
    match result {
        Ok(l) => {
            if l as u128 >= timeout_nanos {
                Err(ProbeError::Timeout(timeout))
            } else {
                Ok(l)
            }
        },
        Err(e) => Err(e),
    }
}

/// The raw sample a probe outcome becomes: a latency for a success, the
/// timeout marker for a timeout, nothing for any other error.
pub fn outcome_to_sample(time: Timestamp, target_id: i64, result: &Result<u64, ProbeError>) -> (r: Option<RawSample>)
    ensures
        match *result {
            Ok(l) => r == Some(RawSample { time, target_id, latency: Latency::Nanos(l) }),
            Err(ProbeError::Timeout(_)) => r == Some(RawSample { time, target_id, latency: Latency::Timeout }),
            Err(_) => r is None,
        },
{
    match result {
        Ok(l) => Some(RawSample { time, target_id, latency: Latency::Nanos(*l) }),
        Err(ProbeError::Timeout(_)) => Some(RawSample { time, target_id, latency: Latency::Timeout }),
        Err(_) => None,
    }
}

/// The URL an HTTP probe fetches: the address itself when it names the
/// `http` or `https` scheme, else the address behind `http://`.
pub fn http_probe_url(address: &str) -> (r: String)
    ensures
        r@ == if has_prefix(address@, "http://"@) || has_prefix(address@, "https://"@) {
            address@
        } else {
            "http://"@ + address@
        },
{
    if str_starts_with(address, "http://") || str_starts_with(address, "https://") {
        String::from_str(address)
    } else {
        let mut url = String::from_str("http://");
        url.append(address);
        url
    }
}

/// The server a DNS probe queries: the address itself when it names a
/// port, else the address on port 53.
pub fn dns_server_address(address: &str) -> (r: String)
    ensures
        r@ == if address@.contains(':') { address@ } else { address@ + ":53"@ },
{
    let n = address.unicode_len();
    let mut i: usize = 0;
    while i < n
        invariant
            n == address@.len(),
            i <= n,
            forall|k: int| 0 <= k < i ==> address@[k] != ':',
        decreases n - i,
    {
        if address.get_char(i) == ':' {
            return String::from_str(address);
        }
        i += 1;
    }
    let mut s = String::from_str(address);
    s.append(":53");
    s
}

/// The pre-send delay, in milliseconds, that a drawn random number gives:
/// uniform over 0 to 99 when the number is uniform.
pub fn jitter_from(x: u64) -> (r: u64)
    ensures
        r == x % 100,
{
    x % 100
}

/// Milliseconds of random delay before a probe fires, so that targets on
/// the same interval do not all fire at once.
pub fn probe_jitter_ms() -> (r: u64)
    ensures
        r < 100,
{
    let x: u64 = rand::random();
    jitter_from(x)
}

/// Whether `needle` occurs in `hay`.
pub open spec fn has_infix(hay: Seq<char>, needle: Seq<char>) -> bool {
    exists|i: int| 0 <= i && i + needle.len() <= hay.len() && #[trigger] hay.subrange(i, i + needle.len()) == needle
}

/// Whether `needle` occurs in `hay`.
pub fn str_contains(hay: &str, needle: &str) -> (r: bool)
    ensures
        r == has_infix(hay@, needle@),
{
    let n = hay.unicode_len();
    let m = needle.unicode_len();
    if m > n {
        proof {
            assert forall|i: int| !(0 <= i && i + m <= n && #[trigger] hay@.subrange(i, i + m) == needle@) by {}
        }
        return false;
    }
    let mut i: usize = 0;
    while i <= n - m
        invariant
            n == hay@.len(),
            m == needle@.len(),
            m <= n,
            i <= n - m + 1,
            forall|k: int| 0 <= k < i ==> #[trigger] hay@.subrange(k, k + m) != needle@,
        decreases n - i,
    {
        let mut j: usize = 0;
        let mut same = true;
        while j < m
            invariant
                n == hay@.len(),
                m == needle@.len(),
                i + m <= n,
                j <= m,
                same == forall|t: int| 0 <= t < j ==> hay@[i + t] == needle@[t],
            decreases m - j,
        {
            if hay.get_char(i + j) != needle.get_char(j) {
                same = false;
            }
            j += 1;
        }
        if same {
            assert(hay@.subrange(i as int, i + m) =~= needle@);
            return true;
        }
        assert(hay@.subrange(i as int, i + m) != needle@) by {
            let t = choose|t: int| 0 <= t < m && hay@[i + t] != needle@[t];
            assert(hay@.subrange(i as int, i + m)[t] == hay@[i + t]);
        }
        i += 1;
    }
    proof {
        assert forall|k: int| !(0 <= k && k + m <= n && #[trigger] hay@.subrange(k, k + m) == needle@) by {
            if 0 <= k && k + m <= n {
                assert(k < i);
            }
        }
    }
    false
}

/// Whether a failed `ping` run means the host did not answer: its error
/// output mentions a timeout, or its report shows all packets lost.
pub open spec fn ping_run_timed_out(stderr: Seq<char>, stdout: Seq<char>) -> bool {
    has_infix(stderr, "timeout"@) || has_infix(stdout, "100% packet loss"@) || has_infix(stdout, "100.0% packet loss"@)
}

/// The error for a `ping` run that exited with failure: a timeout when the
/// host did not answer, else a command error carrying the report.
pub fn ping_command_failure(stderr: &str, stdout: &str, timeout: Duration) -> (r: ProbeError)
    ensures
        ping_run_timed_out(stderr@, stdout@) ==> r == ProbeError::Timeout(timeout),
        !ping_run_timed_out(stderr@, stdout@) ==> (r matches ProbeError::Command(m) && m@ == "ping failed: "@ + stdout@),
{
    if str_contains(stderr, "timeout") || str_contains(stdout, "100% packet loss")
        || str_contains(stdout, "100.0% packet loss") {
        ProbeError::Timeout(timeout)
    } else {
        let mut msg = String::from_str("ping failed: ");
        msg.append(stdout);
        ProbeError::Command(msg)
    }
}

/// Whether a native ping failure says the socket was not permitted.
pub open spec fn is_permission_failure(e: ProbeError) -> bool {
    match e {
        ProbeError::Network(m) => has_infix(m@, "Permission"@) || has_infix(m@, "Operation not permitted"@)
            || has_infix(m@, "denied"@),
        _ => false,
    }
}

/// Whether a native ping failure should be retried with the `ping`
/// command: it was refused for lack of permission.
pub fn needs_command_fallback(e: &ProbeError) -> (r: bool)
    ensures
        r == is_permission_failure(*e),
{
    match e {
        ProbeError::Network(m) => {
            str_contains(m.as_str(), "Permission") || str_contains(m.as_str(), "Operation not permitted")
                || str_contains(m.as_str(), "denied")
        },
        _ => false,
    }
}

/// std's `Duration` is `Copy`: its clone is the same value.
pub assume_specification[ <std::time::Duration as Clone>::clone ](d: &Duration) -> (r: Duration)
    ensures
        r == *d,
;

/// rand's `random`: a value from the thread-local generator. Nothing is
/// promised of it.
pub assume_specification<T>[ rand::random::<T> ]() -> (r: T)
    where
        rand::distributions::Standard: rand::distributions::Distribution<T>,
;

} // verus!
