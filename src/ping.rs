//! Reading the latency out of the text the system `ping` command prints,
//! for hosts where no ICMP socket can be opened.

use vstd::prelude::*;
use crate::probe::ProbeError;

verus! {

/// Per-packet line: `time=12.3 ms` (Linux and some macOS builds).
pub const PER_PACKET_PATTERN: &'static str = r"time[=<](?P<val>[0-9.]+)\s*ms";

/// macOS summary: `round-trip min/avg/max/stddev = a/b/c/d ms`.
pub const MACOS_SUMMARY_PATTERN: &'static str = r"round-trip\s+min/avg/max/stddev\s*=\s*([0-9.]+)/([0-9.]+)/([0-9.]+)";

/// Linux summary: `rtt min/avg/max/mdev = a/b/c/d ms`.
pub const LINUX_SUMMARY_PATTERN: &'static str = r"rtt\s+min/avg/max/mdev\s*=\s*([0-9.]+)/([0-9.]+)/([0-9.]+)";

/// Capture group `group` of the leftmost-first match of `pattern` in
/// `text`, as the regex crate finds it; `None` when the pattern does not
/// compile, does not match, or the group took no part in the match.
pub uninterp spec fn regex_capture(pattern: Seq<char>, text: Seq<char>, group: nat) -> Option<Seq<char>>;

/// Relies on regex::Regex (new, captures, get): compiles `pattern`, takes
/// its leftmost-first match in `text`, and returns the text of capture
/// group `group`.
#[verifier::external_body]
fn capture_group(pattern: &str, text: &str, group: usize) -> (r: Option<String>)
    ensures
        match r {
            Some(s) => regex_capture(pattern@, text@, group as nat) == Some(s@),
            None => regex_capture(pattern@, text@, group as nat) is None,
        },
{
    let re = regex::Regex::new(pattern).ok()?;
    re.captures(text).and_then(|c| c.get(group)).map(|m| m.as_str().to_string())
}

pub open spec fn is_digit(c: char) -> bool {
    '0' <= c && c <= '9'
}

pub open spec fn all_digits(s: Seq<char>) -> bool {
    forall|i: int| 0 <= i < s.len() ==> is_digit(#[trigger] s[i])
}

/// The decimal value of a run of digits.
pub open spec fn digits_value(s: Seq<char>) -> nat
    decreases s.len(),
{
    if s.len() == 0 {
        0
    } else {
        digits_value(s.drop_last()) * 10 + (s.last() as u32 - 48) as nat
    }
}

pub open spec fn pow10(k: nat) -> nat
    decreases k,
{
    if k == 0 {
        1
    } else {
        10 * pow10((k - 1) as nat)
    }
}

/// Nanoseconds in the fractional digits of a millisecond count; digits
/// past the sixth fall below a nanosecond and are dropped.
pub open spec fn fraction_nanos(f: Seq<char>) -> nat {
    let k: nat = if f.len() < 6 { f.len() } else { 6 };
    digits_value(f.take(k as int)) * pow10((6 - k) as nat)
}

/// `s` splits at a point into digits, then the point, then digits.
pub open spec fn point_at(s: Seq<char>, d: int) -> bool {
    0 <= d < s.len() && s[d] == '.' && all_digits(s.take(d)) && all_digits(s.skip(d + 1))
}

/// Nanoseconds in a decimal count of milliseconds (`12`, `12.345`, `12.`,
/// `.5`); `None` unless the text is digits with at most one point and at
/// least one digit.
pub open spec fn millis_text_nanos(s: Seq<char>) -> Option<nat> {
    if s.len() >= 1 && all_digits(s) {
        Some(digits_value(s) * 1_000_000)
    } else if s.len() >= 2 && exists|d: int| point_at(s, d) {
        let d = choose|d: int| point_at(s, d);
        Some(digits_value(s.take(d)) * 1_000_000 + fraction_nanos(s.skip(d + 1)))
    } else {
        None
    }
}

/// The same, as a `u64`; `None` also when the value does not fit.
pub open spec fn millis_text_nanos_u64(s: Seq<char>) -> Option<u64> {
    match millis_text_nanos(s) {
        Some(v) => if v <= u64::MAX { Some(v as u64) } else { None },
        None => None,
    }
}

pub(crate) proof fn lemma_digits_value_prefix(s: Seq<char>, i: int)
    requires
        0 <= i <= s.len(),
    ensures
        digits_value(s.take(i)) <= digits_value(s),
    decreases s.len(),
{
    if i < s.len() {
        assert(s.drop_last().take(i) =~= s.take(i));
        lemma_digits_value_prefix(s.drop_last(), i);
    } else {
        assert(s.take(i) =~= s);
    }
}

proof fn lemma_digits_value_bound(s: Seq<char>)
    requires
        all_digits(s),
    ensures
        digits_value(s) < pow10(s.len()),
    decreases s.len(),
{
    if s.len() > 0 {
        let p = s.drop_last();
        assert(all_digits(p)) by {
            assert forall|i: int| 0 <= i < p.len() implies is_digit(#[trigger] p[i]) by {
                assert(p[i] == s[i]);
            }
        }
        lemma_digits_value_bound(p);
        assert(is_digit(s[s.len() - 1]));
        let d = (s.last() as u32 - 48) as nat;
        assert(d <= 9);
        assert(digits_value(p) * 10 + d < pow10(p.len()) * 10) by (nonlinear_arith)
            requires digits_value(p) < pow10(p.len()), d <= 9;
    }
}

/// Parses a decimal count of milliseconds into nanoseconds.
pub fn parse_millis_nanos(text: &str) -> (r: Option<u64>)
    ensures
        r == millis_text_nanos_u64(text@),
{
    let ghost s = text@;
    let n = text.unicode_len();
    let mut d: usize = 0;
    while d < n && text.get_char(d) != '.'
        invariant
            s == text@,
            n == s.len(),
            d <= n,
            forall|k: int| 0 <= k < d ==> s[k] != '.',
        decreases n - d,
    {
        d += 1;
    }
    // Whole milliseconds.
    let mut ip: u64 = 0;
    let mut over = false;
    let mut i: usize = 0;
    while i < d
        invariant
            s == text@,
            n == s.len(),
            d <= n,
            d < n ==> s[d as int] == '.',
            forall|k: int| 0 <= k < d ==> s[k] != '.',
            i <= d,
            all_digits(s.take(i as int)),
            !over ==> ip == digits_value(s.take(i as int)),
            over ==> digits_value(s.take(i as int)) > u64::MAX,
        decreases d - i,
    {
        let c = text.get_char(i);
        if !('0' <= c && c <= '9') {
            proof {
                assert(s.take(d as int)[i as int] == c);
                if d == n {
                    assert(s.take(d as int) =~= s);
                    assert(!all_digits(s));
                } else {
                    assert(forall|dd: int| point_at(s, dd) ==> dd == d) by {
                        assert forall|dd: int| point_at(s, dd) implies dd == d by {
                            if dd < d {
                                assert(s[dd] != '.');
                            } else if dd > d {
                                assert(s.take(dd)[d as int] == s[d as int]);
                            }
                        }
                    }
                    assert(!point_at(s, d as int)) by {
                        assert(s.take(d as int)[i as int] == c);
                    }
                    assert(!all_digits(s)) by {
                        assert(s[d as int] == '.');
                    }
                }
            }
            return None;
        }
        let digit = (c as u32 - 48) as u64;
        proof {
            assert(s.take(i + 1).drop_last() =~= s.take(i as int));
            assert(s.take(i + 1).last() == c);
            assert(all_digits(s.take(i + 1))) by {
                assert forall|k: int| 0 <= k < i + 1 implies is_digit(#[trigger] s.take(i + 1)[k]) by {
                    if k < i {
                        assert(s.take(i + 1)[k] == s.take(i as int)[k]);
                    }
                }
            }
        }
        if !over {
            match ip.checked_mul(10) {
                Some(t) => match t.checked_add(digit) {
                    Some(u) => {
                        ip = u;
                    },
                    None => {
                        over = true;
                    },
                },
                None => {
                    over = true;
                    proof {
                        assert(digits_value(s.take(i + 1)) >= digits_value(s.take(i as int)) * 10);
                    }
                },
            }
        } else {
            assert(digits_value(s.take(i + 1)) >= digits_value(s.take(i as int)) * 10);
        }
        i += 1;
    }
    if d == n {
        assert(s.take(n as int) =~= s);
        if n == 0 || over {
            return None;
        }
        return match ip.checked_mul(1_000_000) {
            Some(v) => Some(v),
            None => None,
        };
    }
    // Fractional milliseconds, to the nanosecond.
    let ghost f = s.skip(d + 1);
    let mut fv: u64 = 0;
    let mut fl: usize = 0;
    let mut j: usize = d + 1;
    while j < n
        invariant
            s == text@,
            n == s.len(),
            d < n,
            s[d as int] == '.',
            forall|k: int| 0 <= k < d ==> s[k] != '.',
            all_digits(s.take(d as int)),
            i == d,
            !over ==> ip == digits_value(s.take(i as int)),
            over ==> digits_value(s.take(i as int)) > u64::MAX,
            f == s.skip(d + 1),
            d + 1 <= j <= n,
            fl == if j - (d + 1) < 6 { j - (d + 1) } else { 6 },
            all_digits(f.take(j - (d + 1))),
            fv == digits_value(f.take(fl as int)),
            fv < pow10(fl as nat),
        decreases n - j,
    {
        let c = text.get_char(j);
        let ghost k = j - (d + 1);
        if !('0' <= c && c <= '9') {
            proof {
                assert(f[k] == c);
                assert(!all_digits(f));
                assert(s[d as int] == '.');
                assert(!all_digits(s));
                assert forall|dd: int| point_at(s, dd) implies dd == d by {
                    if dd < d {
                        assert(s[dd] != '.');
                    } else if dd > d {
                        assert(s.take(dd)[d as int] == s[d as int]);
                    }
                }
            }
            return None;
        }
        proof {
            assert(f.take(k + 1).drop_last() =~= f.take(k));
            assert(all_digits(f.take(k + 1))) by {
                assert forall|m: int| 0 <= m < k + 1 implies is_digit(#[trigger] f.take(k + 1)[m]) by {
                    if m < k {
                        assert(f.take(k + 1)[m] == f.take(k)[m]);
                    } else {
                        assert(f[k] == c);
                    }
                }
            }
        }
        if fl < 6 {
            let digit = (c as u32 - 48) as u64;
            proof {
                assert(fv * 10 + digit < pow10(fl as nat) * 10) by (nonlinear_arith)
                    requires fv < pow10(fl as nat), digit <= 9;
                assert(pow10((fl + 1) as nat) == 10 * pow10(fl as nat));
                assert(pow10(fl as nat) <= 100000) by {
                    reveal_with_fuel(pow10, 7);
                }
                assert(f.take(fl + 1).drop_last() =~= f.take(fl as int));
                assert(f.take(fl + 1).last() == c);
            }
            fv = fv * 10 + digit;
            fl += 1;
        }
        j += 1;
    }
    proof {
        assert(f.take(n - (d + 1)) =~= f);
    }
    if n < 2 {
        return None;
    }
    let ghost k0 = fl as nat;
    let ghost base = fv as nat;
    assert(pow10(0) == 1);
    assert(fv == base * pow10((fl - k0) as nat)) by {
        assert((fl - k0) as nat == 0);
        assert(base * 1 == base);
    }
    while fl < 6
        invariant
            s == text@,
            n == s.len(),
            d < n,
            s[d as int] == '.',
            forall|k: int| 0 <= k < d ==> s[k] != '.',
            all_digits(s.take(d as int)),
            all_digits(f),
            f == s.skip(d + 1),
            i == d,
            !over ==> ip == digits_value(s.take(i as int)),
            over ==> digits_value(s.take(i as int)) > u64::MAX,
            base == digits_value(f.take(k0 as int)),
            k0 == if f.len() < 6 { f.len() } else { 6 },
            k0 <= fl <= 6,
            fv == base * pow10((fl - k0) as nat),
            fv < pow10(fl as nat),
        decreases 6 - fl,
    {
        proof {
            assert(fv * 10 < pow10(fl as nat) * 10) by (nonlinear_arith)
                requires fv < pow10(fl as nat);
            assert(pow10(fl as nat) <= 100000) by {
                reveal_with_fuel(pow10, 7);
            }
            assert(pow10((fl + 1 - k0) as nat) == 10 * pow10((fl - k0) as nat));
            assert(base * (10 * pow10((fl - k0) as nat)) == (base * pow10((fl - k0) as nat)) * 10) by (nonlinear_arith);
        }
        fv = fv * 10;
        fl += 1;
    }
    proof {
        assert(all_digits(s.take(d as int)));
        assert(all_digits(s.skip(d + 1)));
        assert(point_at(s, d as int));
        assert(!all_digits(s)) by {
            assert(s[d as int] == '.');
        }
        let dd = choose|dd: int| point_at(s, dd);
        if dd < d {
            assert(s[dd] != '.');
        } else if dd > d {
            assert(s.take(dd)[d as int] == s[d as int]);
        }
        assert(fv == fraction_nanos(f));
        if over {
            lemma_digits_value_prefix(s.take(d as int), i as int);
            assert(s.take(d as int).take(i as int) =~= s.take(i as int));
        }
        assert(i == d);
    }
    if over {
        return None;
    }
    match ip.checked_mul(1_000_000) {
        Some(w) => match w.checked_add(fv) {
            Some(v) => Some(v),
            None => None,
        },
        None => None,
    }
}

/// Nanoseconds in one captured millisecond count, if any.
pub open spec fn capture_nanos(c: Option<Seq<char>>) -> Option<u64> {
    match c {
        Some(s) => millis_text_nanos_u64(s),
        None => None,
    }
}

/// The latency a ping transcript gives: the per-packet time, else the
/// average of a macOS summary, else the average of a Linux summary.
pub open spec fn ping_latency(per_packet: Option<Seq<char>>, macos_avg: Option<Seq<char>>, linux_avg: Option<Seq<char>>) -> Option<u64> {
    if capture_nanos(per_packet) is Some {
        capture_nanos(per_packet)
    } else if capture_nanos(macos_avg) is Some {
        capture_nanos(macos_avg)
    } else {
        capture_nanos(linux_avg)
    }
}

pub open spec fn opt_view(s: Option<String>) -> Option<Seq<char>> {
    match s {
        Some(t) => Some(t@),
        None => None,
    }
}

fn capture_value(c: &Option<String>) -> (r: Option<u64>)
    ensures
        r == capture_nanos(opt_view(*c)),
{
    match c {
        Some(s) => parse_millis_nanos(s.as_str()),
        None => None,
    }
}

/// Picks the latency out of the three captures of a ping transcript.
pub fn latency_from_captures(per_packet: Option<String>, macos_avg: Option<String>, linux_avg: Option<String>) -> (r: Option<u64>)
    ensures
        r == ping_latency(opt_view(per_packet), opt_view(macos_avg), opt_view(linux_avg)),
{
    let a = capture_value(&per_packet);
    if a.is_some() {
        return a;
    }
    let b = capture_value(&macos_avg);
    if b.is_some() {
        return b;
    }
    capture_value(&linux_avg)
}

/// Reads the round-trip time, in nanoseconds, from the output of `ping`.
pub fn parse_ping_output(output: &str) -> (r: Result<u64, ProbeError>)
    ensures
        match ping_latency(
            regex_capture(PER_PACKET_PATTERN@, output@, 1),
            regex_capture(MACOS_SUMMARY_PATTERN@, output@, 2),
            regex_capture(LINUX_SUMMARY_PATTERN@, output@, 2),
        ) {
            Some(v) => r == Ok::<u64, ProbeError>(v),
            None => r matches Err(ProbeError::Command(_)),
        },
{
    let per_packet = capture_group(PER_PACKET_PATTERN, output, 1);
    let macos_avg = capture_group(MACOS_SUMMARY_PATTERN, output, 2);
    let linux_avg = capture_group(LINUX_SUMMARY_PATTERN, output, 2);
    match latency_from_captures(per_packet, macos_avg, linux_avg) {
        Some(v) => Ok(v),
        None => {
            let mut msg = String::from_str("failed to parse ping output: ");
            msg.append(output);
            Err(ProbeError::Command(msg))
        },
    }
}

} // verus!
