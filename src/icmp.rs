//! ICMP echo packets: building requests, the RFC 1071 checksum, and telling
//! our own echo reply from other traffic on the socket.

use vstd::prelude::*;
use crate::codec::be_u64;
use crate::time::{now, Timestamp, NANOS_PER_SEC};

verus! {

/// Length of an echo request: an 8-byte header and a 56-byte payload.
pub const ECHO_PACKET_LEN: usize = 64;

pub open spec fn be_u16(x: u16) -> Seq<u8> {
    seq![(x / 256) as u8, (x % 256) as u8]
}

/// An echo request of the given type, with a zero checksum: type, code 0,
/// checksum, identifier, sequence, then a payload that opens with the
/// big-endian send stamp and is zero after it.
pub open spec fn echo_request_body(kind: u8, identifier: u16, sequence: u16, stamp: u64) -> Seq<u8> {
    seq![kind, 0u8, 0u8, 0u8] + be_u16(identifier) + be_u16(sequence) + be_u64(stamp) + Seq::new(48, |i: int| 0u8)
}

/// Sum of the first `n` big-endian 16-bit words of `s`.
pub open spec fn word_sum(s: Seq<u8>, n: nat) -> int
    decreases n,
{
    if n == 0 {
        0
    } else {
        word_sum(s, (n - 1) as nat) + s[2 * (n - 1)] * 256 + s[2 * (n - 1) + 1]
    }
}

/// The words of `s`, an odd last byte taken as the high half of a word.
pub open spec fn ones_total(s: Seq<u8>) -> int {
    word_sum(s, s.len() / 2) + if s.len() % 2 == 1 { s[s.len() - 1] * 256 } else { 0 }
}

/// End-around carry: folds the bits above 16 back in until none are left.
pub open spec fn fold16(x: int) -> int
    decreases x,
    via fold16_decreases
{
    if x < 0x10000 {
        x
    } else {
        fold16(x % 0x10000 + x / 0x10000)
    }
}

#[via_fn]
proof fn fold16_decreases(x: int) {
    if x >= 0x10000 {
        assert(0 <= x % 0x10000 + x / 0x10000 < x) by (nonlinear_arith)
            requires x >= 0x10000;
    }
}

/// RFC 1071 checksum: the ones' complement of the ones'-complement sum.
pub open spec fn checksum_of(s: Seq<u8>) -> int {
    0xffff - fold16(ones_total(s))
}

/// The IPv4 echo request with its checksum in bytes 2 and 3.
pub open spec fn echo_v4_packet(identifier: u16, sequence: u16, stamp: u64) -> Seq<u8> {
    let body = echo_request_body(8, identifier, sequence, stamp);
    let c = checksum_of(body);
    body.update(2, (c / 256) as u8).update(3, (c % 256) as u8)
}

/// The ICMPv6 echo request; the kernel fills in its checksum.
pub open spec fn echo_v6_packet(identifier: u16, sequence: u16, stamp: u64) -> Seq<u8> {
    echo_request_body(128, identifier, sequence, stamp)
}

/// Computes the RFC 1071 checksum of `data`.
pub fn icmp_checksum(data: &[u8]) -> (r: u16)
    ensures
        r as int == checksum_of(data@),
{
    let n = data.len();
    let mut sum: u128 = 0;
    let mut i: usize = 0;
    while i + 1 < n
        invariant
            n == data@.len(),
            i % 2 == 0,
            i <= n,
            sum == word_sum(data@, (i / 2) as nat),
            sum <= 0x10000 * (i as int),
        decreases n - i,
    {
        proof {
            assert((i + 2) / 2 == i / 2 + 1);
            assert(2 * ((i + 2) / 2 - 1) == i);
        }
        sum = sum + (data[i] as u128) * 256 + data[i + 1] as u128;
        i += 2;
    }
    proof {
        assert(i / 2 == n / 2);
    }
    if i < n {
        sum = sum + (data[i] as u128) * 256;
    }
    assert(sum == ones_total(data@));
    let ghost total = sum as int;
    while sum >= 0x10000
        invariant
            fold16(sum as int) == fold16(total),
        decreases sum,
    {
        proof {
            assert(sum % 0x10000 + sum / 0x10000 < sum) by (nonlinear_arith)
                requires sum >= 0x10000;
        }
        sum = sum % 0x10000 + sum / 0x10000;
    }
    (0xffff - sum) as u16
}

fn push_be_u16(v: &mut Vec<u8>, x: u16)
    ensures
        final(v)@ == old(v)@ + be_u16(x),
{
    v.push((x / 256) as u8);
    v.push((x % 256) as u8);
    assert(final(v)@ =~= old(v)@ + be_u16(x));
}

fn echo_request_with_kind(kind: u8, identifier: u16, sequence: u16, stamp: u64) -> (r: Vec<u8>)
    ensures
        r@ == echo_request_body(kind, identifier, sequence, stamp),
{
    let mut p: Vec<u8> = Vec::new();
    p.push(kind);
    p.push(0);
    p.push(0);
    p.push(0);
    push_be_u16(&mut p, identifier);
    push_be_u16(&mut p, sequence);
    let ghost head = p@;
    p.push((stamp >> 56u64) as u8);
    p.push(((stamp >> 48u64) & 0xffu64) as u8);
    p.push(((stamp >> 40u64) & 0xffu64) as u8);
    p.push(((stamp >> 32u64) & 0xffu64) as u8);
    p.push(((stamp >> 24u64) & 0xffu64) as u8);
    p.push(((stamp >> 16u64) & 0xffu64) as u8);
    p.push(((stamp >> 8u64) & 0xffu64) as u8);
    p.push((stamp & 0xffu64) as u8);
    assert(p@ =~= head + be_u64(stamp));
    let ghost stamped = p@;
    let mut k: usize = 0;
    while k < 48
        invariant
            k <= 48,
            p@ == stamped + Seq::new(k as nat, |i: int| 0u8),
        decreases 48 - k,
    {
        p.push(0);
        assert(p@ =~= stamped + Seq::new((k + 1) as nat, |i: int| 0u8));
        k += 1;
    }
    assert(p@ =~= echo_request_body(kind, identifier, sequence, stamp));
    p
}

/// Builds an IPv4 echo request (type 8, code 0) whose payload carries
/// `stamp`, with its checksum filled in.
pub fn build_icmp_echo_request_at(identifier: u16, sequence: u16, stamp: u64) -> (r: Vec<u8>)
    ensures
        r@ == echo_v4_packet(identifier, sequence, stamp),
        r@.len() == ECHO_PACKET_LEN,
{
    let mut p = echo_request_with_kind(8, identifier, sequence, stamp);
    let c = icmp_checksum(p.as_slice());
    p.set(2, (c / 256) as u8);
    p.set(3, (c % 256) as u8);
    p
}

/// Builds an ICMPv6 echo request (type 128, code 0) whose payload carries
/// `stamp`; the checksum is left zero for the kernel.
pub fn build_icmpv6_echo_request_at(identifier: u16, sequence: u16, stamp: u64) -> (r: Vec<u8>)
    ensures
        r@ == echo_v6_packet(identifier, sequence, stamp),
        r@.len() == ECHO_PACKET_LEN,
{
    echo_request_with_kind(128, identifier, sequence, stamp)
}

/// The payload stamp of an instant: nanoseconds since the epoch, modulo
/// 2^64.
pub fn stamp_of(t: Timestamp) -> (r: u64)
    requires
        t.wf(),
    ensures
        r as int == t.as_nanos() % 0x1_0000_0000_0000_0000,
{
    let s = t.secs as i128;
    assert(-100_000_000_000_000 * 1_000_000_000 <= s * 1_000_000_000 <= 100_000_000_000_000 * 1_000_000_000)
        by (nonlinear_arith)
        requires -100_000_000_000_000 <= s <= 100_000_000_000_000;
    let total: i128 = s * (NANOS_PER_SEC as i128) + t.nanos as i128;
    let m = total.checked_rem_euclid(0x1_0000_0000_0000_0000i128).unwrap();
    m as u64
}

/// The send stamp of a request: the current time in nanoseconds since the
/// epoch, modulo 2^64.
fn send_stamp() -> (r: u64)
    ensures
        exists|t: Timestamp| t.wf() && r as int == t.as_nanos() % 0x1_0000_0000_0000_0000,
{
    stamp_of(now())
}

/// Builds an IPv4 echo request stamped with the current time.
pub fn build_icmp_echo_request(identifier: u16, sequence: u16) -> (r: Vec<u8>)
    ensures
        exists|stamp: u64| r@ == echo_v4_packet(identifier, sequence, stamp),
        r@.len() == ECHO_PACKET_LEN,
{
    build_icmp_echo_request_at(identifier, sequence, send_stamp())
}

/// Builds an ICMPv6 echo request stamped with the current time.
pub fn build_icmpv6_echo_request(identifier: u16, sequence: u16) -> (r: Vec<u8>)
    ensures
        exists|stamp: u64| r@ == echo_v6_packet(identifier, sequence, stamp),
        r@.len() == ECHO_PACKET_LEN,
{
    build_icmpv6_echo_request_at(identifier, sequence, send_stamp())
}

pub open spec fn be_u16_at(b: Seq<u8>, i: int) -> int {
    b[i] * 256 + b[i + 1]
}

/// Whether an IPv4 packet read from the socket is the echo reply (type 0)
/// to our request: a leading IP header (version nibble 4) is skipped first.
pub open spec fn is_our_reply_v4(b: Seq<u8>, identifier: u16, sequence: u16) -> bool {
    let off: int = if b.len() >= 1 && b[0] / 16 == 4 { 20 } else { 0 };
    b.len() >= 8 && b.len() > off + 7 && b[off] == 0 && be_u16_at(b, off + 4) == identifier
        && be_u16_at(b, off + 6) == sequence
}

/// Whether an ICMPv6 packet is the echo reply (type 129) to our request.
pub open spec fn is_our_reply_v6(b: Seq<u8>, identifier: u16, sequence: u16) -> bool {
    b.len() >= 8 && b[0] == 129 && be_u16_at(b, 4) == identifier && be_u16_at(b, 6) == sequence
}

/// Tells our IPv4 echo reply from any other packet on the socket.
pub fn is_echo_reply_v4(buf: &[u8], identifier: u16, sequence: u16) -> (r: bool)
    ensures
        r == is_our_reply_v4(buf@, identifier, sequence),
{
    let n = buf.len();
    if n < 8 {
        return false;
    }
    let off: usize = if buf[0] / 16 == 4 { 20 } else { 0 };
    if n <= off + 7 {
        return false;
    }
    let id = (buf[off + 4] as u16) * 256 + buf[off + 5] as u16;
    let seq = (buf[off + 6] as u16) * 256 + buf[off + 7] as u16;
    buf[off] == 0 && id == identifier && seq == sequence
}

/// Tells our ICMPv6 echo reply from any other packet on the socket.
pub fn is_echo_reply_v6(buf: &[u8], identifier: u16, sequence: u16) -> (r: bool)
    ensures
        r == is_our_reply_v6(buf@, identifier, sequence),
{
    if buf.len() < 8 {
        return false;
    }
    let id = (buf[4] as u16) * 256 + buf[5] as u16;
    let seq = (buf[6] as u16) * 256 + buf[7] as u16;
    buf[0] == 129 && id == identifier && seq == sequence
}

/// What the receive loop does with a packet read `elapsed_nanos` after the
/// request went out.
#[derive(Clone, Copy, Debug, PartialEq, Eq, Structural)]
pub enum ReplyStep {
    /// The timeout has passed: give up.
    TimedOut,
    /// Our echo reply: report the elapsed time.
    Reply(u128),
    /// Someone else's packet: read again.
    KeepWaiting,
}

pub open spec fn reply_step_spec(ours: bool, elapsed_nanos: u128, timeout_nanos: u128) -> ReplyStep {
    if elapsed_nanos >= timeout_nanos {
        ReplyStep::TimedOut
    } else if ours {
        ReplyStep::Reply(elapsed_nanos)
    } else {
        ReplyStep::KeepWaiting
    }
}

/// One step of the IPv4 receive loop: late packets end the wait, our reply
/// ends it with a latency, anything else is skipped.
pub fn reply_step_v4(buf: &[u8], identifier: u16, sequence: u16, elapsed_nanos: u128, timeout_nanos: u128) -> (r: ReplyStep)
    ensures
        r == reply_step_spec(is_our_reply_v4(buf@, identifier, sequence), elapsed_nanos, timeout_nanos),
{
    if elapsed_nanos >= timeout_nanos {
        ReplyStep::TimedOut
    } else if is_echo_reply_v4(buf, identifier, sequence) {
        ReplyStep::Reply(elapsed_nanos)
    } else {
        ReplyStep::KeepWaiting
    }
}

/// One step of the ICMPv6 receive loop.
pub fn reply_step_v6(buf: &[u8], identifier: u16, sequence: u16, elapsed_nanos: u128, timeout_nanos: u128) -> (r: ReplyStep)
    ensures
        r == reply_step_spec(is_our_reply_v6(buf@, identifier, sequence), elapsed_nanos, timeout_nanos),
{
    if elapsed_nanos >= timeout_nanos {
        ReplyStep::TimedOut
    } else if is_echo_reply_v6(buf, identifier, sequence) {
        ReplyStep::Reply(elapsed_nanos)
    } else {
        ReplyStep::KeepWaiting
    }
}

} // verus!
