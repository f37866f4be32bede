//! The DNS probe's packets: a query for the A record of `example.com`, and
//! the checks on the server's answer.

use vstd::prelude::*;
use crate::icmp::{be_u16, be_u16_at};
use crate::probe::ProbeError;

verus! {

/// A standard recursive query for `example.com` A IN with transaction id
/// `tx_id`: a 12-byte header, then the question.
pub open spec fn dns_query_bytes(tx_id: u16) -> Seq<u8> {
    be_u16(tx_id) + seq![1u8, 0u8, 0u8, 1u8, 0u8, 0u8, 0u8, 0u8, 0u8, 0u8]
        + seq![7u8, 101u8, 120u8, 97u8, 109u8, 112u8, 108u8, 101u8, 3u8, 99u8, 111u8, 109u8, 0u8]
        + seq![0u8, 1u8, 0u8, 1u8]
}

/// The query with a given transaction id.
pub fn build_dns_query_with_id(tx_id: u16) -> (r: Vec<u8>)
    ensures
        r@ == dns_query_bytes(tx_id),
        r@.len() == 29,
{
    let r = vec![
        (tx_id / 256) as u8, (tx_id % 256) as u8, 1, 0, 0, 1, 0, 0, 0, 0, 0, 0,
        7, 101, 120, 97, 109, 112, 108, 101, 3, 99, 111, 109, 0,
        0, 1, 0, 1,
    ];
    assert(r@ =~= dns_query_bytes(tx_id));
    r
}

/// The query with a random transaction id.
pub fn build_dns_query() -> (r: Vec<u8>)
    ensures
        exists|tx_id: u16| r@ == dns_query_bytes(tx_id),
        r@.len() == 29,
{
    let tx_id: u16 = rand::random();
    build_dns_query_with_id(tx_id)
}

/// Whether an answer of `n` bytes in `response` is a good reply to query
/// `tx_id`: a whole header, the same transaction id, and RCODE 0.
pub open spec fn dns_reply_ok(response: Seq<u8>, n: int, tx_id: u16) -> bool {
    n >= 12 && be_u16_at(response, 0) == tx_id && response[3] % 16 == 0
}

/// Checks the first `n` bytes of the server's answer to query `tx_id`.
pub fn check_dns_response(response: &[u8], n: usize, tx_id: u16) -> (r: Result<(), ProbeError>)
    requires
        n <= response@.len(),
    ensures
        r is Ok <==> dns_reply_ok(response@, n as int, tx_id),
        r matches Err(e) ==> e is Network,
{
    if n < 12 {
        let mut msg = String::from_str("response too short: ");
        msg.append(n.to_string().as_str());
        msg.append(" bytes");
        return Err(ProbeError::Network(msg));
    }
    let got = (response[0] as u16) * 256 + response[1] as u16;
    if got != tx_id {
        let mut msg = String::from_str("transaction ID mismatch: got ");
        msg.append(got.to_string().as_str());
        msg.append(", expected ");
        msg.append(tx_id.to_string().as_str());
        return Err(ProbeError::Network(msg));
    }
    let rcode = response[3] % 16;
    if rcode != 0 {
        let mut msg = String::from_str("DNS error RCODE: ");
        msg.append(rcode.to_string().as_str());
        return Err(ProbeError::Network(msg));
    }
    Ok(())
}

} // verus!
