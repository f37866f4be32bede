//! Server settings, and the plain records the status and query surfaces
//! pass around.

use vstd::prelude::*;
use crate::ping::{all_digits, digits_value, is_digit, lemma_digits_value_prefix};

verus! {

/// Port the web server listens on unless told otherwise.
pub const DEFAULT_HTTP_PORT: u16 = 8080;

/// Where the database lives unless told otherwise.
pub const DEFAULT_DB_PATH: &'static str = "vaportrail.db";

/// Server settings.
#[derive(Clone, Debug)]
pub struct ServerConfig {
    pub http_port: u16,
    pub db_path: String,
}

impl Default for ServerConfig {
    fn default() -> (r: ServerConfig)
        ensures
            r.http_port == DEFAULT_HTTP_PORT,
            r.db_path@ == DEFAULT_DB_PATH@,
    {
        ServerConfig { http_port: DEFAULT_HTTP_PORT, db_path: String::from_str(DEFAULT_DB_PATH) }
    }
}

/// The digits of a port number, after an optional leading `+`.
pub open spec fn port_digits(s: Seq<char>) -> Seq<char> {
    if s.len() > 0 && s[0] == '+' { s.skip(1) } else { s }
}

/// The port a text names, read as an unsigned 16-bit decimal number: an
/// optional `+`, then at least one digit, with a value below 65536.
pub open spec fn port_of_text(s: Seq<char>) -> Option<u16> {
    let d = port_digits(s);
    if d.len() >= 1 && all_digits(d) && digits_value(d) <= u16::MAX {
        Some(digits_value(d) as u16)
    } else {
        None
    }
}

/// Reads a port number from text.
pub fn parse_port(text: &str) -> (r: Option<u16>)
    ensures
        r == port_of_text(text@),
{
    let ghost s = text@;
    let n = text.unicode_len();
    let start: usize = if n > 0 && text.get_char(0) == '+' { 1 } else { 0 };
    let ghost d = port_digits(s);
    assert(d =~= s.skip(start as int));
    if start >= n {
        return None;
    }
    let mut acc: u64 = 0;
    let mut i: usize = start;
    while i < n
        invariant
            s == text@,
            n == s.len(),
            d == s.skip(start as int),
            d == port_digits(s),
            start <= i <= n,
            all_digits(d.take(i - start)),
            acc == digits_value(d.take(i - start)),
            acc <= u16::MAX,
        decreases n - i,
    {
        let c = text.get_char(i);
        let ghost k = i - start;
        if !('0' <= c && c <= '9') {
            assert(d[k] == c);
            assert(!is_digit(d[k]));
            return None;
        }
        proof {
            assert(d.take(k + 1).drop_last() =~= d.take(k));
            assert(d.take(k + 1).last() == c);
            assert(all_digits(d.take(k + 1))) by {
                assert forall|m: int| 0 <= m < k + 1 implies is_digit(#[trigger] d.take(k + 1)[m]) by {
                    if m < k {
                        assert(d.take(k + 1)[m] == d.take(k)[m]);
                    }
                }
            }
        }
        acc = acc * 10 + (c as u32 - 48) as u64;
        assert(acc == digits_value(d.take(k + 1)));
        if acc > 65535 {
            proof {
                lemma_digits_value_prefix(d, k + 1);
            }
            return None;
        }
        i += 1;
    }
    assert(d.take(n - start) =~= d);
    Some(acc as u16)
}

impl ServerConfig {
    /// The default settings with the given overrides: a port text that
    /// does not read as a port is ignored, a database path replaces the
    /// default.
    pub fn with_overrides(port_text: Option<&str>, db_path: Option<String>) -> (r: ServerConfig)
        ensures
            r.http_port == match port_text {
                Some(t) => match port_of_text(t@) {
                    Some(p) => p,
                    None => DEFAULT_HTTP_PORT,
                },
                None => DEFAULT_HTTP_PORT,
            },
            r.db_path@ == match db_path {
                Some(p) => p@,
                None => DEFAULT_DB_PATH@,
            },
    {
        let mut cfg = ServerConfig::default();
        if let Some(t) = port_text {
            if let Some(p) = parse_port(t) {
                cfg.http_port = p;
            }
        }
        if let Some(p) = db_path {
            cfg.db_path = p;
        }
        cfg
    }
}

/// Bytes a raw row is taken to occupy on disk.
pub const RAW_ROW_BYTES: i64 = 50;

/// Size of the raw tier for the status page.
#[derive(Clone, Copy, Debug, PartialEq, Eq, Structural)]
pub struct RawStats {
    pub count: i64,
    pub total_bytes: i64,
}

impl RawStats {
    /// The raw-tier figures for `count` rows: their estimated size is 50
    /// bytes a row, held at `i64::MAX`.
    pub fn from_count(count: i64) -> (r: RawStats)
        requires
            count >= 0,
        ensures
            r.count == count,
            r.total_bytes == if count * 50 > i64::MAX { i64::MAX as int } else { count * 50 },
    {
        let total_bytes = match count.checked_mul(RAW_ROW_BYTES) {
            Some(t) => t,
            None => i64::MAX,
        };
        RawStats { count, total_bytes }
    }
}

/// A results query: the target, an optional RFC 3339 span (the last hour
/// up to now by default), and whether raw rows come along.
#[derive(Clone, Debug)]
pub struct ResultsQuery {
    pub target_id: i64,
    pub start: Option<String>,
    pub end: Option<String>,
    pub include_raw: Option<bool>,
}

/// A graph page query: the target and an optional span.
#[derive(Clone, Debug)]
pub struct GraphQuery {
    pub id: i64,
    pub start: Option<String>,
    pub end: Option<String>,
}

} // verus!
