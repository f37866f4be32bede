//! Binary form of a t-digest, big-endian throughout:
//! a 4-byte version (always 2), the 8-byte bit pattern of the compression,
//! a 4-byte centroid count `N`, `N` delta-encoded means as 4-byte binary32
//! bit patterns, then `N` weights as unsigned LEB128 varints.
//!
//! The float arithmetic that turns means into deltas and back stays with the
//! caller; this module frames and checks the bytes.

use vstd::prelude::*;

verus! {

/// Version tag of the encoding ("small encoding").
pub const SMALL_ENCODING: u32 = 2;

/// Bit pattern of the binary64 value 100.0, the compression every digest
/// here is built with.
pub const DEFAULT_COMPRESSION_BITS: u64 = 0x4059_0000_0000_0000;

/// Length of the fixed header: version, compression and centroid count.
pub const HEADER_LEN: usize = 16;

/// The centroids of a t-digest in wire form: per centroid, the bit pattern
/// of its binary32 mean delta (the first relative to 0.0, each next one
/// relative to the previous mean) and its whole-number weight.
#[derive(Clone, Debug)]
pub struct DigestFrame {
    pub mean_deltas: Vec<u32>,
    pub weights: Vec<u64>,
}

impl DigestFrame {
    /// One delta per weight.
    pub open spec fn wf(&self) -> bool {
        self.mean_deltas@.len() == self.weights@.len()
    }

    /// A frame of no centroids: the form of an empty digest.
    pub fn empty() -> (r: DigestFrame)
        ensures
            r.wf(),
            r.mean_deltas@.len() == 0,
    {
        DigestFrame { mean_deltas: Vec::new(), weights: Vec::new() }
    }

    /// Number of centroids.
    pub fn len(&self) -> (r: usize)
        requires
            self.wf(),
        ensures
            r == self.weights@.len(),
    {
        self.weights.len()
    }
}

// ---------------------------------------------------------------------------
// Fixed-width big-endian integers

pub open spec fn be_u32(x: u32) -> Seq<u8> {
    seq![(x >> 24u32) as u8, ((x >> 16u32) & 0xffu32) as u8, ((x >> 8u32) & 0xffu32) as u8, (x & 0xffu32) as u8]
}

pub open spec fn be_u64(x: u64) -> Seq<u8> {
    seq![
        (x >> 56u64) as u8, ((x >> 48u64) & 0xffu64) as u8, ((x >> 40u64) & 0xffu64) as u8,
        ((x >> 32u64) & 0xffu64) as u8, ((x >> 24u64) & 0xffu64) as u8, ((x >> 16u64) & 0xffu64) as u8,
        ((x >> 8u64) & 0xffu64) as u8, (x & 0xffu64) as u8,
    ]
}

/// The big-endian `u32` stored at `b[i..i + 4]`.
pub open spec fn read_be_u32(b: Seq<u8>, i: int) -> u32 {
    ((b[i] as u32) << 24u32) | ((b[i + 1] as u32) << 16u32) | ((b[i + 2] as u32) << 8u32) | (b[i + 3] as u32)
}

/// The values of `s`, four big-endian bytes each.
pub open spec fn be_u32_seq(s: Seq<u32>) -> Seq<u8>
    decreases s.len(),
{
    if s.len() == 0 {
        Seq::empty()
    } else {
        be_u32_seq(s.drop_last()) + be_u32(s.last())
    }
}

// ---------------------------------------------------------------------------
// Varints

/// Canonical unsigned LEB128: seven bits per byte, least significant group
/// first, the high bit set on every byte but the last.
pub open spec fn varint_bytes(n: u64) -> Seq<u8>
    decreases n,
{
    if n < 128 {
        seq![n as u8]
    } else {
        seq![((n % 128) + 128) as u8] + varint_bytes((n / 128) as u64)
    }
}

/// The varints of `s`, one after the other.
pub open spec fn varints(s: Seq<u64>) -> Seq<u8>
    decreases s.len(),
{
    if s.len() == 0 {
        Seq::empty()
    } else {
        varint_bytes(s[0]) + varints(s.drop_first())
    }
}

/// Whether the first `k` bytes of `b` are one varint as the decoder accepts
/// it: at most ten bytes, the high bit set on all but the last, and no zero
/// last byte after the first.
pub open spec fn is_varint_prefix(b: Seq<u8>, k: int) -> bool {
    &&& 1 <= k <= 10
    &&& k <= b.len()
    &&& forall|j: int| 0 <= j < k - 1 ==> b[j] >= 128
    &&& b[k - 1] < 128
    &&& !(k > 1 && b[k - 1] == 0)
}

/// The seven-bit groups of `b`, least significant first.
pub open spec fn varint_value(b: Seq<u8>) -> nat
    decreases b.len(),
{
    if b.len() == 0 {
        0
    } else {
        (b[0] % 128) as nat + 128 * varint_value(b.drop_first())
    }
}

/// The value that the decoder gives for a prefix of `k` bytes (it keeps the
/// low 64 bits).
pub open spec fn varint_prefix_value(b: Seq<u8>, k: int) -> u64 {
    (varint_value(b.take(k)) % 0x1_0000_0000_0000_0000) as u64
}

/// `n` varints read one after the other from the front of `b`.
pub open spec fn decode_varints(b: Seq<u8>, n: nat) -> Option<Seq<u64>>
    decreases n,
{
    if n == 0 {
        Some(Seq::empty())
    } else if exists|k: int| is_varint_prefix(b, k) {
        let k = choose|k: int| is_varint_prefix(b, k);
        match decode_varints(b.skip(k), (n - 1) as nat) {
            Some(rest) => Some(seq![varint_prefix_value(b, k)] + rest),
            None => None,
        }
    } else {
        None
    }
}

// ---------------------------------------------------------------------------
// Whole frames

/// The bytes of a digest with the given compression bits, mean deltas and
/// weights.
pub open spec fn frame_bytes(compression_bits: u64, deltas: Seq<u32>, weights: Seq<u64>) -> Seq<u8> {
    be_u32(SMALL_ENCODING) + be_u64(compression_bits) + be_u32(deltas.len() as u32) + be_u32_seq(deltas)
        + varints(weights)
}

/// What the bytes `b` decode to: the mean deltas and weights, or `None` when
/// `b` is not a sketch.
pub open spec fn decoded_frame(b: Seq<u8>) -> Option<(Seq<u32>, Seq<u64>)> {
    if b.len() < 16 {
        None
    } else if read_be_u32(b, 0) != SMALL_ENCODING {
        None
    } else {
        let n = read_be_u32(b, 12) as int;
        if n == 0 || b.len() < 16 + 4 * n {
            None
        } else {
            match decode_varints(b.skip(16 + 4 * n), n as nat) {
                Some(w) => Some((Seq::new(n as nat, |i: int| read_be_u32(b, 16 + 4 * i)), w)),
                None => None,
            }
        }
    }
}

/// Relies on unsigned_varint::encode::u64: it writes the canonical unsigned
/// LEB128 bytes of `n`.
#[verifier::external_body]
fn encode_varint(n: u64) -> (r: Vec<u8>)
    ensures
        r@ == varint_bytes(n),
{
    let mut buf = unsigned_varint::encode::u64_buffer();
    unsigned_varint::encode::u64(n, &mut buf).to_vec()
}

/// Relies on unsigned_varint::decode::u64: it reads one varint from the front
/// of `b` and hands back the value with the bytes after it, and fails when
/// no prefix of `b` is a varint it accepts.
#[verifier::external_body]
fn decode_varint<'a>(b: &'a [u8]) -> (r: Option<(u64, &'a [u8])>)
    ensures
        match r {
            Some((v, rest)) => exists|k: int|
                is_varint_prefix(b@, k) && v == varint_prefix_value(b@, k) && rest@ == b@.skip(k),
            None => forall|k: int| !is_varint_prefix(b@, k),
        },
{
    unsigned_varint::decode::u64(b).ok()
}

fn push_be_u32(v: &mut Vec<u8>, x: u32)
    ensures
        final(v)@ == old(v)@ + be_u32(x),
{
    v.push((x >> 24u32) as u8);
    v.push(((x >> 16u32) & 0xffu32) as u8);
    v.push(((x >> 8u32) & 0xffu32) as u8);
    v.push((x & 0xffu32) as u8);
    assert(final(v)@ =~= old(v)@ + be_u32(x));
}

fn push_be_u64(v: &mut Vec<u8>, x: u64)
    ensures
        final(v)@ == old(v)@ + be_u64(x),
{
    v.push((x >> 56u64) as u8);
    v.push(((x >> 48u64) & 0xffu64) as u8);
    v.push(((x >> 40u64) & 0xffu64) as u8);
    v.push(((x >> 32u64) & 0xffu64) as u8);
    v.push(((x >> 24u64) & 0xffu64) as u8);
    v.push(((x >> 16u64) & 0xffu64) as u8);
    v.push(((x >> 8u64) & 0xffu64) as u8);
    v.push((x & 0xffu64) as u8);
    assert(final(v)@ =~= old(v)@ + be_u64(x));
}

fn be_u32_at(b: &[u8], i: usize) -> (r: u32)
    requires
        i + 4 <= b@.len(),
    ensures
        r == read_be_u32(b@, i as int),
{
    ((b[i] as u32) << 24u32) | ((b[i + 1] as u32) << 16u32) | ((b[i + 2] as u32) << 8u32) | (b[i + 3] as u32)
}

proof fn lemma_varints_push(s: Seq<u64>, x: u64)
    ensures
        varints(s.push(x)) == varints(s) + varint_bytes(x),
    decreases s.len(),
{
    if s.len() == 0 {
        assert(s.push(x).drop_first() =~= Seq::<u64>::empty());
        assert(s.push(x)[0] == x);
        assert(varints(Seq::<u64>::empty()) == Seq::<u8>::empty());
        assert(varints(s) == Seq::<u8>::empty());
        assert(varints(s.push(x)) =~= varints(s) + varint_bytes(x));
    } else {
        assert(s.push(x).drop_first() =~= s.drop_first().push(x));
        lemma_varints_push(s.drop_first(), x);
        assert(s.push(x)[0] == s[0]);
        let a = varint_bytes(s[0]);
        let b = varints(s.drop_first());
        assert(varints(s.push(x)) == a + (b + varint_bytes(x)));
        assert(a + (b + varint_bytes(x)) =~= (a + b) + varint_bytes(x));
    }
}

/// Serializes centroids with the given compression bit pattern.
pub fn serialize_tdigest_with_compression(frame: &DigestFrame, compression_bits: u64) -> (r: Vec<u8>)
    requires
        frame.wf(),
        frame.weights@.len() <= u32::MAX,
    ensures
        r@ == frame_bytes(compression_bits, frame.mean_deltas@, frame.weights@),
{
    let n = frame.weights.len();
    let mut data: Vec<u8> = Vec::new();
    push_be_u32(&mut data, SMALL_ENCODING);
    push_be_u64(&mut data, compression_bits);
    push_be_u32(&mut data, n as u32);
    let ghost header = data@;
    let mut i: usize = 0;
    while i < n
        invariant
            frame.wf(),
            n == frame.mean_deltas@.len(),
            i <= n,
            data@ == header + be_u32_seq(frame.mean_deltas@.take(i as int)),
        decreases n - i,
    {
        push_be_u32(&mut data, frame.mean_deltas[i]);
        assert(frame.mean_deltas@.take(i + 1).drop_last() =~= frame.mean_deltas@.take(i as int));
        i += 1;
    }
    assert(frame.mean_deltas@.take(n as int) =~= frame.mean_deltas@);
    let ghost means = data@;
    let mut j: usize = 0;
    while j < n
        invariant
            frame.wf(),
            n == frame.weights@.len(),
            j <= n,
            data@ == means + varints(frame.weights@.take(j as int)),
        decreases n - j,
    {
        let enc = encode_varint(frame.weights[j]);
        let mut k: usize = 0;
        let ghost before = data@;
        while k < enc.len()
            invariant
                k <= enc@.len(),
                data@ == before + enc@.take(k as int),
            decreases enc@.len() - k,
        {
            data.push(enc[k]);
            assert(enc@.take(k + 1) =~= enc@.take(k as int).push(enc@[k as int]));
            assert(data@ =~= before + enc@.take(k + 1));
            k += 1;
        }
        assert(enc@.take(k as int) =~= enc@);
        proof {
            lemma_varints_push(frame.weights@.take(j as int), frame.weights@[j as int]);
            assert(frame.weights@.take(j + 1) =~= frame.weights@.take(j as int).push(frame.weights@[j as int]));
        }
        assert(data@ =~= means + varints(frame.weights@.take(j + 1)));
        j += 1;
    }
    assert(frame.weights@.take(n as int) =~= frame.weights@);
    assert(data@ =~= frame_bytes(compression_bits, frame.mean_deltas@, frame.weights@));
    data
}

/// Serializes centroids with the default compression (100.0).
pub fn serialize_tdigest(frame: &DigestFrame) -> (r: Vec<u8>)
    requires
        frame.wf(),
        frame.weights@.len() <= u32::MAX,
    ensures
        r@ == frame_bytes(DEFAULT_COMPRESSION_BITS, frame.mean_deltas@, frame.weights@),
{
    serialize_tdigest_with_compression(frame, DEFAULT_COMPRESSION_BITS)
}

/// Deserializes stored bytes into centroids; `None` means "not a sketch":
/// the bytes are shorter than the header, the version is not 2, the count is
/// zero, the means are cut short, or a weight is not a varint. Bytes after
/// the last weight are ignored.
pub fn deserialize_tdigest(data: &[u8]) -> (r: Option<DigestFrame>)
    ensures
        match r {
            Some(f) => f.wf() && decoded_frame(data@) == Some((f.mean_deltas@, f.weights@)),
            None => decoded_frame(data@) is None,
        },
        data@.len() < 16 ==> r is None,
        data@.len() >= 16 && read_be_u32(data@, 0) != SMALL_ENCODING ==> r is None,
        data@.len() >= 16 && read_be_u32(data@, 12) == 0 ==> r is None,
        data@.len() >= 16 && data@.len() < 16 + 4 * read_be_u32(data@, 12) ==> r is None,
{
    if data.len() < HEADER_LEN {
        return None;
    }
    let version = be_u32_at(data, 0);
    if version != SMALL_ENCODING {
        return None;
    }
    let count = be_u32_at(data, 12);
    if count == 0 {
        return None;
    }
    let room = (data.len() - HEADER_LEN) / 4;
    if (count as u64) > (room as u64) {
        return None;
    }
    let n = count as usize;
    proof {
        let len = data@.len() - 16;
        assert(4 * (len / 4) <= len) by (nonlinear_arith)
            requires len >= 0;
        assert(4 * (n as int) <= 4 * (len / 4)) by (nonlinear_arith)
            requires n as int <= len / 4;
    }
    let means_end = HEADER_LEN + 4 * n;
    let mut deltas: Vec<u32> = Vec::new();
    let mut i: usize = 0;
    while i < n
        invariant
            i <= n,
            means_end == 16 + 4 * n,
            means_end <= data@.len(),
            deltas@ =~= Seq::new(i as nat, |j: int| read_be_u32(data@, 16 + 4 * j)),
        decreases n - i,
    {
        deltas.push(be_u32_at(data, HEADER_LEN + 4 * i));
        i += 1;
    }
    let (_, tail) = data.split_at(means_end);
    assert(tail@ =~= data@.skip(means_end as int));
    let mut rest = tail;
    let mut weights: Vec<u64> = Vec::new();
    let mut i: usize = 0;
    while i < n
        invariant
            i <= n,
            n == count,
            count == read_be_u32(data@, 12),
            count != 0,
            data@.len() >= 16,
            read_be_u32(data@, 0) == SMALL_ENCODING,
            16 + 4 * (count as int) <= data@.len(),
            tail@ == data@.skip(16 + 4 * (count as int)),
            weights@.len() == i,
            decode_varints(tail@, n as nat) == match decode_varints(rest@, (n - i) as nat) {
                Some(t) => Some(weights@ + t),
                None => None::<Seq<u64>>,
            },
        decreases n - i,
    {
        match decode_varint(rest) {
            Some((v, next)) => {
                proof {
                    let k = choose|k: int|
                        is_varint_prefix(rest@, k) && v == varint_prefix_value(rest@, k) && next@ == rest@.skip(k);
                    let k2 = choose|k: int| is_varint_prefix(rest@, k);
                    lemma_varint_prefix_unique(rest@, k, k2);
                    let m = (n - i) as nat;
                    assert(decode_varints(rest@, m) == match decode_varints(next@, (m - 1) as nat) {
                        Some(t) => Some(seq![v] + t),
                        None => None::<Seq<u64>>,
                    });
                    match decode_varints(next@, (m - 1) as nat) {
                        Some(t) => {
                            assert(weights@ + (seq![v] + t) =~= weights@.push(v) + t);
                        },
                        None => {},
                    }
                }
                weights.push(v);
                rest = next;
                i += 1;
            },
            None => {
                proof {
                    assert(!(exists|k: int| is_varint_prefix(rest@, k)));
                    assert(decode_varints(rest@, (n - i) as nat) is None);
                    assert(decode_varints(tail@, n as nat) is None);
                    assert(tail@ == data@.skip(16 + 4 * (count as int)));
                    assert(decoded_frame(data@) is None);
                }
                return None;
            },
        }
    }
    assert(weights@ + Seq::<u64>::empty() =~= weights@);
    Some(DigestFrame { mean_deltas: deltas, weights })
}

proof fn lemma_varint_prefix_unique(b: Seq<u8>, k1: int, k2: int)
    requires
        is_varint_prefix(b, k1),
        is_varint_prefix(b, k2),
    ensures
        k1 == k2,
{
    if k1 < k2 {
        assert(b[k1 - 1] >= 128);
    } else if k2 < k1 {
        assert(b[k2 - 1] >= 128);
    }
}

pub open spec fn pow128(k: nat) -> nat
    decreases k,
{
    if k == 0 {
        1
    } else {
        128 * pow128((k - 1) as nat)
    }
}

proof fn lemma_varint_bytes_shape(n: u64, k: nat)
    requires
        k >= 1,
        n < pow128(k),
    ensures
        1 <= varint_bytes(n).len() <= k,
        forall|j: int| 0 <= j < varint_bytes(n).len() - 1 ==> varint_bytes(n)[j] >= 128,
        varint_bytes(n).last() < 128,
        n >= 1 ==> varint_bytes(n).last() != 0,
        varint_value(varint_bytes(n)) == n,
    decreases n,
{
    let v = varint_bytes(n);
    if n < 128 {
        assert(v.drop_first() =~= Seq::<u8>::empty());
        assert(varint_value(v.drop_first()) == 0);
    } else {
        let q = (n / 128) as u64;
        let w = varint_bytes(q);
        assert(k >= 2) by {
            if k == 1 {
                assert(pow128(1) == 128 * pow128(0));
            }
        }
        assert(q < pow128((k - 1) as nat)) by {
            assert(pow128(k) == 128 * pow128((k - 1) as nat));
        }
        lemma_varint_bytes_shape(q, (k - 1) as nat);
        assert(v == seq![((n % 128) + 128) as u8] + w);
        assert(v.drop_first() =~= w);
        assert(forall|j: int| 1 <= j < v.len() ==> v[j] == w[j - 1]);
        assert(v.last() == w.last());
        assert(v[0] >= 128);
        assert(v[0] % 128 == n % 128);
    }
}

proof fn lemma_varint_decode_one(x: u64, t: Seq<u8>)
    ensures
        is_varint_prefix(varint_bytes(x) + t, varint_bytes(x).len() as int),
        varint_prefix_value(varint_bytes(x) + t, varint_bytes(x).len() as int) == x,
        (varint_bytes(x) + t).skip(varint_bytes(x).len() as int) == t,
{
    let v = varint_bytes(x);
    let b = v + t;
    reveal_with_fuel(pow128, 11);
    assert(pow128(10) == 1180591620717411303424nat);
    lemma_varint_bytes_shape(x, 10);
    assert(b.take(v.len() as int) =~= v);
    assert(b.skip(v.len() as int) =~= t);
    assert(forall|j: int| 0 <= j < v.len() ==> b[j] == v[j]);
}

proof fn lemma_decode_varints(w: Seq<u64>, t: Seq<u8>)
    ensures
        decode_varints(varints(w) + t, w.len()) == Some(w),
    decreases w.len(),
{
    if w.len() == 0 {
    } else {
        let x = w[0];
        let v = varint_bytes(x);
        let b = varints(w) + t;
        let rest = varints(w.drop_first()) + t;
        assert(b =~= v + rest);
        lemma_varint_decode_one(x, rest);
        let k = choose|k: int| is_varint_prefix(b, k);
        lemma_varint_prefix_unique(b, k, v.len() as int);
        lemma_decode_varints(w.drop_first(), t);
        assert(seq![x] + w.drop_first() =~= w);
    }
}

proof fn lemma_read_be_u32(b: Seq<u8>, i: int, x: u32)
    requires
        0 <= i,
        i + 4 <= b.len(),
        b.subrange(i, i + 4) == be_u32(x),
    ensures
        read_be_u32(b, i) == x,
{
    assert(b[i] == b.subrange(i, i + 4)[0]);
    assert(b[i + 1] == b.subrange(i, i + 4)[1]);
    assert(b[i + 2] == b.subrange(i, i + 4)[2]);
    assert(b[i + 3] == b.subrange(i, i + 4)[3]);
    assert(((((x >> 24u32) as u8) as u32) << 24u32) | (((((x >> 16u32) & 0xffu32) as u8) as u32) << 16u32)
        | (((((x >> 8u32) & 0xffu32) as u8) as u32) << 8u32) | (((x & 0xffu32) as u8) as u32) == x)
        by (bit_vector);
}

proof fn lemma_be_u32_seq_index(s: Seq<u32>, i: int)
    requires
        0 <= i < s.len(),
    ensures
        be_u32_seq(s).len() == 4 * s.len(),
        be_u32_seq(s).subrange(4 * i, 4 * i + 4) == be_u32(s[i]),
    decreases s.len(),
{
    lemma_be_u32_seq_len(s);
    let p = s.drop_last();
    lemma_be_u32_seq_len(p);
    if i < s.len() - 1 {
        lemma_be_u32_seq_index(p, i);
        assert(be_u32_seq(s).subrange(4 * i, 4 * i + 4) =~= be_u32_seq(p).subrange(4 * i, 4 * i + 4));
    } else {
        assert(be_u32_seq(s).subrange(4 * i, 4 * i + 4) =~= be_u32(s[i]));
    }
}

proof fn lemma_be_u32_seq_len(s: Seq<u32>)
    ensures
        be_u32_seq(s).len() == 4 * s.len(),
    decreases s.len(),
{
    if s.len() > 0 {
        lemma_be_u32_seq_len(s.drop_last());
    }
}

/// Decoding what was encoded gives back the same mean deltas and weights,
/// whatever the compression and whatever bytes follow, for any digest with
/// at least one centroid (an empty digest encodes to a header that decodes
/// as "not a sketch").
pub proof fn lemma_codec_round_trip(compression_bits: u64, deltas: Seq<u32>, weights: Seq<u64>, trailing: Seq<u8>)
    requires
        deltas.len() == weights.len(),
        1 <= deltas.len() <= u32::MAX,
    ensures
        decoded_frame(frame_bytes(compression_bits, deltas, weights) + trailing) == Some((deltas, weights)),
{
    let n = deltas.len() as int;
    let h = be_u32(SMALL_ENCODING) + be_u64(compression_bits) + be_u32(n as u32);
    let m = be_u32_seq(deltas);
    let b = frame_bytes(compression_bits, deltas, weights) + trailing;
    lemma_be_u32_seq_len(deltas);
    assert(b =~= h + m + (varints(weights) + trailing));
    assert(b.subrange(0, 4) =~= be_u32(SMALL_ENCODING));
    lemma_read_be_u32(b, 0, SMALL_ENCODING);
    assert(b.subrange(12, 16) =~= be_u32(n as u32));
    lemma_read_be_u32(b, 12, n as u32);
    assert(b.skip(16 + 4 * n) =~= varints(weights) + trailing);
    lemma_decode_varints(weights, trailing);
    assert forall|i: int| 0 <= i < n implies read_be_u32(b, 16 + 4 * i) == deltas[i] by {
        lemma_be_u32_seq_index(deltas, i);
        assert(b.subrange(16 + 4 * i, 16 + 4 * i + 4) =~= m.subrange(4 * i, 4 * i + 4));
        lemma_read_be_u32(b, 16 + 4 * i, deltas[i]);
    }
    assert(Seq::new(n as nat, |i: int| read_be_u32(b, 16 + 4 * i)) =~= deltas);
}

/// The header of an encoded frame gives the version and the centroid count.
pub proof fn lemma_frame_count(compression_bits: u64, deltas: Seq<u32>, weights: Seq<u64>)
    requires
        deltas.len() <= u32::MAX,
    ensures
        frame_bytes(compression_bits, deltas, weights).len() >= 16,
        read_be_u32(frame_bytes(compression_bits, deltas, weights), 0) == SMALL_ENCODING,
        read_be_u32(frame_bytes(compression_bits, deltas, weights), 12) == deltas.len(),
{
    let b = frame_bytes(compression_bits, deltas, weights);
    assert(b.subrange(0, 4) =~= be_u32(SMALL_ENCODING));
    lemma_read_be_u32(b, 0, SMALL_ENCODING);
    assert(b.subrange(12, 16) =~= be_u32(deltas.len() as u32));
    lemma_read_be_u32(b, 12, deltas.len() as u32);
}

} // verus!
