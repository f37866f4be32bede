use tdigests::{Centroid, TDigest};
use vaportrail::codec::{deserialize_tdigest, serialize_tdigest, serialize_tdigest_with_compression, DigestFrame};
use vaportrail::rollup::empty_tile_bytes;

fn frame_of(td: &TDigest) -> DigestFrame {
    let mut prev = 0.0f64;
    let mut mean_deltas = Vec::new();
    let mut weights = Vec::new();
    for c in td.centroids() {
        mean_deltas.push(((c.mean - prev) as f32).to_bits());
        prev = c.mean;
        weights.push(c.weight as u64);
    }
    DigestFrame { mean_deltas, weights }
}

fn digest_of(frame: &DigestFrame) -> TDigest {
    let mut acc = 0.0f64;
    let mut cs = Vec::new();
    for (d, w) in frame.mean_deltas.iter().zip(frame.weights.iter()) {
        acc += f32::from_bits(*d) as f64;
        cs.push(Centroid::new(acc, *w as f64));
    }
    TDigest::from_centroids(cs)
}

fn frame(deltas: &[u32], weights: &[u64]) -> DigestFrame {
    DigestFrame { mean_deltas: deltas.to_vec(), weights: weights.to_vec() }
}

#[test]
fn tdigest_utils_test_roundtrip() {
    let values = vec![1.0, 2.0, 3.0, 4.0, 5.0];
    let mut td = TDigest::from_values(values);
    td.compress(100);

    let data = serialize_tdigest(&frame_of(&td));
    let td2 = digest_of(&deserialize_tdigest(&data).unwrap());

    assert!((td.estimate_quantile(0.5) - td2.estimate_quantile(0.5)).abs() < 0.01);
}

#[test]
fn tdigest_utils_test_empty_data() {
    let result = deserialize_tdigest(&[]);
    assert!(result.is_none());
}

#[test]
fn codec_round_trip_quantiles_within_tolerance() {
    let values: Vec<f64> = (1..=200).map(|i| (i as f64) * 1.5).collect();
    let mut td = TDigest::from_values(values);
    td.compress(100);
    let data = serialize_tdigest(&frame_of(&td));
    let td2 = digest_of(&deserialize_tdigest(&data).unwrap());
    for q in [0.0, 0.5, 0.99, 1.0] {
        let a = td.estimate_quantile(q);
        let b = td2.estimate_quantile(q);
        assert!((a - b).abs() < 0.01, "q={} {} vs {}", q, a, b);
    }
}

#[test]
fn codec_exact_bytes() {
    let f = frame(&[0x3f80_0000, 0x4000_0000], &[1, 300]);
    let data = serialize_tdigest(&f);
    assert_eq!(
        data,
        vec![
            0, 0, 0, 2, 0x40, 0x59, 0, 0, 0, 0, 0, 0, 0, 0, 0, 2, 0x3f, 0x80, 0, 0, 0x40, 0, 0, 0, 1, 0xac,
            0x02
        ]
    );
    let back = deserialize_tdigest(&data).unwrap();
    assert_eq!(back.mean_deltas, vec![0x3f80_0000, 0x4000_0000]);
    assert_eq!(back.weights, vec![1, 300]);
}

#[test]
fn codec_custom_compression_and_trailing_bytes() {
    let f = frame(&[7, 8, 9], &[u64::MAX, 0, 127]);
    let mut data = serialize_tdigest_with_compression(&f, 0x4049_0000_0000_0000);
    assert_eq!(&data[4..12], &[0x40, 0x49, 0, 0, 0, 0, 0, 0]);
    data.extend_from_slice(&[0xff, 0xff, 0x00]);
    let back = deserialize_tdigest(&data).unwrap();
    assert_eq!(back.mean_deltas, vec![7, 8, 9]);
    assert_eq!(back.weights, vec![u64::MAX, 0, 127]);
}

#[test]
fn codec_rejects_short_buffer() {
    let data = serialize_tdigest(&frame(&[1], &[1]));
    assert!(deserialize_tdigest(&data[..15]).is_none());
}

#[test]
fn codec_rejects_version_one() {
    let mut data = serialize_tdigest(&frame(&[1], &[1]));
    data[3] = 1;
    assert!(deserialize_tdigest(&data).is_none());
    let mut v1 = vec![0u8, 0, 0, 1];
    v1.extend_from_slice(&[0u8; 20]);
    assert!(deserialize_tdigest(&v1).is_none());
}

#[test]
fn codec_rejects_zero_count() {
    assert!(deserialize_tdigest(&empty_tile_bytes()).is_none());
    let data = serialize_tdigest(&DigestFrame::empty());
    assert_eq!(data.len(), 16);
    assert!(deserialize_tdigest(&data).is_none());
}

#[test]
fn codec_rejects_truncated_means() {
    let data = serialize_tdigest(&frame(&[1, 2], &[1, 1]));
    assert!(deserialize_tdigest(&data[..23]).is_none());
}

#[test]
fn codec_rejects_bad_varints() {
    let mut data = serialize_tdigest(&frame(&[1], &[200]));
    data.pop();
    assert!(deserialize_tdigest(&data).is_none());
    let mut nm = serialize_tdigest(&frame(&[1], &[0]));
    nm.pop();
    nm.extend_from_slice(&[0x80, 0x00]);
    assert!(deserialize_tdigest(&nm).is_none());
}

#[test]
fn empty_tile_is_header_only() {
    assert_eq!(empty_tile_bytes(), vec![0, 0, 0, 2, 0x40, 0x59, 0, 0, 0, 0, 0, 0, 0, 0, 0, 0]);
}
