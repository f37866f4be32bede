use vaportrail::units::format_bytes;

fn float_format(bytes: i64) -> String {
    const KB: i64 = 1024;
    const MB: i64 = KB * 1024;
    const GB: i64 = MB * 1024;
    if bytes >= GB {
        format!("{:.2} GB", bytes as f64 / GB as f64)
    } else if bytes >= MB {
        format!("{:.2} MB", bytes as f64 / MB as f64)
    } else if bytes >= KB {
        format!("{:.2} KB", bytes as f64 / KB as f64)
    } else {
        format!("{} B", bytes)
    }
}

#[test]
fn format_bytes_examples() {
    assert_eq!(format_bytes(0), "0 B");
    assert_eq!(format_bytes(512), "512 B");
    assert_eq!(format_bytes(-5), "-5 B");
    assert_eq!(format_bytes(1536), "1.50 KB");
    assert_eq!(format_bytes(1024 * 1024), "1.00 MB");
    assert_eq!(format_bytes(3 * 1024 * 1024 * 1024), "3.00 GB");
    assert_eq!(format_bytes(i64::MIN), "-9223372036854775808 B");
}

#[test]
fn format_bytes_agrees_with_float_formatting() {
    let mut cases: Vec<i64> = vec![1023, 1024, 1025, 1152, 1160, 1171, 1178, 10_000, 123_456_789, 5_000_000_000];
    for k in 0..4000i64 {
        cases.push(1024 + k * 7);
        cases.push(1024 * 1024 + k * 2621);
        cases.push(1024 * 1024 * 1024 + k * 2_684_354);
    }
    for b in cases {
        assert_eq!(format_bytes(b), float_format(b), "{}", b);
    }
}
