use std::time::Duration;
use vaportrail::dns::{build_dns_query, build_dns_query_with_id, check_dns_response};
use vaportrail::icmp::{
    build_icmp_echo_request, build_icmp_echo_request_at, build_icmpv6_echo_request, icmp_checksum, is_echo_reply_v4,
    is_echo_reply_v6, reply_step_v4, reply_step_v6, stamp_of, ReplyStep,
};
use vaportrail::ping::{latency_from_captures, parse_millis_nanos, parse_ping_output};
use vaportrail::probe::{
    dns_server_address, enforce_timeout, http_probe_url, jitter_from, needs_command_fallback, outcome_to_sample,
    ping_command_failure, probe_jitter_ms, probe_kind, str_contains, ProbeConfig, ProbeError, ProbeKind,
};
use vaportrail::sample::Latency;
use vaportrail::time::Timestamp;

#[test]
fn test_icmp_checksum() {
    let mut packet = vec![0u8; 8];
    packet[0] = 8;
    packet[1] = 0;
    packet[4] = 0x12;
    packet[5] = 0x34;
    packet[6] = 0x00;
    packet[7] = 0x01;

    let checksum = icmp_checksum(&packet);
    assert_ne!(checksum, 0);
}

#[test]
fn icmp_checksum_known_values() {
    assert_eq!(icmp_checksum(&[8, 0, 0, 0, 0x12, 0x34, 0x00, 0x01]), 0xe5ca);
    assert_eq!(icmp_checksum(&[]), 0xffff);
    assert_eq!(icmp_checksum(&[0x01]), 0xfeff);
    assert_eq!(icmp_checksum(&[0xff, 0xff, 0x00, 0x01]), 0xfffe);
}

#[test]
fn icmp_checksum_verifies_to_zero() {
    let p = build_icmp_echo_request_at(0xbeef, 7, 0x0123_4567_89ab_cdef);
    assert_eq!(icmp_checksum(&p), 0);
}

#[test]
fn test_build_icmp_packet() {
    let packet = build_icmp_echo_request(0x1234, 0x0001);
    assert_eq!(packet.len(), 64);
    assert_eq!(packet[0], 8);
    assert_eq!(packet[1], 0);
    assert_eq!(packet[4..6], [0x12, 0x34]);
    assert_eq!(packet[6..8], [0x00, 0x01]);
}

#[test]
fn icmp_packets_carry_stamp() {
    let p = build_icmp_echo_request_at(1, 2, 0x0102_0304_0506_0708);
    assert_eq!(p[8..16], [1, 2, 3, 4, 5, 6, 7, 8]);
    assert!(p[16..].iter().all(|b| *b == 0));
    let v6 = build_icmpv6_echo_request(0xabcd, 9);
    assert_eq!(v6.len(), 64);
    assert_eq!(v6[0], 128);
    assert_eq!(v6[2..4], [0, 0]);
    assert_eq!(v6[4..8], [0xab, 0xcd, 0, 9]);
    let now = build_icmp_echo_request(1, 1);
    assert!(now[8..16].iter().any(|b| *b != 0));
}

#[test]
fn echo_reply_matching() {
    let reply = [0u8, 0, 0, 0, 0x12, 0x34, 0, 1];
    assert!(is_echo_reply_v4(&reply, 0x1234, 1));
    assert!(!is_echo_reply_v4(&reply, 0x1234, 2));
    let mut with_ip = vec![0x45u8];
    with_ip.extend_from_slice(&[0u8; 19]);
    with_ip.extend_from_slice(&reply);
    assert!(is_echo_reply_v4(&with_ip, 0x1234, 1));
    assert!(!is_echo_reply_v4(&with_ip[..27], 0x1234, 1));
    assert!(!is_echo_reply_v4(&[8u8, 0, 0, 0, 0x12, 0x34, 0, 1], 0x1234, 1));
    assert!(is_echo_reply_v6(&[129u8, 0, 0, 0, 0x12, 0x34, 0, 1], 0x1234, 1));
    assert!(!is_echo_reply_v6(&[128u8, 0, 0, 0, 0x12, 0x34, 0, 1], 0x1234, 1));
}

#[test]
fn test_parse_ping_output_linux() {
    let output = "64 bytes from 8.8.8.8: icmp_seq=1 ttl=117 time=12.345 ms";
    let latency = parse_ping_output(output).unwrap();
    assert!(((latency as f64) - 12_345_000.0).abs() < 1.0);
}

#[test]
fn test_parse_ping_output_macos_summary() {
    let output = r#"PING google.com (142.250.69.174): 56 data bytes

--- google.com ping statistics ---
1 packets transmitted, 1 packets received, 0.0% packet loss
round-trip min/avg/max/stddev = 17.906/17.906/17.906/0.000 ms"#;
    let latency = parse_ping_output(output).unwrap();
    assert!(((latency as f64) - 17_906_000.0).abs() < 1.0);
}

#[test]
fn test_parse_ping_output_linux_summary() {
    let output = r#"PING 8.8.8.8 (8.8.8.8) 56(84) bytes of data.
64 bytes from 8.8.8.8: icmp_seq=1 ttl=117 time=12.3 ms

--- 8.8.8.8 ping statistics ---
1 packets transmitted, 1 received, 0% packet loss, time 0ms
rtt min/avg/max/mdev = 12.300/12.300/12.300/0.000 ms"#;
    let latency = parse_ping_output(output).unwrap();
    assert!(((latency as f64) - 12_300_000.0).abs() < 1.0);
}

#[test]
fn ping_summary_lines_alone() {
    assert_eq!(parse_ping_output("rtt min/avg/max/mdev = 12.300/12.300/12.300/0.000 ms").unwrap(), 12_300_000);
    assert_eq!(
        parse_ping_output("round-trip min/avg/max/stddev = 1.000/17.906/20.000/0.000 ms").unwrap(),
        17_906_000
    );
    assert_eq!(parse_ping_output("time<1 ms").unwrap(), 1_000_000);
    match parse_ping_output("no reply") {
        Err(ProbeError::Command(m)) => assert!(m.ends_with("no reply")),
        other => panic!("unexpected {:?}", other),
    }
}

#[test]
fn millis_text_parsing() {
    assert_eq!(parse_millis_nanos("12.345"), Some(12_345_000));
    assert_eq!(parse_millis_nanos("12"), Some(12_000_000));
    assert_eq!(parse_millis_nanos("12."), Some(12_000_000));
    assert_eq!(parse_millis_nanos(".5"), Some(500_000));
    assert_eq!(parse_millis_nanos("0.0000019"), Some(1));
    assert_eq!(parse_millis_nanos("."), None);
    assert_eq!(parse_millis_nanos(""), None);
    assert_eq!(parse_millis_nanos("1.2.3"), None);
    assert_eq!(parse_millis_nanos("99999999999999999999"), None);
    assert_eq!(
        latency_from_captures(Some("bad.".to_string() + "."), None, Some("2.5".to_string())),
        Some(2_500_000)
    );
    assert_eq!(latency_from_captures(None, None, None), None);
}

#[test]
fn test_build_dns_query() {
    let packet = build_dns_query();
    assert!(packet.len() >= 29);
}

#[test]
fn dns_query_bytes_and_checks() {
    let q = build_dns_query_with_id(0xabcd);
    assert_eq!(q[..4], [0xab, 0xcd, 0x01, 0x00]);
    assert_eq!(q[12..], [7, b'e', b'x', b'a', b'm', b'p', b'l', b'e', 3, b'c', b'o', b'm', 0, 0, 1, 0, 1]);
    let mut resp = [0u8; 512];
    resp[0] = 0xab;
    resp[1] = 0xcd;
    resp[2] = 0x81;
    resp[3] = 0x80;
    assert!(check_dns_response(&resp, 40, 0xabcd).is_ok());
    assert!(matches!(check_dns_response(&resp, 11, 0xabcd), Err(ProbeError::Network(_))));
    assert!(matches!(check_dns_response(&resp, 40, 0xabce), Err(ProbeError::Network(_))));
    resp[3] = 0x83;
    match check_dns_response(&resp, 40, 0xabcd) {
        Err(ProbeError::Network(m)) => assert_eq!(m, "DNS error RCODE: 3"),
        other => panic!("unexpected {:?}", other),
    }
}

#[test]
fn probe_dispatch_and_timeout() {
    assert_eq!(probe_kind("http").unwrap(), ProbeKind::Http);
    assert_eq!(probe_kind("dns").unwrap(), ProbeKind::Dns);
    assert_eq!(probe_kind("ping").unwrap(), ProbeKind::Ping);
    match probe_kind("icmp") {
        Err(ProbeError::Config(m)) => assert_eq!(m, "unknown probe type: icmp"),
        other => panic!("unexpected {:?}", other),
    }
    let t = Duration::from_secs(5);
    assert!(matches!(enforce_timeout(Ok(5_000_000_000), t, 5_000_000_000), Err(ProbeError::Timeout(d)) if d == t));
    assert_eq!(enforce_timeout(Ok(4_999_999_999), t, 5_000_000_000).unwrap(), 4_999_999_999);
    let cfg = ProbeConfig::new("ping", "example.com", t);
    assert_eq!(cfg.probe_type, "ping");
    assert_eq!(cfg.address, "example.com");
    assert_eq!(cfg.timeout, t);
    for _ in 0..200 {
        assert!(probe_jitter_ms() < 100);
    }
}

#[test]
fn timeout_outcome_becomes_sentinel_sample() {
    let at = Timestamp::new(1_704_112_496, 5);
    let s = outcome_to_sample(at, 3, &Err(ProbeError::Timeout(Duration::from_secs(1)))).unwrap();
    assert_eq!(s.latency, Latency::Timeout);
    assert_eq!(s.time, at);
    assert_eq!(s.target_id, 3);
    assert_eq!(outcome_to_sample(at, 3, &Ok(42)).unwrap().latency, Latency::Nanos(42));
    assert!(outcome_to_sample(at, 3, &Err(ProbeError::Network("x".to_string()))).is_none());
    assert!(outcome_to_sample(at, 3, &Err(ProbeError::Command("x".to_string()))).is_none());
}

#[test]
fn probe_addresses() {
    assert_eq!(http_probe_url("example.com"), "http://example.com");
    assert_eq!(http_probe_url("https://example.com/x"), "https://example.com/x");
    assert_eq!(http_probe_url("http://256.256.256.256"), "http://256.256.256.256");
    assert_eq!(dns_server_address("8.8.8.8"), "8.8.8.8:53");
    assert_eq!(dns_server_address("8.8.8.8:5353"), "8.8.8.8:5353");
}

#[test]
fn jitter_is_the_draw_modulo_100() {
    assert_eq!(jitter_from(0), 0);
    assert_eq!(jitter_from(199), 99);
    assert_eq!(jitter_from(12345), 45);
    assert_eq!(jitter_from(u64::MAX), 15);
}

#[test]
fn payload_stamp_is_nanos_modulo_2_64() {
    assert_eq!(stamp_of(Timestamp::new(1, 5)), 1_000_000_005);
    assert_eq!(stamp_of(Timestamp::new(-1, 0)), u64::MAX - 999_999_999);
    let p = build_icmp_echo_request_at(1, 1, stamp_of(Timestamp::new(2, 0)));
    assert_eq!(p[8..16], 2_000_000_000u64.to_be_bytes());
}

#[test]
fn ping_failures_are_classified() {
    let t = Duration::from_secs(2);
    assert!(matches!(ping_command_failure("ping: timeout", "", t), ProbeError::Timeout(d) if d == t));
    assert!(matches!(ping_command_failure("", "1 packets transmitted, 0 received, 100% packet loss", t), ProbeError::Timeout(_)));
    assert!(matches!(ping_command_failure("", "1 packets transmitted, 0 packets received, 100.0% packet loss", t), ProbeError::Timeout(_)));
    match ping_command_failure("unknown host", "nothing", t) {
        ProbeError::Command(m) => assert_eq!(m, "ping failed: nothing"),
        other => panic!("unexpected {:?}", other),
    }
    assert!(needs_command_fallback(&ProbeError::Network("Permission denied: os error 13".to_string())));
    assert!(needs_command_fallback(&ProbeError::Network("Operation not permitted".to_string())));
    assert!(!needs_command_fallback(&ProbeError::Network("Failed to connect".to_string())));
    assert!(!needs_command_fallback(&ProbeError::Command("denied".to_string())));
    assert!(str_contains("abcabd", "abd"));
    assert!(str_contains("abc", ""));
    assert!(!str_contains("ab", "abc"));
}

#[test]
fn receive_loop_steps() {
    let reply = [0u8, 0, 0, 0, 0x12, 0x34, 0, 1];
    assert_eq!(reply_step_v4(&reply, 0x1234, 1, 10, 100), ReplyStep::Reply(10));
    assert_eq!(reply_step_v4(&reply, 0x1234, 2, 10, 100), ReplyStep::KeepWaiting);
    assert_eq!(reply_step_v4(&reply, 0x1234, 1, 100, 100), ReplyStep::TimedOut);
    let reply6 = [129u8, 0, 0, 0, 0x12, 0x34, 0, 1];
    assert_eq!(reply_step_v6(&reply6, 0x1234, 1, 5, 100), ReplyStep::Reply(5));
    assert_eq!(reply_step_v6(&reply, 0x1234, 1, 5, 100), ReplyStep::KeepWaiting);
}
