use caddy_pretty_print::ip::IpAddress;
use caddy_pretty_print::level::LogLevel;
use caddy_pretty_print::record::{LogRecord, LogRequest};
use caddy_pretty_print::render::{duration_text, status_text, truncate_line};

#[test]
fn duration_unit_boundaries() {
    // 0.0009999 s
    assert_eq!(duration_text(999_900), "999.900 us");
    // 0.001 s
    assert_eq!(duration_text(1_000_000), "1.000 ms");
    // 0.999 s
    assert_eq!(duration_text(999_000_000), "999.000 ms");
    // 1.0 s
    assert_eq!(duration_text(1_000_000_000), "1.000 s");
    // 59.999 s
    assert_eq!(duration_text(59_999_000_000), "59.999 s");
    // 60.0 s
    assert_eq!(duration_text(60_000_000_000), "1 m 0.000 s");
}

#[test]
fn duration_rounds_to_three_digits() {
    assert_eq!(duration_text(1_234_567), "1.235 ms");
    assert_eq!(duration_text(1_234_499), "1.234 ms");
    assert_eq!(duration_text(125_500_000_000), "2 m 5.500 s");
}

#[test]
fn negative_duration_renders_in_microseconds() {
    assert_eq!(duration_text(-500_000), "-500.000 us");
    assert_eq!(duration_text(-5_000_000_000), "-5000000.000 us");
}

#[test]
fn status_classes_color_the_code() {
    assert_eq!(status_text(200, true), "\u{1b}[32m200\u{1b}[0m OK");
    assert_eq!(status_text(301, true), "\u{1b}[36m301\u{1b}[0m Moved Permanently");
    assert_eq!(status_text(404, true), "\u{1b}[31m404\u{1b}[0m Not Found");
    assert_eq!(status_text(500, true), "\u{1b}[31m500\u{1b}[0m Internal Server Error");
    assert_eq!(status_text(700, true), "700");
}

#[test]
fn status_without_color_is_plain() {
    assert_eq!(status_text(200, false), "200 OK");
    assert_eq!(status_text(404, false), "404 Not Found");
}

#[test]
fn truncation_cuts_long_lines() {
    let mut s = String::from("abcdefghij");
    truncate_line(&mut s, 5);
    assert_eq!(s, "abc\u{2026}");
    assert_eq!(s.chars().count(), 4);
}

#[test]
fn truncation_keeps_short_lines() {
    let mut s = String::from("abcde");
    truncate_line(&mut s, 5);
    assert_eq!(s, "abcde");
    let mut t = String::from("abcd");
    truncate_line(&mut t, 5);
    assert_eq!(t, "abcd");
}

#[test]
fn truncation_counts_characters_not_bytes() {
    let mut s = String::from("ééééééééé");
    truncate_line(&mut s, 5);
    assert_eq!(s, "ééé\u{2026}");
}

#[test]
fn level_labels_are_aligned() {
    assert_eq!(LogLevel::Debug.label(), "DEBUG");
    assert_eq!(LogLevel::Info.label(), " INFO");
    assert_eq!(LogLevel::Warn.label(), " WARN");
    assert_eq!(LogLevel::Error.label(), "ERROR");
    assert_eq!(LogLevel::Panic.label(), "PANIC");
    assert_eq!(LogLevel::Fatal.label(), "FATAL");
}

#[test]
fn format_is_deterministic() {
    let mk = || LogRecord {
        timestamp_us: 1_700_000_000_123_456,
        level: LogLevel::Warn,
        message: String::new(),
        request: Some(LogRequest {
            remote_ip: IpAddress::V4(10, 0, 0, 1),
            remote_port: 8080,
            method: String::from("POST"),
            host: String::from("api.example.com"),
            uri: String::from("/v1/items"),
            version: String::from("HTTP/1.1"),
            headers: vec![(String::from("user-agent"), String::from("curl/8.0"))],
        }),
        duration_ns: Some(1_500_000),
        status: Some(201),
    };
    let a = mk().format(true, Some(80));
    let b = mk().format(true, Some(80));
    assert_eq!(a, b);
}

#[test]
fn reverse_video_levels() {
    let mk = |level| LogRecord {
        timestamp_us: 0,
        level,
        message: String::from("x"),
        request: None,
        duration_ns: None,
        status: None,
    };
    let p = mk(LogLevel::Panic).format(true, None);
    assert!(p.contains("\u{1b}[7mPANIC\u{1b}[0m"), "{p}");
    let f = mk(LogLevel::Fatal).format(true, None);
    assert!(f.contains("\u{1b}[7mFATAL\u{1b}[0m"), "{f}");
}

#[test]
fn non_visible_user_agent_is_omitted() {
    let mk = |ua: &str| LogRecord {
        timestamp_us: 0,
        level: LogLevel::Info,
        message: String::new(),
        request: Some(LogRequest {
            remote_ip: IpAddress::V4(1, 2, 3, 4),
            remote_port: 80,
            method: String::from("GET"),
            host: String::from("h"),
            uri: String::from("/"),
            version: String::from("HTTP/1.1"),
            headers: vec![(String::from("user-agent"), String::from(ua))],
        }),
        duration_ns: None,
        status: None,
    };
    assert!(mk("plain agent").format(false, None).contains("user-agent      plain agent"));
    assert!(!mk("smart\u{2019}quote").format(false, None).contains("user-agent"));
}

#[test]
fn ipv4_mapped_ipv6_renders_dotted() {
    let rec = LogRecord {
        timestamp_us: 0,
        level: LogLevel::Info,
        message: String::new(),
        request: Some(LogRequest {
            remote_ip: IpAddress::V6(vec![0, 0, 0, 0, 0, 0xffff, 0x0102, 0x0304]),
            remote_port: 81,
            method: String::from("GET"),
            host: String::from("h"),
            uri: String::from("/"),
            version: String::from("HTTP/1.1"),
            headers: vec![],
        }),
        duration_ns: None,
        status: None,
    };
    assert!(rec.format(false, None).contains("remote address  [::ffff:1.2.3.4]:81"));
}

#[test]
fn json_acceptance_agrees_with_reference_parser() {
    let cases = [
        r#"{"a":1}"#,
        r#"  {"a": [1, 2.5, -3e2, true, null, "x"]}  "#,
        r#"{"a":01}"#,
        r#"[1,]"#,
        r#"{"a":1,}"#,
        r#""\ud800""#,
        r#""😀""#,
        r#""A""#,
        " 1.5e-3 ",
        "1.",
        ".5",
        "-0",
        "tru",
        "truex",
        "{}",
        "[]",
        r#"{"":""}"#,
        "\"tab\tin\"",
        "nan",
        r#"{"a":"b" "c":"d"}"#,
    ];
    for case in cases {
        let chars: Vec<char> = case.chars().collect();
        let ours = caddy_pretty_print::json::parse_json(&chars).is_some();
        let reference = serde_json::from_str::<serde_json::Value>(case).is_ok();
        assert_eq!(ours, reference, "case {case:?}");
    }
}

#[test]
fn nesting_limit_matches_reference_parser() {
    for depth in [127usize, 128] {
        let line = "[".repeat(depth) + &"]".repeat(depth);
        let chars: Vec<char> = line.chars().collect();
        let ours = caddy_pretty_print::json::parse_json(&chars).is_some();
        let reference = serde_json::from_str::<serde_json::Value>(&line).is_ok();
        assert_eq!(ours, reference, "depth {depth}");
    }
}
