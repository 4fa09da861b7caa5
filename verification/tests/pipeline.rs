use caddy_pretty_print::filters::Filters;
use caddy_pretty_print::pipeline::process_line;

fn plain_filters() -> Filters {
    Filters::builder().build()
}

fn strict_filters() -> Filters {
    let mut b = Filters::builder();
    b.with_strict(true);
    b.build()
}

#[test]
fn simple_record_end_to_end() {
    let line = r#"{"ts":1700000000.123456,"level":"info","msg":"hi"}"#;
    let out = process_line(line, &plain_filters(), false, None);
    assert_eq!(
        out.as_deref(),
        Some("[2023-11-14T22:13:20.123456+00:00]  INFO hi")
    );
}

#[test]
fn strict_mode_suppresses_bad_lines() {
    assert_eq!(process_line("not json", &strict_filters(), false, None), None);
    assert_eq!(
        process_line("{\"ts\":1,\"level\":\"nope\",\"msg\":\"x\"}", &strict_filters(), false, None),
        None
    );
}

#[test]
fn lenient_mode_passes_bad_lines_unchanged() {
    let raw = "  {\"ts\": broken";
    assert_eq!(
        process_line(raw, &plain_filters(), false, None).as_deref(),
        Some(raw)
    );
    let schema_bad = "{\"ts\":1,\"level\":\"nope\",\"msg\":\"x\"}";
    assert_eq!(
        process_line(schema_bad, &plain_filters(), false, None).as_deref(),
        Some(schema_bad)
    );
}

#[test]
fn duplicate_known_field_fails_decode() {
    let line = r#"{"ts":1,"ts":2,"level":"info","msg":"x"}"#;
    assert_eq!(
        process_line(line, &plain_filters(), false, None).as_deref(),
        Some(line)
    );
}

#[test]
fn level_matches_case_insensitively() {
    let line = r#"{"ts":1700000000,"level":"INFO","msg":"hi"}"#;
    let out = process_line(line, &plain_filters(), false, None).unwrap();
    assert_eq!(out, "[2023-11-14T22:13:20.000000+00:00]  INFO hi");
}

#[test]
fn unknown_fields_are_ignored() {
    let line = r#"{"extra":[1,{"a":null}],"ts":1700000000,"level":"warn","msg":"m","more":true}"#;
    let out = process_line(line, &plain_filters(), false, None).unwrap();
    assert_eq!(out, "[2023-11-14T22:13:20.000000+00:00]  WARN m");
}

#[test]
fn unicode_escapes_decode() {
    let line = r#"{"ts":1700000000,"level":"info","msg":"Aé😀"}"#;
    let out = process_line(line, &plain_filters(), false, None).unwrap();
    assert!(out.ends_with(" INFO A\u{e9}\u{1f600}"));
}

#[test]
fn lone_surrogate_is_an_error() {
    let line = r#"{"ts":1700000000,"level":"info","msg":"\ud800"}"#;
    assert_eq!(
        process_line(line, &plain_filters(), false, None).as_deref(),
        Some(line)
    );
}

#[test]
fn full_request_block() {
    let line = r#"{"ts":1700000000.0,"level":"error","msg":"","request":{"remote_ip":"1.2.3.4","remote_port":"443","method":"GET","host":"example.com","uri":"/x","proto":"HTTP/1.1","headers":{"User-Agent":["curl/8.0"]}},"duration":0.25,"status":404}"#;
    let out = process_line(line, &plain_filters(), false, None).unwrap();
    let expected = "[2023-11-14T22:13:20.000000+00:00] ERROR GET /x HTTP/1.1\n\
                    \u{20}   remote address  1.2.3.4:443\n\
                    \u{20}   host            example.com\n\
                    \u{20}   user-agent      curl/8.0\n\
                    \u{20}   status          404 Not Found\n\
                    \u{20}   duration        250.000 ms";
    assert_eq!(out, expected);
}

#[test]
fn ipv6_remote_address_is_bracketed_and_canonical() {
    let line = r#"{"ts":1700000000,"level":"info","msg":"","request":{"remote_ip":"2001:0db8:0:0:0:0:0:1","remote_port":"80","method":"GET","host":"h","uri":"/","proto":"HTTP/2.0","headers":{}}}"#;
    let out = process_line(line, &plain_filters(), false, None).unwrap();
    assert!(out.contains("remote address  [2001:db8::1]:80"), "{out}");
}

#[test]
fn bad_port_fails_whole_record() {
    let line = r#"{"ts":1700000000,"level":"info","msg":"","request":{"remote_ip":"1.2.3.4","remote_port":"80x","method":"GET","host":"h","uri":"/","proto":"HTTP/1.1","headers":{}}}"#;
    assert_eq!(
        process_line(line, &plain_filters(), false, None).as_deref(),
        Some(line)
    );
}

#[test]
fn bad_status_degrades_to_absent() {
    for status in [r#""abc""#, "200.0", "99", "1000", "-200", "null"] {
        let line = format!(
            r#"{{"ts":1700000000,"level":"info","msg":"hi","status":{status}}}"#
        );
        let out = process_line(&line, &plain_filters(), false, None).unwrap();
        assert_eq!(out, "[2023-11-14T22:13:20.000000+00:00]  INFO hi", "status={status}");
    }
}

#[test]
fn good_status_without_reason_shows_code_alone() {
    let line = r#"{"ts":1700000000,"level":"info","msg":"hi","status":599}"#;
    let out = process_line(line, &plain_filters(), false, None).unwrap();
    assert_eq!(
        out,
        "[2023-11-14T22:13:20.000000+00:00]  INFO hi\n    status          599"
    );
}

#[test]
fn host_filter_gates_records() {
    let mut b = Filters::builder();
    b.with_host("*.example.com").unwrap();
    let f = b.build();
    let mk = |host: &str| {
        r#"{"ts":1700000000,"level":"info","msg":"","request":{"remote_ip":"1.2.3.4","remote_port":"80","method":"GET","host":"HOST","uri":"/","proto":"HTTP/1.1","headers":{}}}"#
        .replace("HOST", host)
    };
    assert!(process_line(&mk("a.example.com"), &f, false, None).is_some());
    assert!(process_line(&mk("b.org"), &f, false, None).is_none());
    // a record with no request never matches when patterns are configured
    let no_req = r#"{"ts":1700000000,"level":"info","msg":"hi"}"#;
    assert!(process_line(no_req, &f, false, None).is_none());
}

#[test]
fn empty_filter_matches_requestless_record() {
    let f = plain_filters();
    let no_req = r#"{"ts":1700000000,"level":"info","msg":"hi"}"#;
    assert!(process_line(no_req, &f, false, None).is_some());
}

#[test]
fn invalid_host_pattern_is_rejected() {
    let mut b = Filters::builder();
    assert!(b.with_host("[").is_err());
    assert!(b.with_host("*.ok.org").is_ok());
}

#[test]
fn is_strict_reports_the_flag() {
    assert!(!plain_filters().is_strict());
    assert!(strict_filters().is_strict());
}

#[test]
fn color_enabled_adds_escapes() {
    let line = r#"{"ts":1700000000,"level":"debug","msg":"hi","status":200}"#;
    let out = process_line(line, &plain_filters(), true, None).unwrap();
    assert_eq!(
        out,
        "[2023-11-14T22:13:20.000000+00:00] \u{1b}[33mDEBUG\u{1b}[0m hi\n\
         \u{20}   status          \u{1b}[32m200\u{1b}[0m OK"
    );
}

#[test]
fn request_lines_truncate_to_width() {
    let line = r#"{"ts":1700000000,"level":"info","msg":"","request":{"remote_ip":"1.2.3.4","remote_port":"80","method":"GET","host":"example.com","uri":"/","proto":"HTTP/1.1","headers":{}}}"#;
    let out = process_line(line, &plain_filters(), false, Some(20)).unwrap();
    let lines: Vec<&str> = out.lines().collect();
    // the host line is longer than the width: 18 kept characters plus the marker
    assert_eq!(lines[2], "    host          \u{2026}");
    assert_eq!(lines[2].chars().count(), 19);
}
