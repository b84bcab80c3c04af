use netmon::bridge::{authorized, byte_len, header, reason, request_path, respond_to, response_head, text_lines};
use netmon::config::Config;
use netmon::json::Json;
use netmon::monitor::Snapshot;

fn ready() -> Snapshot {
    Snapshot::placeholder(&Config::default(), "2026-01-01 08:00:00")
}

#[test]
fn lines_like_str_lines() {
    assert_eq!(text_lines("a\r\nb\n\nc\r"), vec!["a", "b", "", "c\r"]);
    assert_eq!(text_lines("x\n"), vec!["x"]);
    assert!(text_lines("").is_empty());
}

#[test]
fn headers_ignore_case() {
    let request = "GET /status HTTP/1.1\r\nHost: 127.0.0.1:17800\r\nX-TOKEN:  s3cret \r\n\r\n";
    assert_eq!(header(request, "host"), Some("127.0.0.1:17800".to_string()));
    assert_eq!(header(request, "x-token"), Some("s3cret".to_string()));
    assert_eq!(header(request, "accept"), None);
}

#[test]
fn token_in_header_or_query() {
    let request = "GET /status?a=1&token=abc HTTP/1.1\r\n\r\n";
    assert!(authorized(request, "a=1&token=abc", "abc"));
    assert!(!authorized(request, "a=1&token=abcd", "abc"));
    assert!(authorized("GET / HTTP/1.1\r\nx-token: abc\r\n", "", "abc"));
    assert_eq!(request_path(request), ("/status".to_string(), "a=1&token=abc".to_string()));
    assert_eq!(request_path(""), ("/".to_string(), String::new()));
    assert_eq!(request_path("GET"), ("/".to_string(), String::new()));
}

#[test]
fn routes_and_codes() {
    let snapshot = ready();
    let r = respond_to("GET /status HTTP/1.1\r\n\r\n", "", Some(&snapshot));
    assert_eq!(r.code, 200);
    assert_eq!(r.content_type, "application/json; charset=utf-8");
    assert!(r.body.starts_with("{\n  \"generated_at\": \"2026-01-01 08:00:00\""));
    let r = respond_to("GET /status.json HTTP/1.1\r\n\r\n", "", None);
    assert_eq!(r.code, 503);
    assert_eq!(r.body, "{\"status\":\"warming_up\",\"message\":\"尚未完成首轮探测\"}");
    let r = respond_to("GET /report HTTP/1.1\r\n\r\n", "", Some(&snapshot));
    assert_eq!(r.code, 200);
    assert_eq!(r.content_type, "text/markdown; charset=utf-8");
    assert!(r.body.starts_with("# 办公网络状态报告\n"));
    let r = respond_to("GET /report.md HTTP/1.1\r\n\r\n", "", None);
    assert_eq!((r.code, r.body.as_str()), (503, "尚未完成首轮探测"));
    let r = respond_to("GET / HTTP/1.1\r\nHost: 127.0.0.1:17800\r\n\r\n", "", None);
    assert_eq!(r.code, 200);
    assert!(r.body.contains("<code>http://127.0.0.1:17800/report</code>"));
    let r = respond_to("GET /index.html HTTP/1.1\r\n\r\n", "", None);
    assert!(r.body.contains("<code>http://127.0.0.1/report</code>"));
    let r = respond_to("GET /nope HTTP/1.1\r\n\r\n", "", None);
    assert_eq!(r.code, 404);
    assert_eq!(r.body, "{\"error\":\"not_found\",\"paths\":[\"/status\",\"/report\"]}");
}

#[test]
fn a_set_token_guards_every_path() {
    let snapshot = ready();
    let r = respond_to("GET /status HTTP/1.1\r\n\r\n", "k", Some(&snapshot));
    assert_eq!(r.code, 401);
    assert_eq!(r.body, "{\"error\":\"unauthorized\",\"hint\":\"需要 ?token= 或 X-Token 请求头\"}");
    let r = respond_to("GET /nope HTTP/1.1\r\n\r\n", "k", None);
    assert_eq!(r.code, 401);
    let r = respond_to("GET /status?token=k HTTP/1.1\r\n\r\n", "k", Some(&snapshot));
    assert_eq!(r.code, 200);
    let r = respond_to("GET /status HTTP/1.1\r\nX-Token: k\r\n\r\n", "k", None);
    assert_eq!(r.code, 503);
}

#[test]
fn response_heads() {
    assert_eq!(reason(200), "OK");
    assert_eq!(reason(401), "Unauthorized");
    assert_eq!(reason(404), "Not Found");
    assert_eq!(reason(503), "Service Unavailable");
    assert_eq!(reason(418), "OK");
    assert_eq!(byte_len("aé€😀"), 10);
    assert_eq!(
        response_head(503, "text/plain; charset=utf-8", "尚未完成首轮探测"),
        "HTTP/1.1 503 Service Unavailable\r\nContent-Type: text/plain; charset=utf-8\r\nContent-Length: 24\r\nConnection: close\r\nCache-Control: no-store\r\n\r\n"
    );
}

#[test]
fn status_body_reads_back() {
    let snapshot = ready();
    let r = respond_to("GET /status?token=k HTTP/1.1\r\n\r\n", "k", Some(&snapshot));
    assert_eq!(r.code, 200);
    let value = Json::parse(&r.body).expect("the status body is JSON");
    assert_eq!(value.string("generated_at", ""), "2026-01-01 08:00:00");
    assert_eq!(value.string("channels.clash.level", ""), "unknown");
    assert_eq!(value.to_string_pretty(), r.body);
}

#[test]
fn every_snapshot_is_reported() {
    let mut snapshot = ready();
    snapshot.channels[0].latency_ms = Some(-5_000);
    snapshot.channels[0].history = vec![Some(-5_000), None];
    let r = respond_to("GET /status HTTP/1.1\r\n\r\n", "", Some(&snapshot));
    assert_eq!(r.code, 200);
    let r = respond_to("GET /report HTTP/1.1\r\n\r\n", "", Some(&snapshot));
    assert_eq!(r.code, 200);
    assert!(r.body.contains("-5 ms"));
}
