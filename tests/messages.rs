use toolkit::header::HTTPHeader;
use toolkit::logging::{format_log_line, hour_12_of, hour_24_of, minute_of, second_of, LogLevel};
use toolkit::message::{HTTPRequest, HTTPResponse};

#[test]
fn parse_simple_request() {
    let r = HTTPRequest::from_bytes(b"GET /index.html HTTP/1.1\r\nHost: a\r\nBad\r\nX:y\r\n\r\nbody").unwrap();
    assert_eq!(r.method, "GET");
    assert_eq!(r.uri, "/index.html");
    assert_eq!(r.version, "HTTP/1.1");
    assert_eq!(r.headers.len(), 1);
    assert_eq!(r.headers[0].0, "Host");
    assert_eq!(r.headers[0].1, "a");
    assert_eq!(r.body, b"body".to_vec());
}

#[test]
fn parse_request_errors() {
    assert_eq!(HTTPRequest::from_bytes(b"").unwrap_err(), "Invalid byte count!");
    assert_eq!(HTTPRequest::from_bytes(b"GET / HTTP/1.1\r\n").unwrap_err(), "Failed to find body index!");
    assert_eq!(HTTPRequest::from_bytes(b"GET \xff HTTP/1.1\r\n\r\n").unwrap_err(), "Invalid UTF-8!");
    assert_eq!(HTTPRequest::from_bytes(b" \t\r\n\r\n").unwrap_err(), "Invalid meta format!");
    assert_eq!(HTTPRequest::from_bytes(b"GET /\r\n\r\n").unwrap_err(), "Invalid status line!");
}

#[test]
fn parse_request_unicode_whitespace() {
    let r = HTTPRequest::from_bytes("GET\u{00a0}/p\u{3000}HTTP/1.1\r\n\r\n".as_bytes()).unwrap();
    assert_eq!(r.method, "GET");
    assert_eq!(r.uri, "/p");
    assert_eq!(r.version, "HTTP/1.1");
    assert!(r.body.is_empty());
}

#[test]
fn request_new_copies() {
    let h = vec![HTTPHeader("A".into(), "1".into())];
    let r = HTTPRequest::new("GET", "/", "HTTP/1.1", &h, &[1, 2]);
    assert_eq!(r.headers[0].1, "1");
    assert_eq!(r.body, vec![1, 2]);
}

#[test]
fn response_to_bytes() {
    let mut r = HTTPResponse::new("HTTP/1.1", 200, "OK", b"hi");
    assert_eq!(r.to_bytes(), b"HTTP/1.1 200 OKhi".to_vec());
    r.add_header(&HTTPHeader("A".into(), "1".into()));
    r.add_header(&HTTPHeader("B".into(), "2".into()));
    assert_eq!(r.to_bytes(), b"HTTP/1.1 200 OK\r\nA: 1\r\nB: 2hi".to_vec());
}

#[test]
fn clock_fields() {
    // 1970-01-02 13:45:30
    let secs = 86_400 + 13 * 3600 + 45 * 60 + 30;
    assert_eq!(hour_24_of(secs), 13);
    assert_eq!(hour_12_of(secs), 1);
    assert_eq!(minute_of(secs), 45);
    assert_eq!(second_of(secs), 30);
}

#[test]
fn log_lines() {
    let line = format_log_line(LogLevel::Info, 9, 5, 0, "main", "started");
    assert_eq!(line, b"[09:05:00] \x1b[34m[main/INFO]: started\x1b[0m\n".to_vec());
    let warn = format_log_line(LogLevel::Warn, 23, 59, 59, "w", "careful");
    assert_eq!(warn, b"[23:59:59] \x1b[33m[w/WARN]: careful\x1b[0m\n".to_vec());
    let err = format_log_line(LogLevel::Error, 10, 10, 10, "t", "bad");
    assert_eq!(err, b"[10:10:10] \x1b[31m[t/ERR]: bad\x1b[0m\n".to_vec());
}
