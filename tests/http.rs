use toolkit::codec::{
    decode_request, decode_request_parts, decode_response, decode_response_parts, head_length,
    DecodeError,
};
use toolkit::framer::{MessageReader, ReadAction, ReadEvent, ReadPhase, BODY_CHUNK_SIZE};
use toolkit::header::{HTTPHeader, HeaderStore};
use toolkit::request::{HttpRequest, HttpRequestBuildError, HttpRequestBuilder};
use toolkit::response::{HttpResponse, HttpResponseBuildError, HttpResponseBuilder};

fn s(x: &str) -> String {
    x.to_string()
}

fn sample_request() -> HttpRequest {
    let mut headers = HeaderStore::new();
    headers.set(s("Host"), s("example.com"));
    HttpRequest::new(s("GET"), s("/"), s("HTTP/1.1"), headers, vec![])
}

#[test]
fn encode_exact_bytes_and_decode_back() {
    let req = sample_request();
    let bytes = req.as_bytes();
    assert_eq!(bytes, b"GET / HTTP/1.1\r\nHost: example.com\r\n\r\n".to_vec());
    let back = decode_request(&bytes).unwrap();
    assert_eq!(back.get_method(), "GET");
    assert_eq!(back.get_url(), "/");
    assert_eq!(back.get_version(), "HTTP/1.1");
    assert_eq!(back.get_header(&s("Host")), Some(&s("example.com")));
    assert_eq!(back.get_headers().len(), 1);
    assert_eq!(back.get_body(), b"");
    assert_eq!(req.into_bytes(), bytes);
}

#[test]
fn round_trip_with_headers_and_body() {
    let mut headers = HeaderStore::new();
    headers.set(s("Content-Type"), s("text/plain; charset=utf-8"));
    headers.set(s("X-Empty"), s(""));
    headers.set(s("X-Spaced"), s("  two leading"));
    headers.set(s("X-Uni"), s("héllo wörld"));
    let body = b"line one\r\n\r\nline two".to_vec();
    let req = HttpRequest::new(s("POST"), s("/submit?q=1"), s("HTTP/1.0"), headers, body.clone());
    let back = decode_request(&req.as_bytes()).unwrap();
    assert_eq!(back.get_method(), "POST");
    assert_eq!(back.get_url(), "/submit?q=1");
    assert_eq!(back.get_version(), "HTTP/1.0");
    assert_eq!(back.get_body(), body.as_slice());
    let h = back.get_headers();
    assert_eq!(h.len(), 4);
    assert_eq!(h.entry(0).0, "Content-Type");
    assert_eq!(h.entry(0).1, "text/plain; charset=utf-8");
    assert_eq!(h.entry(1).1, "");
    assert_eq!(h.entry(2).1, "  two leading");
    assert_eq!(h.entry(3).1, "héllo wörld");
}

#[test]
fn header_overwrite_keeps_last_value() {
    let mut b = HttpRequestBuilder::new();
    b.set_method(s("GET"))
        .set_url(s("/"))
        .set_version(s("HTTP/1.1"))
        .set_body(vec![])
        .set_header(s("X"), s("1"))
        .set_header(s("X"), s("2"));
    let req = b.build().unwrap();
    assert_eq!(req.get_header(&s("X")), Some(&s("2")));
    assert_eq!(req.get_headers().len(), 1);
}

#[test]
fn request_builder_reports_first_missing_field() {
    let mut b = HttpRequest::builder();
    assert_eq!(b.build().err(), Some(HttpRequestBuildError::MissingMethod));
    b.set_body(vec![1]);
    b.set_version(s("HTTP/1.1"));
    assert_eq!(b.build().err(), Some(HttpRequestBuildError::MissingMethod));
    b.set_method(s("GET"));
    assert_eq!(b.build().err(), Some(HttpRequestBuildError::MissingUrl));
    b.set_url(s("/"));
    let mut b2 = HttpRequestBuilder::new();
    b2.set_method(s("GET")).set_url(s("/"));
    assert_eq!(b2.build().err(), Some(HttpRequestBuildError::MissingVersion));
    b2.set_version(s("HTTP/1.1"));
    assert_eq!(b2.build().err(), Some(HttpRequestBuildError::MissingBody));
    let req = b.build().unwrap();
    assert_eq!(req.get_body(), &[1]);
    // the fields were taken: building again reports them missing
    assert_eq!(b.build().err(), Some(HttpRequestBuildError::MissingMethod));
}

#[test]
fn builder_headers_are_replaced_and_reset() {
    let mut b = HttpRequestBuilder::new();
    b.set_header(s("A"), s("1"));
    let mut replacement = HeaderStore::new();
    replacement.set(s("B"), s("2"));
    b.set_headers(replacement);
    b.set_method(s("GET")).set_url(s("/")).set_version(s("HTTP/1.1")).set_body(vec![]);
    let req = b.build().unwrap();
    assert_eq!(req.get_header(&s("A")), None);
    assert_eq!(req.get_header(&s("B")), Some(&s("2")));
    b.set_method(s("GET")).set_url(s("/")).set_version(s("HTTP/1.1")).set_body(vec![]);
    let again = b.build().unwrap();
    assert_eq!(again.get_headers().len(), 0);
}

#[test]
fn response_builder_missing_only_status_message() {
    let mut b = HttpResponseBuilder::new();
    b.set_version(s("HTTP/1.1")).set_status_code(200).set_body(vec![]);
    assert_eq!(b.build().err(), Some(HttpResponseBuildError::MissingStatusMessage));
}

#[test]
fn response_builder_order() {
    let mut b = HttpResponse::builder();
    assert_eq!(b.build().err(), Some(HttpResponseBuildError::MissingVersion));
    b.set_status_message(s("OK")).set_body(vec![]);
    assert_eq!(b.build().err(), Some(HttpResponseBuildError::MissingVersion));
    b.set_version(s("HTTP/1.1"));
    assert_eq!(b.build().err(), Some(HttpResponseBuildError::MissingStatusCode));
    b.set_status_code(404);
    let mut b2 = HttpResponseBuilder::new();
    b2.set_version(s("HTTP/1.1")).set_status_code(1).set_status_message(s("x"));
    assert_eq!(b2.build().err(), Some(HttpResponseBuildError::MissingBody));
    let res = b.build().unwrap();
    assert_eq!(res.get_status_code(), 404);
    assert_eq!(res.get_status_message(), "OK");
}

#[test]
fn response_encoding_and_decoding() {
    let mut res = HttpResponse::new(s("HTTP/1.1"), 404, s("Not Found"), HeaderStore::new(), b"nope".to_vec());
    res.set_header(s("Server"), s("t"));
    assert_eq!(res.as_bytes(), b"HTTP/1.1 404 Not Found\r\nServer: t\r\n\r\nnope".to_vec());
    let back = decode_response(&res.as_bytes()).unwrap();
    assert_eq!(back.get_version(), "HTTP/1.1");
    assert_eq!(back.get_status_code(), 404);
    assert_eq!(back.get_status_message(), "Not Found");
    assert_eq!(back.get_header(&s("Server")), Some(&s("t")));
    assert_eq!(back.get_body(), b"nope");
    res.set_status_code(7);
    res.set_status_message(s("Odd"));
    res.set_version(s("HTTP/1.0"));
    res.set_body(vec![]);
    assert_eq!(res.into_bytes(), b"HTTP/1.0 7 Odd\r\nServer: t\r\n\r\n".to_vec());
}

#[test]
fn status_code_is_any_u16() {
    let res = HttpResponse::new(s("HTTP/1.1"), 65535, s("Max"), HeaderStore::new(), vec![]);
    assert_eq!(res.as_bytes(), b"HTTP/1.1 65535 Max\r\n\r\n".to_vec());
    let res0 = HttpResponse::new(s("HTTP/1.1"), 0, s("Zero"), HeaderStore::new(), vec![]);
    assert_eq!(res0.as_bytes(), b"HTTP/1.1 0 Zero\r\n\r\n".to_vec());
}

#[test]
fn non_numeric_status_code() {
    let r = decode_response(b"HTTP/1.1 OK Fine\r\n\r\n");
    assert_eq!(r.err(), Some(DecodeError::InvalidStatusCode));
    let big = decode_response(b"HTTP/1.1 65536 Big\r\n\r\n");
    assert_eq!(big.err(), Some(DecodeError::InvalidStatusCode));
    let neg = decode_response(b"HTTP/1.1 -1 Neg\r\n\r\n");
    assert_eq!(neg.err(), Some(DecodeError::InvalidStatusCode));
    let plus = decode_response(b"HTTP/1.1 +200 Fine\r\n\r\n").unwrap();
    assert_eq!(plus.get_status_code(), 200);
}

#[test]
fn status_message_is_rejoined() {
    let r = decode_response_parts(b"HTTP/1.1  200   Not   Quite\tFine\r\n", vec![9]).unwrap();
    assert_eq!(r.get_status_code(), 200);
    assert_eq!(r.get_status_message(), "Not Quite Fine");
    assert_eq!(r.get_body(), &[9]);
    let short = decode_response_parts(b"HTTP/1.1 200\r\n\r\n", vec![]);
    assert_eq!(short.err(), Some(DecodeError::MalformedStartLine));
}

#[test]
fn malformed_start_line() {
    let two = decode_request_parts(b"GET /\r\n\r\n", vec![]);
    assert_eq!(two.err(), Some(DecodeError::MalformedStartLine));
    let four = decode_request_parts(b"GET / HTTP/1.1 extra\r\n\r\n", vec![]);
    assert_eq!(four.err(), Some(DecodeError::MalformedStartLine));
    let empty = decode_request(b"");
    assert_eq!(empty.err(), Some(DecodeError::MalformedStartLine));
}

#[test]
fn invalid_encoding() {
    let bad = decode_request_parts(b"GET / HTTP/1.1\r\nX: \xff\r\n\r\n", vec![]);
    assert_eq!(bad.err(), Some(DecodeError::InvalidEncoding));
    let bad_res = decode_response(b"HTTP/1.1 OK \xc3\r\n\r\n");
    assert_eq!(bad_res.err(), Some(DecodeError::InvalidEncoding));
    // the body is not held to UTF-8
    let ok = decode_request(b"GET / HTTP/1.1\r\n\r\n\xff\xfe").unwrap();
    assert_eq!(ok.get_body(), &[0xff, 0xfe]);
}

#[test]
fn lenient_header_lines() {
    let req = decode_request(
        b"GET / HTTP/1.1\r\nNoColon\r\nA:1\r\nB: 2\r\nC:  3\r\nA: again\nD:x:y\r\n\r\nbody",
    )
    .unwrap();
    let h = req.get_headers();
    assert_eq!(h.len(), 4);
    assert_eq!(req.get_header(&s("A")), Some(&s("again")));
    assert_eq!(req.get_header(&s("B")), Some(&s("2")));
    assert_eq!(req.get_header(&s("C")), Some(&s(" 3")));
    assert_eq!(req.get_header(&s("D")), Some(&s("x:y")));
    assert_eq!(req.get_header(&s("NoColon")), None);
    assert_eq!(h.entry(0).0, "A");
    assert_eq!(req.get_body(), b"body");
}

#[test]
fn header_block_length() {
    assert_eq!(head_length(b"GET / HTTP/1.1\r\nA: 1\r\n\r\nxyz"), 24);
    assert_eq!(head_length(b"GET / HTTP/1.1\r\n\r\n"), 18);
    assert_eq!(head_length(b"GET / HTTP/1.1"), 14);
    assert_eq!(head_length(b"GET / HTTP/1.1\nA: 1\n\nxyz"), 21);
}

#[test]
fn header_names_are_case_sensitive() {
    let mut h = HeaderStore::new();
    h.set(s("Host"), s("a"));
    h.set(s("host"), s("b"));
    assert_eq!(h.len(), 2);
    assert_eq!(h.get(&s("Host")), Some(&s("a")));
    assert_eq!(h.get(&s("host")), Some(&s("b")));
    assert_eq!(h.get(&s("HOST")), None);
    h.set(s("Host"), s("c"));
    assert_eq!(h.len(), 2);
    let e: &HTTPHeader = h.entry(0);
    assert_eq!((e.0.as_str(), e.1.as_str()), ("Host", "c"));
}

#[test]
fn request_setters() {
    let mut req = sample_request();
    req.set_method(s("PUT"));
    req.set_url(s("/x"));
    req.set_version(s("HTTP/1.0"));
    req.set_header(s("Host"), s("other"));
    req.set_body(b"b".to_vec());
    assert_eq!(req.as_bytes(), b"PUT /x HTTP/1.0\r\nHost: other\r\n\r\nb".to_vec());
}

fn feed(reader: &mut MessageReader, wire: &[u8]) {
    // hands the reader lines and chunks the way a transport would
    let mut pos = 0;
    loop {
        match reader.next_action() {
            ReadAction::ReadLine => {
                let end = wire[pos..].iter().position(|b| *b == b'\n').map(|i| pos + i + 1).unwrap_or(wire.len());
                let line = wire[pos..end].to_vec();
                pos = end;
                reader.handle(ReadEvent::Line(line));
            }
            ReadAction::ReadChunk(n) => {
                let end = (pos + n).min(wire.len());
                let chunk = wire[pos..end].to_vec();
                pos = end;
                reader.handle(ReadEvent::Chunk(chunk));
            }
            ReadAction::Complete => break,
        }
    }
}

#[test]
fn reader_frames_a_request() {
    let mut reader = MessageReader::new();
    assert_eq!(reader.next_action(), ReadAction::ReadLine);
    // would-block while reading lines changes nothing
    assert_eq!(reader.handle(ReadEvent::WouldBlock), ReadAction::ReadLine);
    assert_eq!(reader.phase(), ReadPhase::StartLine);
    feed(&mut reader, b"GET /a HTTP/1.1\r\nHost: h\r\n\r\nhello");
    assert_eq!(reader.phase(), ReadPhase::Done);
    let req = reader.finish_request().unwrap();
    assert_eq!(req.get_url(), "/a");
    assert_eq!(req.get_header(&s("Host")), Some(&s("h")));
    assert_eq!(req.get_body(), b"hello");
}

#[test]
fn reader_body_heuristic() {
    let mut reader = MessageReader::new();
    reader.handle(ReadEvent::Line(b"HTTP/1.1 200 OK\r\n".to_vec()));
    assert_eq!(reader.handle(ReadEvent::Line(b"\r\n".to_vec())), ReadAction::ReadChunk(BODY_CHUNK_SIZE));
    // a full chunk asks for more
    assert_eq!(reader.handle(ReadEvent::Chunk(vec![b'a'; BODY_CHUNK_SIZE])), ReadAction::ReadChunk(BODY_CHUNK_SIZE));
    // a read that would block ends the body
    assert_eq!(reader.handle(ReadEvent::WouldBlock), ReadAction::Complete);
    // nothing changes after that
    assert_eq!(reader.handle(ReadEvent::Chunk(vec![1, 2])), ReadAction::Complete);
    let res = reader.finish_response().unwrap();
    assert_eq!(res.get_status_code(), 200);
    assert_eq!(res.get_body().len(), BODY_CHUNK_SIZE);
}

#[test]
fn reader_end_of_stream() {
    let mut reader = MessageReader::new();
    reader.handle(ReadEvent::Line(vec![]));
    reader.handle(ReadEvent::Line(vec![]));
    assert_eq!(reader.handle(ReadEvent::Chunk(vec![])), ReadAction::Complete);
    assert_eq!(reader.finish_request().err(), Some(DecodeError::MalformedStartLine));
}
