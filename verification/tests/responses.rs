use plate::request::{content_length, HTTPMethod, HTTPVersion};
use plate::response::{http_status_codes, log_line, prepare_response, Response};
use plate::strmap::StringMap;

#[test]
fn status_table_has_sixty_two_codes() {
    let t = http_status_codes();
    assert_eq!(t.len(), 62);
    assert_eq!(t.get(&200), Some(&"OK"));
    assert_eq!(t.get(&404), Some(&"Not Found"));
    assert_eq!(t.get(&418), Some(&"I'm a teapot"));
    assert_eq!(t.get(&511), Some(&"Network Authentication Required"));
    assert_eq!(t.get(&306), None);
}

#[test]
fn response_text_on_the_wire() {
    let r = prepare_response(HTTPVersion::HTTP11, "Hello world".to_string(), 200, "text/plain".to_string());
    assert_eq!(
        r.to_string(),
        "HTTP/1.1 200 OK\r\nContent-Type: text/plain\r\nContent-Length: 11\r\nConnection: close\r\n\r\nHello world\r\n"
    );
}

#[test]
fn unknown_status_is_named_so() {
    let r = Response::new(Some("x".to_string()), 299, StringMap::new(), HTTPVersion::HTTP10);
    assert_eq!(r.to_string(), "HTTP/1.0 299 Unknown Status\r\n\r\nx\r\n");
}

#[test]
fn content_length_counts_bytes() {
    let r = prepare_response(HTTPVersion::HTTP10, "héllo ✓".to_string(), 404, "text/html".to_string());
    assert_eq!(r.headers.get("Content-Length").map(|s| s.as_str()), Some("10"));
    assert_eq!(r.headers.get("Content-Type").map(|s| s.as_str()), Some("text/html"));
    assert_eq!(r.headers.get("Connection").map(|s| s.as_str()), Some("close"));
    assert_eq!(r.status_code, 404);
    assert_eq!(r.body.as_deref(), Some("héllo ✓"));
}

#[test]
fn answered_requests_are_logged() {
    assert_eq!(log_line(&HTTPMethod::GET, "/hello", 200), "GET /hello 200\n");
    assert_eq!(log_line(&HTTPMethod::POST, "/", 404), "POST / 404\n");
}

#[test]
fn written_length_reads_back() {
    let body = "ünïcödé body";
    let r = prepare_response(HTTPVersion::HTTP11, body.to_string(), 200, "text/plain".to_string());
    assert_eq!(content_length(&r.headers), Some(Some(body.len())));
}

#[test]
fn every_prepared_response_closes() {
    for (body, code) in [("", 200u16), ("x", 404), ("Permission Error", 403)] {
        let r = prepare_response(HTTPVersion::HTTP11, body.to_string(), code, "text/plain".to_string());
        assert_eq!(r.headers.get("Connection").map(|s| s.as_str()), Some("close"));
    }
}
