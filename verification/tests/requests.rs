use plate::request::{parse_request, try_parse_request, HTTPMethod, HTTPVersion, RequestError};

#[test]
fn parses_get_with_headers() {
    let text = "GET /hello?age=25 HTTP/1.1\r\nHost: localhost:8001\r\nAccept: */*\r\n\r\n";
    let req = match parse_request(text.to_string()) {
        Ok(r) => r,
        Err(_) => panic!("refused"),
    };
    assert_eq!(req.method, HTTPMethod::GET);
    assert_eq!(req.path, "/hello?age=25");
    assert_eq!(req.version, HTTPVersion::HTTP11);
    assert_eq!(req.headers.len(), 2);
    assert_eq!(req.headers.get("Host").map(|s| s.as_str()), Some(" localhost:8001"));
    assert_eq!(req.headers.get("Accept").map(|s| s.as_str()), Some(" */*"));
    assert!(req.body.is_none());
}

#[test]
fn parses_post_body_of_declared_length() {
    let text = "POST /form HTTP/1.0\r\nContent-Length: 7\r\n\r\nabc\r\ndefg\r\nrest";
    let req = match parse_request(text.to_string()) {
        Ok(r) => r,
        Err(_) => panic!("refused"),
    };
    assert_eq!(req.method, HTTPMethod::POST);
    assert_eq!(req.version, HTTPVersion::HTTP10);
    // Lines are gathered without their line breaks until 7 bytes are there.
    assert_eq!(req.body.as_deref(), Some("abcdefg"));
}

#[test]
fn body_length_counts_bytes() {
    // "é" takes two bytes: one line of three characters holds four bytes.
    let text = "POST / HTTP/1.1\r\nContent-Length: 4\r\n\r\néab\r\nzz";
    let req = match parse_request(text.to_string()) {
        Ok(r) => r,
        Err(_) => panic!("refused"),
    };
    assert_eq!(req.body.as_deref(), Some("éab"));
}

#[test]
fn zero_content_length_gives_empty_body() {
    let text = "GET / HTTP/1.1\r\nContent-Length:  0 \r\n\r\n";
    let req = match parse_request(text.to_string()) {
        Ok(r) => r,
        Err(_) => panic!("refused"),
    };
    assert_eq!(req.body.as_deref(), Some(""));
}

#[test]
fn later_header_replaces_earlier() {
    let text = "GET / HTTP/1.1\r\nX: 1\r\nY: 2\r\nX: 3\r\n\r\n";
    let req = match parse_request(text.to_string()) {
        Ok(r) => r,
        Err(_) => panic!("refused"),
    };
    assert_eq!(req.headers.len(), 2);
    assert_eq!(req.headers.get("X").map(|s| s.as_str()), Some(" 3"));
    let (k, v) = req.headers.entry(0);
    assert_eq!((k.as_str(), v.as_str()), ("X", " 3"));
}

#[test]
fn delete_and_put_are_parsed() {
    let req = match parse_request("DELETE /item HTTP/1.1\r\n\r\n".to_string()) {
        Ok(r) => r,
        Err(_) => panic!("refused"),
    };
    assert_eq!(req.method, HTTPMethod::DELETE);
    assert_eq!(req.path, "/item");
    let req = match parse_request("PUT /item HTTP/1.1\r\nContent-Length: 2\r\n\r\nok".to_string()) {
        Ok(r) => r,
        Err(_) => panic!("refused"),
    };
    assert_eq!(req.method, HTTPMethod::PUT);
    assert_eq!(req.body.as_deref(), Some("ok"));
}

#[test]
fn unknown_method_is_refused() {
    let text = "PATCH /x HTTP/1.1\r\n\r\n";
    assert!(matches!(parse_request(text.to_string()), Err(RequestError::HTTPMethodError)));
}

#[test]
fn unreadable_texts_are_told_apart() {
    // No empty line ends the headers.
    assert!(try_parse_request("GET / HTTP/1.1\r\nHost: x".to_string()).is_none());
    // A header line without a colon.
    assert!(try_parse_request("GET / HTTP/1.1\r\nHost\r\n\r\n".to_string()).is_none());
    // A request line without a version.
    assert!(try_parse_request("GET /\r\n\r\n".to_string()).is_none());
    // A version without a slash.
    assert!(try_parse_request("GET / HTTP\r\n\r\n".to_string()).is_none());
    // A length that is not a number.
    assert!(try_parse_request("GET / HTTP/1.1\r\nContent-Length: ten\r\n\r\n".to_string()).is_none());
    // A body shorter than declared.
    assert!(try_parse_request("POST / HTTP/1.1\r\nContent-Length: 10\r\n\r\nabc".to_string()).is_none());
    // An unknown method with a bad body is still only refused.
    assert!(matches!(
        try_parse_request("PATCH / HTTP/1.1\r\nContent-Length: 10\r\n\r\n".to_string()),
        Some(Err(RequestError::HTTPMethodError))
    ));
}

#[test]
fn other_versions_count_as_one_zero() {
    let req = match parse_request("GET / HTTP/2\r\n\r\n".to_string()) {
        Ok(r) => r,
        Err(_) => panic!("refused"),
    };
    assert_eq!(req.version, HTTPVersion::HTTP10);
}

#[test]
fn method_and_version_names() {
    assert_eq!(HTTPMethod::GET.to_string(), "GET");
    assert_eq!(HTTPMethod::POST.to_string(), "POST");
    assert_eq!(HTTPMethod::DELETE.to_string(), "DELETE");
    assert_eq!(HTTPMethod::PUT.to_string(), "PUT");
    assert_eq!(HTTPVersion::HTTP11.to_string(), "1.1");
    assert_eq!(HTTPVersion::HTTP10.to_string(), "1.0");
}

#[test]
fn request_description_quotes_headers_and_body() {
    let text = "POST /p HTTP/1.1\r\nContent-Length: 5\r\n\r\na\"b\\c";
    let req = match parse_request(text.to_string()) {
        Ok(r) => r,
        Err(_) => panic!("refused"),
    };
    let expected = "Request (\nmethod: POST,\npath: /p,\nversion: 1.1\nheaders: {\n    \"Content-Length\": \" 5\",\n}\nbody: Some(\n    \"a\\\"b\\\\c\",\n)\n)";
    assert_eq!(req.to_string(), expected);
    let req = match parse_request("GET / HTTP/1.0\r\n\r\n".to_string()) {
        Ok(r) => r,
        Err(_) => panic!("refused"),
    };
    assert_eq!(req.to_string(), "Request (\nmethod: GET,\npath: /,\nversion: 1.0\nheaders: {}\nbody: None\n)");
}

#[test]
fn description_layout_matches_pretty_debug() {
    let text = "POST /p HTTP/1.1\r\nContent-Length: 3\r\n\r\nx\ty";
    let req = match parse_request(text.to_string()) {
        Ok(r) => r,
        Err(_) => panic!("refused"),
    };
    let mut map = std::collections::HashMap::new();
    map.insert("Content-Length".to_string(), " 3".to_string());
    let expected = format!(
        "Request (\nmethod: POST,\npath: /p,\nversion: 1.1\nheaders: {:#?}\nbody: {:#?}\n)",
        map,
        Some("x\ty".to_string())
    );
    assert_eq!(req.to_string(), expected);
}

#[test]
fn written_request_line_parses_back() {
    for m in [HTTPMethod::GET, HTTPMethod::POST, HTTPMethod::DELETE, HTTPMethod::PUT] {
        for v in [HTTPVersion::HTTP11, HTTPVersion::HTTP10] {
            for p in ["/", "/a/b?c=d", ""] {
                let text = format!("{} {} HTTP/{}\r\n\r\n", m.to_string(), p, v.to_string());
                let req = match parse_request(text) {
                    Ok(r) => r,
                    Err(_) => panic!("refused"),
                };
                assert_eq!(req.method, m);
                assert_eq!(req.version, v);
                assert_eq!(req.path, p);
                assert_eq!(req.headers.len(), 0);
                assert!(req.body.is_none());
            }
        }
    }
}
