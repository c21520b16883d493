use http_request::HttpParseError;
use http_request::HttpRequestMethod;
use http_request::http_request_method_from_string;
use http_request::parse_http_header;
use http_request::parse_http_request;
use http_request::parse_http_start_line;

#[test]
fn http_start_line_parses_successfully() {
    match parse_http_start_line("GET /api/index.html?a=1&b=2 HTTP/1.1".as_bytes()) {
        Ok((method, path)) => {
            assert_eq!(method, HttpRequestMethod::Get);
            assert_eq!(path, "/api/index.html?a=1&b=2".as_bytes().to_vec());
        }
        Err(_) => assert!(false),
    }
}

#[test]
fn http_header_parses_successfully() {
    // check whether a correct header parses correctly
    let header = parse_http_header("Content-Type: application/json".as_bytes());
    match header {
        Ok((name, value)) => {
            assert_eq!(name, "Content-Type".as_bytes().to_vec());
            assert_eq!(value, "application/json".as_bytes().to_vec());
        }
        Err(_) => assert!(false),
    }
    // make sure an invalid header is rejected
    let result = parse_http_header("asjkdsah12321-213 21".as_bytes());
    assert!(result.is_err());
}

#[test]
fn http_request_parses_successfully() {
    let raw_request = "DELETE /users/actor HTTP/1.1\nContent-Type: application/json\nContent-Length: 15\n\n{\"proceed\": true}";
    match parse_http_request(raw_request.as_bytes()) {
        Ok(request) => {
            assert_eq!(request.method, HttpRequestMethod::Delete);
            assert_eq!(request.path, "/users/actor".as_bytes().to_vec());
            assert_eq!(request.headers.len(), 2);
            assert_eq!(
                request.headers.get("Content-Type".as_bytes()),
                Some(&"application/json".as_bytes().to_vec())
            );
            assert_eq!(
                request.headers.get("Content-Length".as_bytes()),
                Some(&"15".as_bytes().to_vec())
            );
            assert_eq!(request.body, "{\"proceed\": true}".as_bytes().to_vec());
        }
        Err(_) => assert!(false),
    }
}

#[test]
fn method_lookup_is_case_insensitive() {
    assert_eq!(
        http_request_method_from_string("delete".as_bytes()),
        Some(HttpRequestMethod::Delete)
    );
    assert_eq!(
        http_request_method_from_string("pAtCh".as_bytes()),
        Some(HttpRequestMethod::Patch)
    );
    assert_eq!(
        http_request_method_from_string("OPTIONS".as_bytes()),
        Some(HttpRequestMethod::Options)
    );
    assert_eq!(http_request_method_from_string("FROB".as_bytes()), None);
    assert_eq!(http_request_method_from_string("".as_bytes()), None);
}

#[test]
fn start_line_keeps_literal_target() {
    match parse_http_start_line("post /users/7?q=1 HTTP/1.1".as_bytes()) {
        Ok((method, path)) => {
            assert_eq!(method, HttpRequestMethod::Post);
            assert_eq!(path, "/users/7?q=1".as_bytes().to_vec());
        }
        Err(_) => assert!(false),
    }
}

#[test]
fn start_line_without_target_defaults_to_root() {
    match parse_http_start_line("HEAD".as_bytes()) {
        Ok((method, path)) => {
            assert_eq!(method, HttpRequestMethod::Head);
            assert_eq!(path, "/".as_bytes().to_vec());
        }
        Err(_) => assert!(false),
    }
}

#[test]
fn start_line_with_only_trailing_spaces_defaults_to_root() {
    match parse_http_start_line("GET ".as_bytes()) {
        Ok((method, path)) => {
            assert_eq!(method, HttpRequestMethod::Get);
            assert_eq!(path, "/".as_bytes().to_vec());
        }
        Err(_) => assert!(false),
    }
    match parse_http_start_line("put   ".as_bytes()) {
        Ok((method, path)) => {
            assert_eq!(method, HttpRequestMethod::Put);
            assert_eq!(path, "/".as_bytes().to_vec());
        }
        Err(_) => assert!(false),
    }
}

#[test]
fn start_line_skips_the_whole_run_of_spaces() {
    match parse_http_start_line("GET  /x HTTP/1.1".as_bytes()) {
        Ok((method, path)) => {
            assert_eq!(method, HttpRequestMethod::Get);
            assert_eq!(path, "/x".as_bytes().to_vec());
        }
        Err(_) => assert!(false),
    }
}

#[test]
fn start_line_without_space_is_malformed() {
    assert_eq!(
        parse_http_start_line("asjkdsah12321-213".as_bytes()),
        Err(HttpParseError::MalformedStartLine)
    );
    assert_eq!(
        parse_http_start_line("".as_bytes()),
        Err(HttpParseError::MalformedStartLine)
    );
}

#[test]
fn start_line_with_unknown_method_is_malformed() {
    assert_eq!(
        parse_http_start_line("FROB /x HTTP/1.1".as_bytes()),
        Err(HttpParseError::MalformedStartLine)
    );
}

#[test]
fn header_round_trip_reproduces_line() {
    let line = "X-Key: v1: v2";
    match parse_http_header(line.as_bytes()) {
        Ok((name, value)) => {
            assert_eq!(name, "X-Key".as_bytes().to_vec());
            assert_eq!(value, "v1: v2".as_bytes().to_vec());
            let mut rebuilt = name.clone();
            rebuilt.extend_from_slice(": ".as_bytes());
            rebuilt.extend_from_slice(&value);
            assert_eq!(rebuilt, line.as_bytes().to_vec());
        }
        Err(_) => assert!(false),
    }
}

#[test]
fn header_without_separator_is_malformed() {
    assert_eq!(
        parse_http_header("NoSeparator".as_bytes()),
        Err(HttpParseError::MalformedHeader)
    );
    // a colon alone is not the separator: a space must follow
    assert_eq!(
        parse_http_header("Name:Value".as_bytes()),
        Err(HttpParseError::MalformedHeader)
    );
}

#[test]
fn request_without_content_length_has_empty_body() {
    match parse_http_request("GET / HTTP/1.1\n\n".as_bytes()) {
        Ok(request) => {
            assert_eq!(request.method, HttpRequestMethod::Get);
            assert_eq!(request.headers.len(), 0);
            assert_eq!(request.body.len(), 0);
        }
        Err(_) => assert!(false),
    }
}

#[test]
fn request_with_empty_input_is_missing_start_line() {
    assert!(matches!(
        parse_http_request("".as_bytes()),
        Err(HttpParseError::MissingStartLine)
    ));
}

#[test]
fn request_without_blank_line_is_unterminated() {
    assert!(matches!(
        parse_http_request("GET / HTTP/1.1\nHost: example\n".as_bytes()),
        Err(HttpParseError::MissingHeaderTerminator)
    ));
    assert!(matches!(
        parse_http_request("GET / HTTP/1.1".as_bytes()),
        Err(HttpParseError::MissingHeaderTerminator)
    ));
}

#[test]
fn request_with_malformed_header_is_rejected_whole() {
    assert!(matches!(
        parse_http_request("GET / HTTP/1.1\nGood: yes\nbadheader\n\n".as_bytes()),
        Err(HttpParseError::MalformedHeader)
    ));
}

#[test]
fn request_with_short_body_is_truncated() {
    assert!(matches!(
        parse_http_request("POST /send HTTP/1.1\nContent-Length: 50\n\nshort".as_bytes()),
        Err(HttpParseError::TruncatedBody)
    ));
}

#[test]
fn request_with_unparsable_length_defaults_to_zero() {
    match parse_http_request("GET / HTTP/1.1\nContent-Length: abc\n\n".as_bytes()) {
        Ok(request) => assert_eq!(request.body.len(), 0),
        Err(_) => assert!(false),
    }
    let huge = "GET / HTTP/1.1\nContent-Length: 99999999999999999999999999\n\n";
    match parse_http_request(huge.as_bytes()) {
        Ok(request) => assert_eq!(request.body.len(), 0),
        Err(_) => assert!(false),
    }
}

#[test]
fn duplicate_header_keeps_last_value() {
    match parse_http_request("GET / HTTP/1.1\nA: 1\nA: 2\nB: 3\n\n".as_bytes()) {
        Ok(request) => {
            assert_eq!(request.headers.len(), 2);
            assert_eq!(request.headers.get("A".as_bytes()), Some(&"2".as_bytes().to_vec()));
            assert_eq!(request.headers.get("B".as_bytes()), Some(&"3".as_bytes().to_vec()));
        }
        Err(_) => assert!(false),
    }
}

#[test]
fn request_with_crlf_line_endings_parses() {
    match parse_http_request("PUT /item HTTP/1.1\r\nHost: h\r\n\r\n".as_bytes()) {
        Ok(request) => {
            assert_eq!(request.method, HttpRequestMethod::Put);
            assert_eq!(request.path, "/item".as_bytes().to_vec());
            assert_eq!(request.headers.get("Host".as_bytes()), Some(&"h".as_bytes().to_vec()));
        }
        Err(_) => assert!(false),
    }
}

#[test]
fn parsing_twice_yields_equal_requests() {
    let raw = "POST /a HTTP/1.1\nContent-Length: 2\nX: y\n\nhi";
    let first = parse_http_request(raw.as_bytes());
    let second = parse_http_request(raw.as_bytes());
    match (first, second) {
        (Ok(a), Ok(b)) => {
            assert_eq!(a.method, b.method);
            assert_eq!(a.path, b.path);
            assert_eq!(a.headers.len(), b.headers.len());
            assert_eq!(
                a.headers.get("Content-Length".as_bytes()),
                b.headers.get("Content-Length".as_bytes())
            );
            assert_eq!(a.headers.get("X".as_bytes()), b.headers.get("X".as_bytes()));
            assert_eq!(a.body, b.body);
        }
        _ => assert!(false),
    }
}
