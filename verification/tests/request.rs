use anweb::request::{Header, HttpVersion, RequestError};
use anweb::request_parser::{ParseHttpRequestSettings, Parser};

fn settings() -> ParseHttpRequestSettings {
    ParseHttpRequestSettings {
        method_len_limit: 7,
        path_len_limit: 512,
        query_len_limit: 512,
        headers_count_limit: 5,
        header_name_len_limit: 64,
        header_value_len_limit: 512,
        pipelining_requests_limit: 12,
    }
}

#[test]
fn request_parse() {
    let parse_settings = settings();

    let mut parser = Parser::new();
    let request_str = "GET / HTTP/1.1\r\nConnection: keep-alive\r\n\r\n";
    if let Ok((_request, surplus)) = parser.parse_yet(request_str.as_bytes(), &parse_settings) {
        assert!(surplus.is_empty());
    } else {
        assert!(false);
    }

    let mut parser = Parser::new();
    let request_str = "GET / HTTP/1.1\r\nConnection: keep-alive\r\n\r\naaa";
    if let Ok((_request, surplus)) = parser.parse_yet(request_str.as_bytes(), &parse_settings) {
        assert_eq!(surplus.len(), 3);
    } else {
        assert!(false);
    }

    let mut parser = Parser::new();
    let request_str = "GET /index HTTP/1.1\r\n\r\n";
    if let Ok((request, _)) = parser.parse_yet(request_str.as_bytes(), &parse_settings) {
        assert_eq!(request.method(), "GET");
        assert_eq!(request.path(), "/index");
        assert_eq!(request.raw_query(), b"");
        assert_eq!(request.version, HttpVersion::Http1_1);
        assert!(request.headers.is_empty());
    } else {
        assert!(false);
    }

    let mut parser = Parser::new();
    let request_str = "POST /index?a=1&b=2;c=3 HTTP/1.0\r\nConnection: keep-alive\r\n\r\n";
    if let Ok((request, _)) = parser.parse_yet(request_str.as_bytes(), &parse_settings) {
        assert_eq!(request.method(), "POST");
        assert_eq!(request.path(), "/index");
        assert_eq!(request.raw_query(), b"a=1&b=2;c=3");
        assert_eq!(request.version, HttpVersion::Http1_0);
        assert!(!request.headers.is_empty());
    } else {
        assert!(false);
    }

    let mut parser = Parser::new();
    let request_str = "POST / HTTP/1.0\r\nConnection: keep-alive\r\nTest: some\r\n\r\n";
    if let Ok((request, _)) = parser.parse_yet(request_str.as_bytes(), &parse_settings) {
        assert_eq!(
            request.headers,
            vec![
                Header {
                    name: "Connection".to_string(),
                    value: "keep-alive".to_string()
                },
                Header { name: "Test".to_string(), value: "some".to_string() }
            ]
        );
    } else {
        assert!(false);
    }

    let mut parser = Parser::new();
    let request_str = "";
    if parser.parse_yet(request_str.as_bytes(), &parse_settings).is_ok() {
        assert!(false);
    }

    let mut parser = Parser::new();
    let request_str = "/index?a=1&b=2;c=3 HTTP/1.0\r\nConnection: keep-alive\r\n\r\n";
    if parser.parse_yet(request_str.as_bytes(), &parse_settings).is_ok() {
        assert!(false);
    }

    let request_str = "GET /ws /index?a=1&b=2;c=3 HTTP/1.0\r\nConnection: keep-alive\r\n\r\n";
    if Parser::new().parse_yet(request_str.as_bytes(), &parse_settings).is_ok() {
        assert!(false);
    }

    // unsupported protocol
    let request_str = "GET / HTTP/1.5\r\n\r\n";
    match Parser::new().parse_yet(request_str.as_bytes(), &parse_settings) {
        Ok(_) => {
            assert!(false);
        }
        Err(err) => {
            if let RequestError::UnsupportedProtocol = err {
            } else {
                assert!(false);
            }
        }
    }

    let request_str = "GET / HTTP/1.1 \r\nConnection: keep-alive\r\n";
    if Parser::new().parse_yet(request_str.as_bytes(), &parse_settings).is_ok() {
        assert!(false);
    }

    let request_str = "GET / HTTP/1.1\r\n: sd\r\n\r\n";
    if Parser::new().parse_yet(request_str.as_bytes(), &parse_settings).is_ok() {
        assert!(false);
    }

    let request_str = "GET / HTTP/1.1\r\n : sd\r\n\r\n";
    assert!(Parser::new().parse_yet(request_str.as_bytes(), &parse_settings).is_ok());

    let request_str = "GET / HTTP/1.1\r\nSD:\r\n\r\n";
    if Parser::new().parse_yet(request_str.as_bytes(), &parse_settings).is_ok() {
        assert!(false);
    }

    let request_str = "GET / HTTP/1.1\r\nSD: \r\n\r\n";
    if Parser::new().parse_yet(request_str.as_bytes(), &parse_settings).is_ok() {
        assert!(false);
    }
}

#[test]
fn limits() {
    let parse_settings = ParseHttpRequestSettings {
        method_len_limit: 5,
        path_len_limit: 512,
        query_len_limit: 512,
        headers_count_limit: 2,
        header_name_len_limit: 5,
        header_value_len_limit: 8,
        pipelining_requests_limit: 12,
    };

    // norm
    let request_str = "GET / HTTP/1.1\r\n1234: abc\r\n\r\n";
    if let Err(_) = Parser::new().parse_yet(request_str.as_bytes(), &parse_settings) {
        assert!(false);
    }

    let request_str = "GET / HTTP/1.1\r\n12345: abc\r\n\r\n";
    if let Err(_) = Parser::new().parse_yet(request_str.as_bytes(), &parse_settings) {
        assert!(false);
    }

    let request_str = "GET / HTTP/1.1\r\n123456: abc\r\n\r\n";
    if let Ok(_) = Parser::new().parse_yet(request_str.as_bytes(), &parse_settings) {
        assert!(false);
    }

    // headers count limit
    let request_str = "GET / HTTP/1.1\r\nabcd: as\r\n\r\n";
    if let Err(_) = Parser::new().parse_yet(request_str.as_bytes(), &parse_settings) {
        assert!(false);
    }

    let request_str = "GET / HTTP/1.1\r\nabcd: as\r\nAAA: 12\r\n\r\n";
    if let Err(_) = Parser::new().parse_yet(request_str.as_bytes(), &parse_settings) {
        assert!(false);
    }

    let request_str = "GET / HTTP/1.1\r\nabcd: as\r\nAAA: 12\r\nVBWER: ASD2\r\n\r\n";
    if let Ok(_) = Parser::new().parse_yet(request_str.as_bytes(), &parse_settings) {
        assert!(false);
    }

    // header value limit
    let request_str = "GET / HTTP/1.1\r\nabcd: as\r\n\r\n";
    if let Err(err) = Parser::new().parse_yet(request_str.as_bytes(), &parse_settings) {
        if let RequestError::HeaderValueLenLimit = err {
            assert!(false);
        }
    }

    let request_str = "GET / HTTP/1.1\r\nxyz: bcafghs\r\n\r\n";
    if let Err(_) = Parser::new().parse_yet(request_str.as_bytes(), &parse_settings) {
        assert!(false);
    }

    let request_str = "GET / HTTP/1.1\r\nxyz: bcaajsxs\r\n\r\n";
    if let Ok(_) = Parser::new().parse_yet(request_str.as_bytes(), &parse_settings) {
        assert!(false);
    }

    // empty header name
    let request_str = "GET / HTTP/1.1\r\n: abcasdf\r\n\r\n";
    if let Err(err) = Parser::new().parse_yet(request_str.as_bytes(), &parse_settings) {
        if let RequestError::EmptyHeaderName = err {
        } else {
            assert!(false);
        }
    } else {
        assert!(false);
    }
}

#[test]
fn name_limit_error_kind() {
    let mut parse_settings = settings();
    parse_settings.header_name_len_limit = 5;
    let request_str = "GET / HTTP/1.1\r\n123456: x\r\n\r\n";
    match Parser::new().parse_yet(request_str.as_bytes(), &parse_settings) {
        Err(RequestError::HeaderNameLenLimit) => {}
        _ => assert!(false),
    }

    let mut parse_settings = settings();
    parse_settings.headers_count_limit = 2;
    let request_str = "GET / HTTP/1.1\r\na: 1\r\nb: 2\r\nc: 3\r\n\r\n";
    match Parser::new().parse_yet(request_str.as_bytes(), &parse_settings) {
        Err(RequestError::HeadersCountLimit) => {}
        _ => assert!(false),
    }
}

#[test]
fn pipelined_requests() {
    let parse_settings = settings();
    let mut parser = Parser::new();
    let wire = b"GET /a HTTP/1.1\r\n\r\nGET /b HTTP/1.1\r\n\r\n";
    let (first, surplus) = parser.parse_yet(wire, &parse_settings).unwrap();
    assert_eq!(first.path(), "/a");
    assert_eq!(surplus, b"GET /b HTTP/1.1\r\n\r\n");
    let (second, surplus2) = parser.parse_yet(&surplus, &parse_settings).unwrap();
    assert_eq!(second.path(), "/b");
    assert!(surplus2.is_empty());
}

#[test]
fn chunked_input_equals_whole() {
    let parse_settings = settings();
    let mut split = Parser::new();
    assert!(split.parse_yet(b"GE", &parse_settings).is_err());
    assert!(split.parse_yet(b"T /x%20y HTTP/1.1\r\nA: b\r\n", &parse_settings).is_err());
    let (from_split, s1) = split.parse_yet(b"\r\nrest", &parse_settings).unwrap();

    let mut whole = Parser::new();
    let (from_whole, s2) = whole
        .parse_yet(b"GET /x%20y HTTP/1.1\r\nA: b\r\n\r\nrest", &parse_settings)
        .unwrap();

    assert_eq!(from_split.raw(), from_whole.raw());
    assert_eq!(from_split.path(), from_whole.path());
    assert_eq!(from_split.path(), "/x y");
    assert_eq!(from_split.headers, from_whole.headers);
    assert_eq!(s1, b"rest");
    assert_eq!(s2, b"rest");
}

#[test]
fn decoded_path() {
    let parse_settings = settings();
    let (req, _) = Parser::new()
        .parse_yet(b"GET /a%20b HTTP/1.1\r\n\r\n", &parse_settings)
        .unwrap();
    assert_eq!(req.path(), "/a b");
    assert_eq!(req.raw_path(), b"/a%20b");

    // invalid UTF-8 after decoding: the decoded path is empty, raw stays
    let (req, _) = Parser::new()
        .parse_yet(b"GET /%ff HTTP/1.1\r\n\r\n", &parse_settings)
        .unwrap();
    assert_eq!(req.path(), "");
    assert_eq!(req.raw_path(), b"/%ff");
}

#[test]
fn content_length_header() {
    let parse_settings = settings();
    let (req, _) = Parser::new()
        .parse_yet(b"POST / HTTP/1.1\r\nContent-Length: 70\r\n\r\n", &parse_settings)
        .unwrap();
    assert_eq!(req.content_len(), 70);
    assert!(req.has_post_form() == false);

    match Parser::new().parse_yet(b"POST / HTTP/1.1\r\nContent-Length: 7a\r\n\r\n", &parse_settings)
    {
        Err(RequestError::ContentLengthParseError) => {}
        _ => assert!(false),
    }

    match Parser::new().parse_yet(b"POST / HTTP/1.1\r\nContent-Length: x7\r\n\r\n", &parse_settings)
    {
        Err(RequestError::ContentLengthParseError) => {}
        _ => assert!(false),
    }
}
