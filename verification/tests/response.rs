use anweb::request::{ConnectionType, HttpVersion, RequestData};
use anweb::response::{http_status_code_with_name, need_close_by_request, Response};

#[test]
fn close_by_request() {
    let mut request = RequestData::new();
    request.version = HttpVersion::Http1_0;
    request.connection_type = Some(ConnectionType::Close);
    assert_eq!(need_close_by_request(&request), true);

    request.version = HttpVersion::Http1_0;
    request.connection_type = Some(ConnectionType::KeepAlive);
    assert_eq!(need_close_by_request(&request), false);

    // by default in HTTP/1.0 connection close
    request.version = HttpVersion::Http1_0;
    request.connection_type = None;
    assert_eq!(need_close_by_request(&request), true);

    request.version = HttpVersion::Http1_1;
    request.connection_type = Some(ConnectionType::Close);
    assert_eq!(need_close_by_request(&request), true);

    request.version = HttpVersion::Http1_1;
    request.connection_type = Some(ConnectionType::KeepAlive);
    assert_eq!(need_close_by_request(&request), false);

    // by default in HTTP/1.1 connection keep-alive
    request.version = HttpVersion::Http1_1;
    request.connection_type = None;
    assert_eq!(need_close_by_request(&request), false);
}

#[test]
fn http_code_name_test() {
    let table: Vec<(u16, &str)> = vec![
        (100, "100 Continue"),
        (101, "101 Switching Protocols"),
        (102, "102 Processing"),
        (103, "103 Early Hints"),
        (200, "200 OK"),
        (201, "201 Created"),
        (202, "202 Accepted"),
        (203, "203 Non-Authoritative Information"),
        (204, "204 No Content"),
        (205, "205 Reset Content"),
        (206, "206 Partial Content"),
        (207, "207 Multi-Status"),
        (208, "208 Already Reported"),
        (226, "226 IM Used"),
        (300, "300 Multiple Choices"),
        (301, "301 Moved Permanently"),
        (302, "302 Found"),
        (303, "303 See Other"),
        (304, "304 Not Modified"),
        (305, "305 Use Proxy"),
        (306, "306 Switch Proxy"),
        (307, "307 Temporary Redirect"),
        (308, "308 Permanent Redirect"),
        (400, "400 Bad Request"),
        (401, "401 Unauthorized"),
        (402, "402 Payment Required"),
        (403, "403 Forbidden"),
        (404, "404 Not Found"),
        (405, "405 Method Not Allowed"),
        (406, "406 Not Acceptable"),
        (407, "407 Proxy Authentication Required"),
        (408, "408 Request Timeout"),
        (409, "409 Conflict"),
        (410, "410 Gone"),
        (411, "411 Length Required"),
        (412, "412 Precondition Failed"),
        (413, "413 Payload Too Large"),
        (414, "414 URI Too Long"),
        (415, "415 Unsupported Media Type"),
        (416, "416 Range Not Satisfiable"),
        (417, "417 Expectation Failed"),
        (418, "418 I'm a teapot"),
        (421, "421 Misdirected Request"),
        (422, "422 Unprocessable Entity"),
        (423, "423 Locked"),
        (424, "424 Failed Dependency"),
        (425, "425 Too Early"),
        (426, "426 Upgrade Required"),
        (428, "428 Precondition Required"),
        (429, "429 Too Many Requests"),
        (431, "431 Request Header Fields Too Large"),
        (451, "451 Unavailable For Legal Reasons"),
        (500, "500 Internal Server Error"),
        (501, "501 Not Implemented"),
        (502, "502 Bad Gateway"),
        (503, "503 Service Unavailable"),
        (504, "504 Gateway Timeout"),
        (505, "505 HTTP Version Not Supported"),
        (506, "506 Variant Also Negotiates"),
        (507, "507 Insufficient Storage"),
        (508, "508 Loop Detected"),
        (510, "510 Not Extended"),
        (511, "511 Network Authentication Required"),
    ];
    for t in &table {
        assert_eq!(http_status_code_with_name(t.0), t.1);
    }
    assert_eq!(http_status_code_with_name(299), "");
}

#[test]
fn hello_world_response_bytes() {
    let mut parser = anweb::request_parser::Parser::new();
    let settings = anweb::request_parser::ParseHttpRequestSettings::default();
    let (request, _) = parser.parse_yet(b"GET / HTTP/1.1\r\n\r\n", &settings).unwrap();
    assert_eq!(request.method(), "GET");
    assert_eq!(request.path(), "/");
    assert_eq!(request.version, HttpVersion::Http1_1);

    // Default keep-alive for HTTP/1.1 without a Connection header.
    let response = Response::new(200, request).text("Hello world!");
    assert!(!response.need_close());
    let bytes = response.build("Thu, 01 Jan 1970 00:00:00 GMT");
    assert_eq!(
        String::from_utf8(bytes).unwrap(),
        "HTTP/1.1 200 OK\r\n\
         Date: Thu, 01 Jan 1970 00:00:00 GMT\r\n\
         Connection: keep_alive\r\n\
         Content-Length: 12\r\n\
         Content-Type: text/plain; charset=utf-8\r\n\
         \r\n\
         Hello world!"
    );

    let mut parser = anweb::request_parser::Parser::new();
    let (request, _) = parser.parse_yet(b"GET / HTTP/1.1\r\n\r\n", &settings).unwrap();
    let response = Response::new(200, request).close().text("Hello world!");
    assert!(response.need_close());
    let bytes = response.build("D");
    assert_eq!(
        String::from_utf8(bytes).unwrap(),
        "HTTP/1.1 200 OK\r\nDate: D\r\nConnection: close\r\nContent-Length: 12\r\n\
         Content-Type: text/plain; charset=utf-8\r\n\r\nHello world!"
    );
}

#[test]
fn response_empty_content_length() {
    let mut request = RequestData::new();
    request.version = HttpVersion::Http1_0;
    let bytes = Response::new(200, request).build("D");
    // HTTP/1.0 without a Connection header: no Connection line, zero length.
    assert_eq!(
        String::from_utf8(bytes).unwrap(),
        "HTTP/1.0 200 OK\r\nDate: D\r\nContent-Length: 0\r\n\r\n"
    );
}
