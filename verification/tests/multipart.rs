use anweb::multipart::{MultipartError, MultipartParser, MultipartParserEvent};
use anweb::request_parser::{ParseHttpRequestSettings, Parser};

fn form_request(content_type: &str) -> anweb::request::RequestData {
    let head = format!("POST /form HTTP/1.1\r\nContent-Type: {}\r\n\r\n", content_type);
    let settings = ParseHttpRequestSettings::default();
    let (request, _) = Parser::new().parse_yet(head.as_bytes(), &settings).unwrap();
    request
}

#[test]
fn multipart_events() {
    let request = form_request("multipart/form-data; boundary=XYZ");
    let mut parser = MultipartParser::new(&request).unwrap();
    let body = b"--XYZ\r\nContent-Disposition: form-data; name=\"field\"\r\n\r\ntext\r\n\
                 --XYZ\r\nContent-Disposition: form-data; name=\"field2\"\r\n\r\nother text\r\n--XYZ--";
    let events = parser.push(body);
    assert_eq!(events.len(), 5);
    match &events[0] {
        MultipartParserEvent::Disposition(d) => {
            assert_eq!(d.raw(), b"Content-Disposition: form-data; name=\"field\"");
        }
        _ => assert!(false),
    }
    match &events[1] {
        MultipartParserEvent::Data { data_part, end } => {
            assert_eq!(data_part, b"text\r\n");
            assert!(*end);
        }
        _ => assert!(false),
    }
    match &events[2] {
        MultipartParserEvent::Disposition(d) => {
            assert_eq!(d.raw(), b"Content-Disposition: form-data; name=\"field2\"");
        }
        _ => assert!(false),
    }
    match &events[3] {
        MultipartParserEvent::Data { data_part, end } => {
            assert_eq!(data_part, b"other text\r\n");
            assert!(*end);
        }
        _ => assert!(false),
    }
    assert!(matches!(events[4], MultipartParserEvent::Finished));

    // Cut between parts: data handed out before the boundary is seen comes
    // with `end: false`, the rest follows with the next part.
    let mut parser = MultipartParser::new(&request).unwrap();
    let first = parser.push(
        b"--XYZ\r\nContent-Disposition: form-data; name=\"field\"\r\n\r\ntext\r\n",
    );
    assert_eq!(first.len(), 2);
    assert!(matches!(&first[0], MultipartParserEvent::Disposition(_)));
    match &first[1] {
        MultipartParserEvent::Data { data_part, end } => {
            assert_eq!(data_part, b"text\r\n");
            assert!(!*end);
        }
        _ => assert!(false),
    }
    let second = parser.push(
        b"--XYZ\r\nContent-Disposition: form-data; name=\"field2\"\r\n\r\nother text\r\n--XYZ--",
    );
    assert_eq!(second.len(), 3);
    assert!(matches!(&second[0], MultipartParserEvent::Disposition(_)));
    match &second[1] {
        MultipartParserEvent::Data { data_part, end } => {
            assert_eq!(data_part, b"other text\r\n");
            assert!(*end);
        }
        _ => assert!(false),
    }
    assert!(matches!(second[2], MultipartParserEvent::Finished));
}

#[test]
fn multipart_errors() {
    let settings = ParseHttpRequestSettings::default();
    let (request, _) = Parser::new()
        .parse_yet(b"POST /form HTTP/1.1\r\n\r\n", &settings)
        .unwrap();
    assert_eq!(
        MultipartParser::new(&request).err(),
        Some(MultipartError::NoContentTypeHeader)
    );

    let request = form_request("multipart/form-data");
    assert_eq!(
        MultipartParser::new(&request).err(),
        Some(MultipartError::NoBoundaryInContentTypeHeader)
    );

    let request = form_request("multipart/form-data; boundary=");
    assert_eq!(
        MultipartParser::new(&request).err(),
        Some(MultipartError::EmptyBoundaryInHeader)
    );

    let long = "x".repeat(71);
    let request = form_request(&format!("multipart/form-data; boundary={}", long));
    assert_eq!(
        MultipartParser::new(&request).err(),
        Some(MultipartError::BoundaryLenLimit { len: 71 })
    );
}
