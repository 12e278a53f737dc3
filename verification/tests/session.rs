use anweb::session::{BodyReader, Session, SocketWrite};
use anweb::request::{ConnectionType, HttpVersion, RequestData};

#[test]
fn write_order_under_partial_writes() {
    let mut session = Session::new();
    session.send(b"HTTP/1.1 200 OK\r\n\r\nfirst".to_vec());
    session.send(b"HTTP/1.1 200 OK\r\n\r\nsecond".to_vec());
    session.send(b"third".to_vec());

    // Drain with deliberately uneven partial writes and record the wire.
    let mut wire: Vec<u8> = Vec::new();
    let mut step: usize = 1;
    while session.wants_write() {
        let chunk = session.next_chunk().to_vec();
        let n = step.min(chunk.len());
        wire.extend_from_slice(&chunk[..n]);
        session.on_write_result(SocketWrite::Wrote(n));
        step = step % 7 + 3;
    }
    assert_eq!(
        wire,
        b"HTTP/1.1 200 OK\r\n\r\nfirstHTTP/1.1 200 OK\r\n\r\nsecondthird"
    );
    assert!(!session.need_close());
}

#[test]
fn close_flags() {
    let mut session = Session::new();
    session.send(b"bye".to_vec());
    session.close_after_send();
    assert!(!session.need_close());
    session.on_write_result(SocketWrite::Wrote(3));
    // The queue drained with close-after-drain set.
    assert!(session.need_close());

    let mut session = Session::new();
    session.on_write_result(SocketWrite::Reset);
    assert!(session.need_close());

    let mut session = Session::new();
    session.send(b"x".to_vec());
    session.on_write_result(SocketWrite::WouldBlock);
    assert!(session.wants_write());
    assert!(!session.need_close());
}

#[test]
fn keep_alive_after_response() {
    let mut request = RequestData::new();
    request.version = HttpVersion::Http1_0;
    request.connection_type = None;
    let mut session = Session::new();
    session.send(b"r".to_vec());
    session.after_response(&request);
    session.on_write_result(SocketWrite::Wrote(1));
    assert!(session.need_close());

    request.version = HttpVersion::Http1_1;
    let mut session = Session::new();
    session.send(b"r".to_vec());
    session.after_response(&request);
    session.on_write_result(SocketWrite::Wrote(1));
    assert!(!session.need_close());
}

#[test]
fn body_chunks_total_declared_length() {
    let mut reader = BodyReader::new(70);
    let first = vec![1u8; 30];
    let (c1, s1, done1) = reader.feed(&first);
    assert_eq!(c1, first);
    assert!(s1.is_empty());
    assert!(!done1);

    // 45 more bytes: only 40 belong to the body, 5 are surplus.
    let second = vec![2u8; 45];
    let (c2, s2, done2) = reader.feed(&second);
    assert_eq!(c2, vec![2u8; 40]);
    assert_eq!(s2, vec![2u8; 5]);
    assert!(done2);
    assert_eq!(c1.len() + c2.len(), 70);
}

#[test]
fn zero_length_body_completes_at_once() {
    let mut reader = BodyReader::new(0);
    let (chunk, surplus, done) = reader.feed(b"");
    assert!(chunk.is_empty());
    assert!(surplus.is_empty());
    assert!(done);
}
