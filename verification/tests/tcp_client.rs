use anweb::request::{ConnectionType, HttpVersion, RequestData};
use anweb::response::need_close_by_version_and_connection;

#[test]
fn tcp_client_test_version() {
    let mut request = RequestData::new();
    request.version = HttpVersion::Http1_0;
    request.connection_type = Some(ConnectionType::Close);
    assert_eq!(need_close_by_version_and_connection(&request), true);

    request.version = HttpVersion::Http1_0;
    request.connection_type = Some(ConnectionType::KeepAlive);
    assert_eq!(need_close_by_version_and_connection(&request), false);

    // by default in HTTP/1.0 connection close
    request.version = HttpVersion::Http1_0;
    request.connection_type = None;
    assert_eq!(need_close_by_version_and_connection(&request), true);

    request.version = HttpVersion::Http1_1;
    request.connection_type = Some(ConnectionType::Close);
    assert_eq!(need_close_by_version_and_connection(&request), true);

    request.version = HttpVersion::Http1_1;
    request.connection_type = Some(ConnectionType::KeepAlive);
    assert_eq!(need_close_by_version_and_connection(&request), false);

    // by default in HTTP/1.1 connection keep-alive
    request.version = HttpVersion::Http1_1;
    request.connection_type = None;
    assert_eq!(need_close_by_version_and_connection(&request), false);
}
