//! Verified core of a small HTTP/1.x and WebSocket server: the incremental
//! request parser, the body reader, the WebSocket frame parser and
//! serializer, the response builder, and the per-session write queue and
//! close policy. Socket I/O, TLS and the reactor loop live outside this
//! crate and drive these components with plain byte chunks.

pub mod bytes;
pub mod content_loader;
pub mod cookie;
pub mod decode;
pub mod http_result;
pub mod multipart;
pub mod query;
pub mod request;
pub mod request_parser;
pub mod response;
pub mod server;
pub mod session;
pub mod tls;
pub mod websocket;
pub mod websocket_session;

use vstd::prelude::*;

verus! {

/// Declares std's io::Error so that the library's error types can carry
/// one; the value is opaque here.
#[verifier::external_type_specification]
#[verifier::external_body]
pub struct ExIoError(std::io::Error);

} // verus!
