use vstd::prelude::*;
use crate::request::RequestError;

verus! {

/// What went wrong on an HTTP session.
#[derive(Debug)]
pub enum HttpError {
    /// The stream failed on read or write.
    StreamError(std::io::Error),
    /// The request head was rejected.
    ParseRequestError(RequestError),
    /// The application asked to read content of a request that declared no
    /// `Content-Length`.
    TryLoadContentWhenNoContentLen,
}

} // verus!
