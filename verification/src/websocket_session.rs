use vstd::prelude::*;
use crate::websocket::ParseFrameError;

verus! {

/// What went wrong on a websocket session.
#[derive(Debug)]
pub enum WebsocketError {
    /// The frame was rejected.
    ParseFrameError(ParseFrameError),
    /// The stream failed on read or write.
    StreamError(std::io::Error),
}

} // verus!
