//! What decoding the front of a byte buffer can give.
use vstd::prelude::*;

verus! {

/// The outcome of decoding one message from the front of a buffer.
pub enum Frame<M> {
    /// More bytes are needed before the message can be told.
    Incomplete,
    /// The first `len` bytes encode exactly this message.
    Complete(M, nat),
    /// The buffer cannot start a message.
    Malformed,
}

/// How a decoder reports a frame: `Ok(None)` for incomplete, `Ok(Some((m, n)))`
/// for a message and the number of bytes it takes, `Err(())` for malformed.
pub open spec fn frame_outcome<M>(f: Frame<M>) -> Result<Option<(M, usize)>, ()> {
    match f {
        Frame::Incomplete => Ok(None),
        Frame::Complete(m, n) => Ok(Some((m, n as usize))),
        Frame::Malformed => Err(()),
    }
}

} // verus!
