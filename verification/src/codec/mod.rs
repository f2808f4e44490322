//! Video frames as the decoder gives them, and what the decoding thread reports.
pub mod h264;

use crate::codec::h264::DecodedFrame;
use vstd::prelude::*;

verus! {

/// What the decoding thread sends to the receiver: a decoded frame with the frame rate
/// measured so far and the size of the access unit it came from, or a decoding error.
pub enum DecodeThreadMsg {
    Frame { frame: DecodedFrame, fps: Option<u32>, au_len: usize },
    Error { description: String, au_len: usize },
}

} // verus!
