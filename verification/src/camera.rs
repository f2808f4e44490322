//! Frames captured from the camera.
use vstd::prelude::*;

verus! {

/// A frame captured from the camera: its size in pixels and its RGB bytes, row by row.
#[derive(Clone)]
pub struct RawFrame {
    pub width: usize,
    pub height: usize,
    pub pixels: Vec<u8>,
}

} // verus!
