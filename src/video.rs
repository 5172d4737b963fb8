use vstd::prelude::*;

verus! {

/// A captured video frame.
pub struct VideoFrame {
    pub width: u32,
    pub height: u32,
    pub data: Vec<u8>,
}

/// Why camera capture could not start.
#[derive(Debug, Clone, Copy, PartialEq, Eq, Structural)]
pub enum VideoError {
    /// No camera could be opened.
    Unavailable,
}

/// Starts camera capture. Video is not produced yet: this accepts the request
/// and does nothing.
pub fn start_camera_capture() -> (r: Result<(), VideoError>)
    ensures
        r is Ok,
{
    Ok(())
}

/// Stops camera capture; nothing is running, so nothing happens.
pub fn stop_camera_capture() {
}

} // verus!
