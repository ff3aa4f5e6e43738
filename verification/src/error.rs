use vstd::prelude::*;

verus! {

/// Everything that can go wrong while enumerating or capturing screens and windows.
///
/// Failures of the operating system are carried by their `HRESULT` code, and failures of the
/// image encoder by their message, so that the error stays a plain value.
#[derive(Debug)]
pub enum ScreenshotError {
    Windows(i32),
    Image(String),
    UnsupportedCaptureMethod(String),
    MonitorNotFound,
    WindowNotFound(String),
    FrameTimeout,
    InvalidCaptureRegion,
    InvalidSize,
    DisplayConfig(u32),
    InvalidImageBuffer,
}

} // verus!
