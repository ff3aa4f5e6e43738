pub mod display;
pub mod error;
pub mod frame;
pub mod geometry;
pub mod manager;
pub mod regions;
pub mod types;
pub mod window;

pub use display::{find_monitor, utf16z_to_string};
pub use error::ScreenshotError;
pub use geometry::{Point, Rect};
pub use manager::{ResolvedTarget, ScreenCaptureManager, WgcCapture};
pub use types::{
    CaptureArea, CaptureRequest, CaptureTarget, DisplayColorSpace, DpiAwarenessKind, FrameBuffer,
    FrameFormat, ScreenCaptureInfo, ScreenCaptureResult, ScreenCaptureType, ScreenId, ScreenInfo,
    WindowId, WindowInfo, WindowLayoutInfo,
};
pub use window::{get_all_window_layouts, resolve_window, WindowSnapshot};
