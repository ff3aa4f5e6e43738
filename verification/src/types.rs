use vstd::prelude::*;

use crate::error::ScreenshotError;
use crate::geometry::Rect;
use crate::regions::rect_area;

verus! {

#[derive(Debug, Clone, Copy, PartialEq, Eq, Structural)]
pub enum ScreenCaptureType {
    Screen,
    Window,
}

/// Identifies a monitor; its value is the monitor handle.
#[derive(Debug, Clone, Copy, PartialEq, Eq, Hash, Structural)]
pub struct ScreenId(pub u64);

/// Identifies a top-level window; its value is the window handle.
#[derive(Debug, Clone, Copy, PartialEq, Eq, Hash, Structural)]
pub struct WindowId(pub u64);

#[derive(Debug, Clone, Copy, PartialEq, Eq, Structural)]
pub enum DisplayColorSpace {
    Srgb,
    Bt2020,
    Unknown(i32),
}

#[derive(Debug, Clone, Copy, PartialEq, Eq, Structural)]
pub enum DpiAwarenessKind {
    Invalid,
    Unaware,
    SystemAware,
    PerMonitorAware,
    Unknown(i32),
}

#[derive(Debug, Clone, Copy, PartialEq, Eq, Structural)]
pub enum FrameFormat {
    Bgra8,
}

#[derive(Debug, Clone, Copy, PartialEq, Eq, Structural)]
pub enum CaptureTarget {
    PrimaryScreen,
    Screen(ScreenId),
    Window(WindowId),
}

#[derive(Debug, Clone, Copy, PartialEq, Eq, Structural)]
pub enum CaptureArea {
    Full,
    Physical(Rect),
    Logical(Rect),
}

#[derive(Debug, Clone, Copy, PartialEq, Eq, Structural)]
pub struct CaptureRequest {
    pub target: CaptureTarget,
    pub area: CaptureArea,
}

/// A monitor as the capture logic sees it.
///
/// The scale factor, the SDR white level and the chromaticities of the primaries are
/// fractional quantities; they are carried here as the IEEE-754 bit patterns of their
/// single-precision values, untouched by the logic of this crate.
#[derive(Debug)]
pub struct ScreenInfo {
    pub id: ScreenId,
    pub x: i32,
    pub y: i32,
    pub width: i32,
    pub height: i32,
    pub is_primary: bool,
    pub scale_factor_bits: u32,
    pub sdr_white_level_scale_bits: u32,
    pub device_name: String,
    pub is_hdr: bool,
    pub color_space: DisplayColorSpace,
    pub red_primary_bits: [u32; 2],
    pub green_primary_bits: [u32; 2],
    pub blue_primary_bits: [u32; 2],
    pub white_point_bits: [u32; 2],
    /// The monitor handle; zero when unknown.
    pub hmonitor: u64,
}

impl Clone for ScreenInfo {
    fn clone(&self) -> (r: Self)
        ensures
            r == *self,
    {
        ScreenInfo {
            id: self.id,
            x: self.x,
            y: self.y,
            width: self.width,
            height: self.height,
            is_primary: self.is_primary,
            scale_factor_bits: self.scale_factor_bits,
            sdr_white_level_scale_bits: self.sdr_white_level_scale_bits,
            device_name: self.device_name.clone(),
            is_hdr: self.is_hdr,
            color_space: self.color_space,
            red_primary_bits: self.red_primary_bits,
            green_primary_bits: self.green_primary_bits,
            blue_primary_bits: self.blue_primary_bits,
            white_point_bits: self.white_point_bits,
            hmonitor: self.hmonitor,
        }
    }
}

impl ScreenInfo {
    /// The monitor's rectangle in desktop coordinates.
    pub fn rect(&self) -> (r: Rect)
        requires
            i32::MIN <= self.x + self.width <= i32::MAX,
            i32::MIN <= self.y + self.height <= i32::MAX,
        ensures
            r == (Rect {
                left: self.x,
                top: self.y,
                right: (self.x + self.width) as i32,
                bottom: (self.y + self.height) as i32,
            }),
    {
        Rect::from_xywh(self.x, self.y, self.width, self.height)
    }

    /// Size in physical pixels; a negative extent counts as zero.
    pub fn physical_size(&self) -> (r: (u32, u32))
        ensures
            r.0 == (if self.width > 0 { self.width as int } else { 0 }),
            r.1 == (if self.height > 0 { self.height as int } else { 0 }),
    {
        let w: u32 = if self.width > 0 { self.width as u32 } else { 0 };
        let h: u32 = if self.height > 0 { self.height as u32 } else { 0 };
        (w, h)
    }
}

/// A top-level window as the capture logic sees it.
#[derive(Debug)]
pub struct WindowInfo {
    pub id: WindowId,
    pub title: String,
    pub module_file_name: String,
    pub rect: Rect,
    pub z_index: i32,
    pub screen_id: Option<ScreenId>,
    /// The window handle.
    pub hwnd: u64,
}

impl Clone for WindowInfo {
    fn clone(&self) -> (r: Self)
        ensures
            r == *self,
    {
        WindowInfo {
            id: self.id,
            title: self.title.clone(),
            module_file_name: self.module_file_name.clone(),
            rect: self.rect,
            z_index: self.z_index,
            screen_id: self.screen_id,
            hwnd: self.hwnd,
        }
    }
}

/// What to capture: a screen, or a window on a screen, and the area of it (relative to
/// the captured surface) that is kept.
#[derive(Debug)]
pub struct ScreenCaptureInfo {
    pub x: i32,
    pub y: i32,
    pub width: i32,
    pub height: i32,
    pub screen_info: ScreenInfo,
    pub screen_capture_type: ScreenCaptureType,
    pub window_info: Option<WindowInfo>,
}

impl Clone for ScreenCaptureInfo {
    fn clone(&self) -> (r: Self)
        ensures
            r == *self,
    {
        ScreenCaptureInfo {
            x: self.x,
            y: self.y,
            width: self.width,
            height: self.height,
            screen_info: self.screen_info.clone(),
            screen_capture_type: self.screen_capture_type,
            window_info: match &self.window_info {
                Some(w) => Some(w.clone()),
                None => None,
            },
        }
    }
}

impl ScreenCaptureInfo {
    /// The whole of a screen.
    pub fn for_screen(screen_info: ScreenInfo) -> (r: Self)
        ensures
            r.x == 0 && r.y == 0,
            r.width == screen_info.width && r.height == screen_info.height,
            r.screen_info == screen_info,
            r.screen_capture_type == ScreenCaptureType::Screen,
            r.window_info is None,
    {
        let width = screen_info.width;
        let height = screen_info.height;
        Self {
            x: 0,
            y: 0,
            width,
            height,
            screen_info,
            screen_capture_type: ScreenCaptureType::Screen,
            window_info: None,
        }
    }

    /// An area of a screen.
    pub fn for_screen_area(screen_info: ScreenInfo, area: Rect) -> (r: Self)
        requires
            i32::MIN <= area.spec_width() <= i32::MAX,
            i32::MIN <= area.spec_height() <= i32::MAX,
        ensures
            r.x == area.left && r.y == area.top,
            r.width == area.spec_width() && r.height == area.spec_height(),
            r.screen_info == screen_info,
            r.screen_capture_type == ScreenCaptureType::Screen,
            r.window_info is None,
    {
        Self {
            x: area.left,
            y: area.top,
            width: area.width(),
            height: area.height(),
            screen_info,
            screen_capture_type: ScreenCaptureType::Screen,
            window_info: None,
        }
    }

    /// The whole of a window.
    pub fn for_window(window_info: WindowInfo, screen_info: ScreenInfo) -> (r: Self)
        requires
            i32::MIN <= window_info.rect.spec_width() <= i32::MAX,
            i32::MIN <= window_info.rect.spec_height() <= i32::MAX,
        ensures
            r.x == 0 && r.y == 0,
            r.width == window_info.rect.spec_width(),
            r.height == window_info.rect.spec_height(),
            r.screen_info == screen_info,
            r.screen_capture_type == ScreenCaptureType::Window,
            r.window_info == Some(window_info),
    {
        let width = window_info.rect.width();
        let height = window_info.rect.height();
        Self {
            x: 0,
            y: 0,
            width,
            height,
            screen_info,
            screen_capture_type: ScreenCaptureType::Window,
            window_info: Some(window_info),
        }
    }

    /// An area of a window, relative to the window's top-left corner.
    pub fn for_window_area(window_info: WindowInfo, screen_info: ScreenInfo, area: Rect) -> (r:
        Self)
        requires
            i32::MIN <= area.spec_width() <= i32::MAX,
            i32::MIN <= area.spec_height() <= i32::MAX,
        ensures
            r.x == area.left && r.y == area.top,
            r.width == area.spec_width() && r.height == area.spec_height(),
            r.screen_info == screen_info,
            r.screen_capture_type == ScreenCaptureType::Window,
            r.window_info == Some(window_info),
    {
        Self {
            x: area.left,
            y: area.top,
            width: area.width(),
            height: area.height(),
            screen_info,
            screen_capture_type: ScreenCaptureType::Window,
            window_info: Some(window_info),
        }
    }
}

/// A captured image: `height` rows of `width` pixels, four bytes per pixel.
#[derive(Debug, Clone)]
pub struct FrameBuffer {
    pub width: u32,
    pub height: u32,
    pub stride: u32,
    pub format: FrameFormat,
    pub data: Vec<u8>,
}

/// Byte `c` of pixel `p` in a buffer of four-byte pixels.
pub open spec fn channel(s: Seq<u8>, p: int, c: int) -> u8 {
    s[4 * p + c]
}

/// Which source channel lands in channel `c` when blue and red trade places.
pub open spec fn swap_red_blue(c: int) -> int {
    if c == 0 {
        2
    } else if c == 2 {
        0
    } else {
        c
    }
}

/// `out` holds the complete four-byte pixels of `src` with the first and third byte of each
/// pixel exchanged.
pub open spec fn red_blue_swapped(src: Seq<u8>, out: Seq<u8>) -> bool {
    &&& out.len() == 4 * (src.len() / 4)
    &&& forall|p: int, c: int|
        0 <= p < src.len() / 4 && 0 <= c < 4 ==> #[trigger] channel(out, p, c) == channel(
            src,
            p,
            swap_red_blue(c),
        )
}

/// The image crate accepts a buffer of `len` bytes for a `width` x `height` RGBA image.
pub open spec fn image_buffer_fits(width: u32, height: u32, len: nat) -> bool {
    &&& 4 * width <= usize::MAX
    &&& 4 * width * height <= usize::MAX
    &&& 4 * width * height <= len
}

/// Calls `image::ImageBuffer::<Rgba<u8>, Vec<u8>>::from_raw` and hands back the buffer of the
/// image it built (`into_raw`). The crate's source accepts the buffer exactly when
/// `4 * width * height`, computed with checked `usize` multiplication, fits and is at most the
/// buffer's length, and keeps the buffer as it is.
#[verifier::external_body]
fn rgba_image_from_raw(width: u32, height: u32, rgba: Vec<u8>) -> (r: Option<Vec<u8>>)
    ensures
        r is Some <==> image_buffer_fits(width, height, rgba@.len()),
        r matches Some(v) ==> v@ == rgba@,
{
    image::ImageBuffer::<image::Rgba<u8>, Vec<u8>>::from_raw(width, height, rgba).map(
        image::ImageBuffer::into_raw,
    )
}

impl FrameBuffer {
    /// The pixels with blue and red exchanged: BGRA becomes RGBA. A trailing partial pixel
    /// is dropped.
    pub fn to_rgba(&self) -> (r: Vec<u8>)
        ensures
            red_blue_swapped(self.data@, r@),
    {
        match self.format {
            FrameFormat::Bgra8 => {
                let n = self.data.len() / 4;
                let mut rgba: Vec<u8> = Vec::new();
                let mut p: usize = 0;
                while p < n
                    invariant
                        n == self.data@.len() / 4,
                        0 <= p <= n,
                        rgba@.len() == 4 * p,
                        forall|q: int, c: int|
                            0 <= q < p && 0 <= c < 4 ==> #[trigger] channel(rgba@, q, c)
                                == channel(self.data@, q, swap_red_blue(c)),
                    decreases n - p,
                {
                    assert(4 * p + 4 <= self.data@.len());
                    assert(self.data@.len() == self.data.len());
                    let base = 4 * p;
                    let ghost before = rgba@;
                    rgba.push(self.data[base + 2]);
                    rgba.push(self.data[base + 1]);
                    rgba.push(self.data[base]);
                    rgba.push(self.data[base + 3]);
                    proof {
                        assert forall|q: int, c: int|
                            0 <= q < p + 1 && 0 <= c < 4 implies #[trigger] channel(rgba@, q, c)
                                == channel(self.data@, q, swap_red_blue(c)) by {
                            if q < p {
                                assert(channel(before, q, c) == channel(
                                    self.data@,
                                    q,
                                    swap_red_blue(c),
                                ));
                                assert(rgba@[4 * q + c] == before[4 * q + c]);
                            }
                        }
                    }
                    p = p + 1;
                }
                rgba
            },
        }
    }

    /// The RGBA bytes to be written out as an image, after the image crate has accepted them
    /// for this frame's width and height.
    pub fn image_data(&self) -> (r: Result<Vec<u8>, ScreenshotError>)
        ensures
            image_buffer_fits(self.width, self.height, 4 * (self.data@.len() / 4)) <==> r is Ok,
            r matches Ok(v) ==> red_blue_swapped(self.data@, v@),
            r matches Err(e) ==> e is InvalidImageBuffer,
    {
        let rgba = self.to_rgba();
        match rgba_image_from_raw(self.width, self.height, rgba) {
            Some(v) => Ok(v),
            None => Err(ScreenshotError::InvalidImageBuffer),
        }
    }
}

#[derive(Debug, Clone)]
pub struct ScreenCaptureResult {
    pub info: ScreenCaptureInfo,
    pub source: FrameBuffer,
}

/// Where a window stands among the windows above it.
#[derive(Debug, Clone)]
pub struct WindowLayoutInfo {
    pub window: WindowInfo,
    pub window_rect: Rect,
    pub clipped_rect: Rect,
    pub visible_regions: Vec<Rect>,
    pub visible_bounds: Option<Rect>,
    pub total_area: u64,
    pub visible_area: u64,
    pub occluded_area: u64,
    pub is_occluded: bool,
    pub is_fully_occluded: bool,
    pub occluded_by: Vec<WindowId>,
}

/// `k` is the last index of `s` whose rectangle has the largest area.
pub open spec fn is_last_largest(s: Seq<Rect>, k: int) -> bool {
    &&& 0 <= k < s.len()
    &&& forall|j: int| 0 <= j < s.len() ==> (#[trigger] s[j]).area() <= s[k].area()
    &&& forall|j: int| k < j < s.len() ==> (#[trigger] s[j]).area() < s[k].area()
}

impl WindowLayoutInfo {
    /// The visible region of largest area; of several such regions, the last.
    pub fn largest_visible_region(&self) -> (r: Option<Rect>)
        ensures
            r is None <==> self.visible_regions@.len() == 0,
            r matches Some(b) ==> exists|k: int|
                is_last_largest(self.visible_regions@, k) && self.visible_regions@[k] == b,
            r matches Some(b) ==> exists|k: int|
                #![trigger self.visible_regions@[k]]
                0 <= k < self.visible_regions@.len() && self.visible_regions@[k] == b && (forall|
                    j: int,
                |
                    0 <= j < self.visible_regions@.len() ==> (#[trigger] self.visible_regions@[j]).area()
                        <= b.area()) && (forall|j: int|
                    k < j < self.visible_regions@.len() ==> (
                    #[trigger] self.visible_regions@[j]).area() < b.area()),
    {
        let regions = &self.visible_regions;
        if regions.len() == 0 {
            return None;
        }
        let mut best: usize = 0;
        let mut best_area = rect_area(regions[0]);
        let mut i: usize = 1;
        while i < regions.len()
            invariant
                1 <= i <= regions@.len(),
                0 <= best < i,
                best_area == regions@[best as int].area(),
                forall|j: int| 0 <= j < i ==> (#[trigger] regions@[j]).area() <= best_area,
                forall|j: int| best < j < i ==> (#[trigger] regions@[j]).area() < best_area,
            decreases regions@.len() - i,
        {
            let a = rect_area(regions[i]);
            if a >= best_area {
                best = i;
                best_area = a;
            }
            i = i + 1;
        }
        assert(is_last_largest(regions@, best as int));
        Some(regions[best])
    }
}

impl DpiAwarenessKind {
    pub fn from_raw(value: i32) -> (r: Self)
        ensures
            value == -1 ==> r == DpiAwarenessKind::Invalid,
            value == 0 ==> r == DpiAwarenessKind::Unaware,
            value == 1 ==> r == DpiAwarenessKind::SystemAware,
            value == 2 ==> r == DpiAwarenessKind::PerMonitorAware,
            !(-1 <= value <= 2) ==> r == DpiAwarenessKind::Unknown(value),
    {
        match value {
            -1 => Self::Invalid,
            0 => Self::Unaware,
            1 => Self::SystemAware,
            2 => Self::PerMonitorAware,
            other => Self::Unknown(other),
        }
    }
}

impl CaptureRequest {
    pub fn primary_screen() -> (r: Self)
        ensures
            r == (CaptureRequest { target: CaptureTarget::PrimaryScreen, area: CaptureArea::Full }),
    {
        Self { target: CaptureTarget::PrimaryScreen, area: CaptureArea::Full }
    }

    pub fn screen(id: ScreenId) -> (r: Self)
        ensures
            r == (CaptureRequest { target: CaptureTarget::Screen(id), area: CaptureArea::Full }),
    {
        Self { target: CaptureTarget::Screen(id), area: CaptureArea::Full }
    }

    pub fn window(id: WindowId) -> (r: Self)
        ensures
            r == (CaptureRequest { target: CaptureTarget::Window(id), area: CaptureArea::Full }),
    {
        Self { target: CaptureTarget::Window(id), area: CaptureArea::Full }
    }

    /// The same request with another area; the target is kept.
    pub fn with_area(self, area: CaptureArea) -> (r: Self)
        ensures
            r == (CaptureRequest { target: self.target, area }),
    {
        Self { area, ..self }
    }
}

} // verus!
