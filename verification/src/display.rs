use vstd::prelude::*;

use crate::error::ScreenshotError;
use crate::geometry::Rect;
use crate::types::{DisplayColorSpace, ScreenId, ScreenInfo};

verus! {

/// The DXGI color spaces (by their numeric value) with BT.2020 primaries, which the capture
/// treats as high dynamic range.
pub open spec fn spec_is_hdr_color_space(color_space: i32) -> bool {
    ||| color_space == 3  // RGB_STUDIO_G22_NONE_P2020
    ||| color_space == 10  // YCBCR_STUDIO_G22_LEFT_P2020
    ||| color_space == 11  // YCBCR_FULL_G22_LEFT_P2020
    ||| color_space == 12  // RGB_FULL_G2084_NONE_P2020
    ||| color_space == 13  // YCBCR_STUDIO_G2084_LEFT_P2020
    ||| color_space == 14  // RGB_STUDIO_G2084_NONE_P2020
    ||| color_space == 15  // YCBCR_STUDIO_G22_TOPLEFT_P2020
    ||| color_space == 16  // YCBCR_STUDIO_G2084_TOPLEFT_P2020
    ||| color_space == 17  // RGB_FULL_G22_NONE_P2020
    ||| color_space == 18  // YCBCR_STUDIO_GHLG_TOPLEFT_P2020
    ||| color_space == 19  // YCBCR_FULL_GHLG_TOPLEFT_P2020
    ||| color_space == 21  // RGB_STUDIO_G24_NONE_P2020
    ||| color_space == 23  // YCBCR_STUDIO_G24_LEFT_P2020
    ||| color_space == 24  // YCBCR_STUDIO_G24_TOPLEFT_P2020

}

pub fn is_hdr_color_space(color_space: i32) -> (r: bool)
    ensures
        r == spec_is_hdr_color_space(color_space),
{
    match color_space {
        3 | 10 | 11 | 12 | 13 | 14 | 15 | 16 | 17 | 18 | 19 | 21 | 23 | 24 => true,
        _ => false,
    }
}

/// The color space a monitor reports and whether it runs in HDR. `output_color_space` is the
/// color space of the monitor's DXGI output, when one was found; advanced color, when enabled,
/// makes the monitor HDR in any case.
pub fn screen_color_state(output_color_space: Option<i32>, advanced_color_enabled: bool) -> (r: (
    DisplayColorSpace,
    bool,
))
    ensures
        r.0 == (match output_color_space {
            Some(cs) => if spec_is_hdr_color_space(cs) {
                DisplayColorSpace::Bt2020
            } else {
                DisplayColorSpace::Unknown(cs)
            },
            None => DisplayColorSpace::Srgb,
        }),
        r.1 == ((output_color_space matches Some(cs) && spec_is_hdr_color_space(cs))
            || advanced_color_enabled),
{
    match output_color_space {
        Some(cs) => {
            let hdr = is_hdr_color_space(cs);
            let color_space = if hdr {
                DisplayColorSpace::Bt2020
            } else {
                DisplayColorSpace::Unknown(cs)
            };
            (color_space, hdr || advanced_color_enabled)
        },
        None => (DisplayColorSpace::Srgb, advanced_color_enabled),
    }
}

/// Position and size `(x, y, width, height)` of a monitor in physical pixels: those of its
/// DXGI desktop coordinates when known, else those of its GDI monitor rectangle.
pub fn screen_physical_bounds(gdi_rect: Rect, dxgi_rect: Option<Rect>) -> (r: (i32, i32, i32, i32))
    requires
        ({
            let s = match dxgi_rect {
                Some(d) => d,
                None => gdi_rect,
            };
            i32::MIN <= s.spec_width() <= i32::MAX && i32::MIN <= s.spec_height() <= i32::MAX
        }),
    ensures
        ({
            let s = match dxgi_rect {
                Some(d) => d,
                None => gdi_rect,
            };
            r == (s.left, s.top, s.spec_width() as i32, s.spec_height() as i32)
        }),
{
    let source = match dxgi_rect {
        Some(d) => d,
        None => gdi_rect,
    };
    (source.left, source.top, source.width(), source.height())
}

/// Bit of the monitor flags that marks the primary monitor.
pub const MONITORINFOF_PRIMARY: u32 = 1;

pub fn is_primary_monitor(flags: u32) -> (r: bool)
    ensures
        r == (flags & MONITORINFOF_PRIMARY != 0),
{
    flags & MONITORINFOF_PRIMARY != 0
}

/// Advanced color is enabled when bit 1 of the advanced color flags is set.
pub fn advanced_color_enabled_from_flags(flags: u32) -> (r: bool)
    ensures
        r == (flags & 2 != 0),
{
    flags & 2 != 0
}

/// The shell's scale percentage, when the system reported a positive one.
pub fn positive_scale_percent(value: i32) -> (r: Option<u32>)
    ensures
        value > 0 ==> r == Some(value as u32),
        value <= 0 ==> r is None,
{
    if value > 0 {
        Some(value as u32)
    } else {
        None
    }
}

/// UTF-16 decoding in which every code unit that is not part of a valid character becomes
/// U+FFFD: a unit outside the surrogate range is its own character, a high surrogate followed
/// by a low one makes one supplementary character, and any other surrogate is replaced.
pub open spec fn utf16_lossy(units: Seq<u16>) -> Seq<char>
    decreases units.len(),
{
    if units.len() == 0 {
        seq![]
    } else {
        let first = units[0];
        if first < 0xD800 || first > 0xDFFF {
            seq![first as char] + utf16_lossy(units.drop_first())
        } else if first <= 0xDBFF && units.len() >= 2 && 0xDC00 <= units[1] <= 0xDFFF {
            seq![(0x10000 + (first - 0xD800) * 0x400 + (units[1] - 0xDC00)) as char] + utf16_lossy(
                units.subrange(2, units.len() as int),
            )
        } else {
            seq!['\u{FFFD}'] + utf16_lossy(units.drop_first())
        }
    }
}

/// Calls `String::from_utf16_lossy`, which decodes UTF-16 and replaces each invalid code unit
/// (an unpaired surrogate) with U+FFFD, as `char::decode_utf16` reports them.
#[verifier::external_body]
fn string_from_utf16_lossy(units: &[u16]) -> (r: String)
    ensures
        r@ == utf16_lossy(units@),
{
    String::from_utf16_lossy(units)
}

/// Number of code units before the first zero, or all of them when there is no zero.
pub open spec fn utf16z_len(buffer: Seq<u16>) -> int {
    if exists|k: int| 0 <= k < buffer.len() && buffer[k] == 0 {
        choose|k: int| 0 <= k < buffer.len() && buffer[k] == 0 && forall|j: int|
            0 <= j < k ==> buffer[j] != 0
    } else {
        buffer.len() as int
    }
}

/// The text of a zero-terminated UTF-16 buffer (all of it when it has no terminator).
pub fn utf16z_to_string(buffer: &[u16]) -> (r: String)
    ensures
        r@ == utf16_lossy(buffer@.take(utf16z_len(buffer@))),
{
    let mut len: usize = 0;
    while len < buffer.len()
        invariant
            0 <= len <= buffer@.len(),
            forall|j: int| 0 <= j < len ==> buffer@[j] != 0,
        ensures
            0 <= len <= buffer@.len(),
            forall|j: int| 0 <= j < len ==> buffer@[j] != 0,
            len < buffer@.len() ==> buffer@[len as int] == 0,
        decreases buffer@.len() - len,
    {
        if buffer[len] == 0 {
            break;
        }
        len = len + 1;
    }
    proof {
        if len < buffer@.len() {
            assert(buffer@[len as int] == 0);
            let k = choose|k: int|
                0 <= k < buffer@.len() && buffer@[k] == 0 && forall|j: int|
                    0 <= j < k ==> buffer@[j] != 0;
            if k < len {
                assert(buffer@[k] != 0);
            }
            if k > len {
                assert(buffer@[len as int] != 0);
            }
            assert(k == len);
        } else {
            assert(!(exists|k: int| 0 <= k < buffer@.len() && buffer@[k] == 0));
        }
    }
    let prefix = vstd::slice::slice_subrange(buffer, 0, len);
    proof {
        assert(prefix@ =~= buffer@.take(len as int));
    }
    string_from_utf16_lossy(prefix)
}

/// `k` is the first index of `s` whose screen satisfies `p`.
pub open spec fn first_screen_such(s: Seq<ScreenInfo>, k: int, p: spec_fn(ScreenInfo) -> bool) -> bool {
    &&& 0 <= k < s.len()
    &&& p(s[k])
    &&& forall|j: int| 0 <= j < k ==> !p(#[trigger] s[j])
}

/// `k` is the first index of a primary screen.
pub open spec fn is_first_primary(s: Seq<ScreenInfo>, k: int) -> bool {
    first_screen_such(s, k, |x: ScreenInfo| x.is_primary)
}

/// `k` is the first index of a screen with the id `id`.
pub open spec fn is_first_with_id(s: Seq<ScreenInfo>, k: int, id: ScreenId) -> bool {
    first_screen_such(s, k, |x: ScreenInfo| x.id == id)
}

/// `k` is the first index of a screen of the monitor `hmonitor`.
pub open spec fn is_first_of_monitor(s: Seq<ScreenInfo>, k: int, hmonitor: u64) -> bool {
    first_screen_such(s, k, |x: ScreenInfo| x.hmonitor == hmonitor)
}

/// `k` is the first index of a screen at the position and with the size of `screen`.
pub open spec fn is_first_like(s: Seq<ScreenInfo>, k: int, screen: ScreenInfo) -> bool {
    first_screen_such(s, k, |x: ScreenInfo| same_position_and_size(x, screen))
}

pub open spec fn same_position_and_size(a: ScreenInfo, b: ScreenInfo) -> bool {
    a.x == b.x && a.y == b.y && a.width == b.width && a.height == b.height
}

/// The monitor handle of the first listed screen at the position and with the size of
/// `screen`.
pub fn find_monitor(screens: &Vec<ScreenInfo>, screen: &ScreenInfo) -> (r: Result<
    u64,
    ScreenshotError,
>)
    ensures
        r matches Ok(h) ==> exists|k: int|
            is_first_like(screens@, k, *screen) && screens@[k].hmonitor == h,
        r is Err ==> forall|j: int|
            0 <= j < screens@.len() ==> !same_position_and_size(#[trigger] screens@[j], *screen),
        r matches Err(e) ==> e is MonitorNotFound,
        r matches Ok(h) ==> exists|k: int|
            #![trigger screens@[k]]
            0 <= k < screens@.len() && screens@[k].hmonitor == h && screens@[k].x == screen.x
                && screens@[k].y == screen.y && screens@[k].width == screen.width
                && screens@[k].height == screen.height && forall|j: int|
                #![trigger screens@[j]]
                0 <= j < k ==> !(screens@[j].x == screen.x && screens@[j].y == screen.y
                    && screens@[j].width == screen.width && screens@[j].height == screen.height),
        r is Err <==> forall|j: int|
            #![trigger screens@[j]]
            0 <= j < screens@.len() ==> !(screens@[j].x == screen.x && screens@[j].y == screen.y
                && screens@[j].width == screen.width && screens@[j].height == screen.height),
{
    let mut i: usize = 0;
    while i < screens.len()
        invariant
            0 <= i <= screens@.len(),
            forall|j: int| 0 <= j < i ==> !same_position_and_size(#[trigger] screens@[j], *screen),
        decreases screens@.len() - i,
    {
        let current = &screens[i];
        if current.x == screen.x && current.y == screen.y && current.width == screen.width
            && current.height == screen.height {
            proof {
                assert(is_first_like(screens@, i as int, *screen));
            }
            return Ok(current.hmonitor);
        }
        i = i + 1;
    }
    Err(ScreenshotError::MonitorNotFound)
}

/// The first listed screen of the monitor `hmonitor`.
pub fn find_screen_by_monitor(screens: &Vec<ScreenInfo>, hmonitor: u64) -> (r: Result<
    ScreenInfo,
    ScreenshotError,
>)
    ensures
        r matches Ok(s) ==> exists|k: int|
            is_first_of_monitor(screens@, k, hmonitor) && screens@[k] == s,
        r is Err ==> forall|j: int|
            0 <= j < screens@.len() ==> (#[trigger] screens@[j]).hmonitor != hmonitor,
        r matches Err(e) ==> e is MonitorNotFound,
        r matches Ok(s) ==> exists|k: int|
            #![trigger screens@[k]]
            0 <= k < screens@.len() && screens@[k] == s && s.hmonitor == hmonitor && forall|j: int|
                0 <= j < k ==> (#[trigger] screens@[j]).hmonitor != hmonitor,
        r is Err <==> forall|j: int|
            0 <= j < screens@.len() ==> (#[trigger] screens@[j]).hmonitor != hmonitor,
{
    let mut i: usize = 0;
    while i < screens.len()
        invariant
            0 <= i <= screens@.len(),
            forall|j: int| 0 <= j < i ==> (#[trigger] screens@[j]).hmonitor != hmonitor,
        decreases screens@.len() - i,
    {
        if screens[i].hmonitor == hmonitor {
            proof {
                assert(is_first_of_monitor(screens@, i as int, hmonitor));
            }
            return Ok(screens[i].clone());
        }
        i = i + 1;
    }
    Err(ScreenshotError::MonitorNotFound)
}

/// The first listed screen with the id `id`.
pub fn find_screen_by_id(screens: &Vec<ScreenInfo>, id: ScreenId) -> (r: Option<ScreenInfo>)
    ensures
        r matches Some(s) ==> exists|k: int|
            is_first_with_id(screens@, k, id) && screens@[k] == s,
        r is None ==> forall|j: int| 0 <= j < screens@.len() ==> (#[trigger] screens@[j]).id != id,
        r matches Some(s) ==> exists|k: int|
            #![trigger screens@[k]]
            0 <= k < screens@.len() && screens@[k] == s && s.id == id && forall|j: int|
                0 <= j < k ==> (#[trigger] screens@[j]).id != id,
        r is None <==> forall|j: int|
            0 <= j < screens@.len() ==> (#[trigger] screens@[j]).id != id,
{
    let mut i: usize = 0;
    while i < screens.len()
        invariant
            0 <= i <= screens@.len(),
            forall|j: int| 0 <= j < i ==> (#[trigger] screens@[j]).id != id,
        decreases screens@.len() - i,
    {
        if screens[i].id == id {
            proof {
                assert(is_first_with_id(screens@, i as int, id));
            }
            return Some(screens[i].clone());
        }
        i = i + 1;
    }
    None
}

} // verus!
