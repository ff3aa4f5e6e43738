use kscreenshot::display::{
    advanced_color_enabled_from_flags, find_screen_by_id, find_screen_by_monitor,
    is_hdr_color_space, is_primary_monitor, positive_scale_percent, screen_color_state,
    screen_physical_bounds,
};
use kscreenshot::{
    find_monitor, utf16z_to_string, DisplayColorSpace, Rect, ScreenId, ScreenInfo, ScreenshotError,
};

fn screen(id: u64, x: i32, primary: bool) -> ScreenInfo {
    ScreenInfo {
        id: ScreenId(id),
        x,
        y: 0,
        width: 1920,
        height: 1080,
        is_primary: primary,
        scale_factor_bits: 0x3fc0_0000,
        sdr_white_level_scale_bits: 0x3f80_0000,
        device_name: format!("\\\\.\\DISPLAY{id}"),
        is_hdr: false,
        color_space: DisplayColorSpace::Srgb,
        red_primary_bits: [0, 0],
        green_primary_bits: [0, 0],
        blue_primary_bits: [0, 0],
        white_point_bits: [0, 0],
        hmonitor: id * 100,
    }
}

#[test]
fn hdr_color_spaces() {
    for cs in [3, 10, 11, 12, 13, 14, 15, 16, 17, 18, 19, 21, 23, 24] {
        assert!(is_hdr_color_space(cs), "{cs}");
    }
    for cs in [-1, 0, 1, 2, 4, 5, 6, 7, 8, 9, 20, 22, 25] {
        assert!(!is_hdr_color_space(cs), "{cs}");
    }
}

#[test]
fn color_state_rules() {
    assert_eq!(screen_color_state(Some(12), false), (DisplayColorSpace::Bt2020, true));
    assert_eq!(screen_color_state(Some(0), false), (DisplayColorSpace::Unknown(0), false));
    assert_eq!(screen_color_state(Some(0), true), (DisplayColorSpace::Unknown(0), true));
    assert_eq!(screen_color_state(None, false), (DisplayColorSpace::Srgb, false));
    assert_eq!(screen_color_state(None, true), (DisplayColorSpace::Srgb, true));
}

#[test]
fn physical_bounds_prefer_dxgi() {
    let gdi = Rect::new(0, 0, 2560, 1440);
    let dxgi = Rect::new(0, 0, 3840, 2160);
    assert_eq!(screen_physical_bounds(gdi, Some(dxgi)), (0, 0, 3840, 2160));
    assert_eq!(screen_physical_bounds(Rect::new(-1920, 10, 0, 1090), None), (-1920, 10, 1920, 1080));
}

#[test]
fn flag_helpers() {
    assert!(is_primary_monitor(1));
    assert!(is_primary_monitor(3));
    assert!(!is_primary_monitor(2));
    assert!(advanced_color_enabled_from_flags(2));
    assert!(!advanced_color_enabled_from_flags(1));
    assert_eq!(positive_scale_percent(150), Some(150));
    assert_eq!(positive_scale_percent(0), None);
    assert_eq!(positive_scale_percent(-5), None);
}

#[test]
fn utf16z_stops_at_terminator() {
    let units: Vec<u16> = "AB\0C".encode_utf16().collect();
    assert_eq!(utf16z_to_string(&units), "AB");
    let no_zero: Vec<u16> = "héllo".encode_utf16().collect();
    assert_eq!(utf16z_to_string(&no_zero), "héllo");
    assert_eq!(utf16z_to_string(&[0, 65]), "");
    assert_eq!(utf16z_to_string(&[0xD800, 0]), "\u{FFFD}");
}

#[test]
fn screen_lookups() {
    let screens = vec![screen(1, 0, false), screen(2, 1920, true), screen(3, 1920, false)];
    assert_eq!(find_monitor(&screens, &screen(9, 1920, false)).unwrap(), 200);
    assert!(matches!(find_monitor(&screens, &screen(9, 5, false)), Err(ScreenshotError::MonitorNotFound)));
    assert_eq!(find_screen_by_monitor(&screens, 300).unwrap().id, ScreenId(3));
    assert!(matches!(find_screen_by_monitor(&screens, 1), Err(ScreenshotError::MonitorNotFound)));
    assert_eq!(find_screen_by_id(&screens, ScreenId(1)).unwrap().hmonitor, 100);
    assert!(find_screen_by_id(&screens, ScreenId(4)).is_none());
}

#[test]
fn utf16z_replaces_unpaired_surrogates() {
    let units = [0xD834, 0xDD1E, 0x006d, 0x0075, 0x0073, 0xDD1E, 0x0069, 0x0063, 0xD834];
    assert_eq!(utf16z_to_string(&units), "\u{1D11E}mus\u{FFFD}ic\u{FFFD}");
    assert_eq!(utf16z_to_string(&[0xD800, 0x0041, 0]), "\u{FFFD}A");
}
