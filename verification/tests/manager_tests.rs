use kscreenshot::manager::unscaled_area;
use kscreenshot::CaptureArea;
use kscreenshot::{
    CaptureTarget, DisplayColorSpace, Rect, ScreenCaptureManager, ScreenCaptureType, ScreenId,
    ScreenInfo, ScreenshotError, WgcCapture, WindowId, WindowInfo,
};

fn screen(id: u64, primary: bool) -> ScreenInfo {
    ScreenInfo {
        id: ScreenId(id),
        x: 0,
        y: 0,
        width: 800 + id as i32,
        height: 600,
        is_primary: primary,
        scale_factor_bits: 0x3f80_0000,
        sdr_white_level_scale_bits: 0x3f80_0000,
        device_name: format!("D{id}"),
        is_hdr: false,
        color_space: DisplayColorSpace::Srgb,
        red_primary_bits: [0, 0],
        green_primary_bits: [0, 0],
        blue_primary_bits: [0, 0],
        white_point_bits: [0, 0],
        hmonitor: id,
    }
}

fn window(id: u64, screen_id: Option<u64>) -> WindowInfo {
    WindowInfo {
        id: WindowId(id),
        title: "w".to_string(),
        module_file_name: "m".to_string(),
        rect: Rect::new(100, 100, 400, 300),
        z_index: 1,
        screen_id: screen_id.map(ScreenId),
        hwnd: id,
    }
}

#[test]
fn capture_method_names() {
    let names = ScreenCaptureManager::get_capture_method_name();
    assert_eq!(names, vec!["自动".to_string(), "WGC".to_string()]);
    let mut m = ScreenCaptureManager::new();
    assert_eq!(m.capture_method_name(), "自动");
    assert!(m.set_capture_method_name("WGC".to_string()).is_ok());
    assert_eq!(m.capture_method_name(), "WGC");
    match m.set_capture_method_name("Directx11".to_string()) {
        Err(ScreenshotError::UnsupportedCaptureMethod(n)) => assert_eq!(n, "Directx11"),
        other => panic!("unexpected {other:?}"),
    }
    assert_eq!(m.capture_method_name(), "WGC");
    assert!(m.set_capture_method_name("自动".to_string()).is_ok());
    assert_eq!(m.capture_method_name(), "自动");
    let _: &WgcCapture = m.backend();
}

#[test]
fn primary_screen_choice() {
    let m = ScreenCaptureManager::new();
    let screens = vec![screen(1, false), screen(2, true), screen(3, true)];
    assert_eq!(m.primary_screen(&screens).unwrap().id, ScreenId(2));
    let no_primary = vec![screen(5, false), screen(6, false)];
    assert_eq!(m.primary_screen(&no_primary).unwrap().id, ScreenId(5));
    assert!(matches!(m.primary_screen(&vec![]), Err(ScreenshotError::MonitorNotFound)));
}

#[test]
fn capture_targets() {
    let m = ScreenCaptureManager::new();
    let screens = vec![screen(1, false), screen(2, true)];
    let windows = vec![window(10, Some(1)), window(11, Some(9)), window(12, None)];

    let p = m.capture_target(CaptureTarget::PrimaryScreen, &screens, &windows).unwrap();
    assert_eq!(p.screen.id, ScreenId(2));
    assert_eq!(p.full_area, Rect::new(0, 0, 802, 600));
    assert!(p.window.is_none());

    let s = m.capture_target(CaptureTarget::Screen(ScreenId(1)), &screens, &windows).unwrap();
    assert_eq!(s.screen.id, ScreenId(1));
    assert!(matches!(
        m.capture_target(CaptureTarget::Screen(ScreenId(7)), &screens, &windows),
        Err(ScreenshotError::MonitorNotFound)
    ));

    let w = m.capture_target(CaptureTarget::Window(WindowId(10)), &screens, &windows).unwrap();
    assert_eq!(w.screen.id, ScreenId(1));
    assert_eq!(w.window.unwrap().id, WindowId(10));
    assert_eq!(w.full_area, Rect::new(0, 0, 300, 200));
    let fallback = m.capture_target(CaptureTarget::Window(WindowId(11)), &screens, &windows).unwrap();
    assert_eq!(fallback.screen.id, ScreenId(2));
    let none = m.capture_target(CaptureTarget::Window(WindowId(12)), &screens, &windows).unwrap();
    assert_eq!(none.screen.id, ScreenId(2));
    match m.capture_target(CaptureTarget::Window(WindowId(99)), &screens, &windows) {
        Err(ScreenshotError::WindowNotFound(msg)) => assert_eq!(msg, "WindowId(99)"),
        other => panic!("unexpected {other:?}"),
    }
    assert!(matches!(
        m.capture_target(CaptureTarget::Window(WindowId(11)), &vec![], &windows),
        Err(ScreenshotError::MonitorNotFound)
    ));
}

#[test]
fn window_region_relative_to_window() {
    let m = ScreenCaptureManager::new();
    let screens = vec![screen(1, true)];
    let windows = vec![window(10, Some(1))];
    let info = m
        .capture_window_region(
            WindowId(10),
            Rect::new(100, 100, 400, 300),
            Rect::new(150, 120, 250, 220),
            &screens,
            &windows,
        )
        .unwrap();
    assert_eq!((info.x, info.y, info.width, info.height), (50, 20, 100, 100));
    assert_eq!(info.screen_capture_type, ScreenCaptureType::Window);
    assert_eq!(info.window_info.unwrap().id, WindowId(10));
    assert!(matches!(
        m.capture_window_region(WindowId(5), Rect::default(), Rect::default(), &screens, &windows),
        Err(ScreenshotError::WindowNotFound(_))
    ));
}

#[test]
fn screen_capture_infos_and_index() {
    let wgc = WgcCapture;
    let infos = wgc.screen_capture_infos(vec![screen(1, true), screen(2, false)]);
    assert_eq!(infos.len(), 2);
    assert_eq!(infos[1].width, 802);
    assert_eq!(infos[1].screen_capture_type, ScreenCaptureType::Screen);
    assert_eq!(wgc.screen_capture_info_at(&infos, 0).unwrap().screen_info.id, ScreenId(1));
    assert!(matches!(wgc.screen_capture_info_at(&infos, 2), Err(ScreenshotError::MonitorNotFound)));
}

#[test]
fn missing_window_messages_name_the_id() {
    let m = ScreenCaptureManager::new();
    let screens = vec![screen(1, true)];
    let windows = vec![window(10, Some(1))];
    match m.capture_window_region(WindowId(1234), Rect::default(), Rect::default(), &screens, &windows) {
        Err(ScreenshotError::WindowNotFound(msg)) => assert_eq!(msg, "WindowId(1234)"),
        other => panic!("unexpected {other:?}"),
    }
    match m.capture_target(CaptureTarget::Window(WindowId(0)), &screens, &windows) {
        Err(ScreenshotError::WindowNotFound(msg)) => assert_eq!(msg, format!("{:?}", WindowId(0))),
        other => panic!("unexpected {other:?}"),
    }
    match m.layout_by_id(&vec![], WindowId(u64::MAX)) {
        Err(ScreenshotError::WindowNotFound(msg)) => assert_eq!(msg, "WindowId(18446744073709551615)"),
        other => panic!("unexpected {other:?}"),
    }
}

#[test]
fn unscaled_area_choices() {
    let full = Rect::new(0, 0, 1920, 1080);
    assert_eq!(unscaled_area(CaptureArea::Full, full), Some(full));
    let r = Rect::new(10, 20, 30, 40);
    assert_eq!(unscaled_area(CaptureArea::Physical(r), full), Some(r));
    assert_eq!(unscaled_area(CaptureArea::Logical(r), full), None);
}

#[test]
fn window_id_messages_for_small_and_round_ids() {
    let m = ScreenCaptureManager::new();
    for (id, text) in [(7u64, "WindowId(7)"), (10, "WindowId(10)"), (1000, "WindowId(1000)")] {
        match m.layout_by_id(&vec![], WindowId(id)) {
            Err(ScreenshotError::WindowNotFound(msg)) => assert_eq!(msg, text),
            other => panic!("unexpected {other:?}"),
        }
    }
}
