use kscreenshot::window::{should_include_window, WS_EX_NOACTIVATE, WS_EX_TOOLWINDOW};
use kscreenshot::{
    get_all_window_layouts, resolve_window, Rect, ScreenId, ScreenshotError, WindowId, WindowInfo,
    WindowSnapshot,
};

fn info(id: u64, title: &str, module: &str, rect: Rect) -> WindowInfo {
    WindowInfo {
        id: WindowId(id),
        title: title.to_string(),
        module_file_name: module.to_string(),
        rect,
        z_index: id as i32,
        screen_id: Some(ScreenId(1)),
        hwnd: id,
    }
}

fn snap(id: u64, rect: Rect) -> WindowSnapshot {
    WindowSnapshot { window: info(id, "t", "m", rect), window_rect: rect, clipped_rect: rect }
}

#[test]
fn layouts_of_stacked_windows() {
    let snaps = vec![
        snap(1, Rect::new(0, 0, 50, 50)),
        snap(2, Rect::new(25, 0, 100, 50)),
        snap(3, Rect::new(10, 10, 20, 20)),
        snap(4, Rect::new(200, 200, 210, 210)),
    ];
    let layouts = get_all_window_layouts(&snaps);
    assert_eq!(layouts.len(), 4);

    let top = &layouts[0];
    assert_eq!(top.visible_regions, vec![Rect::new(0, 0, 50, 50)]);
    assert_eq!(top.total_area, 2500);
    assert_eq!(top.visible_area, 2500);
    assert_eq!(top.occluded_area, 0);
    assert!(!top.is_occluded && !top.is_fully_occluded);
    assert!(top.occluded_by.is_empty());
    assert_eq!(top.visible_bounds, Some(Rect::new(0, 0, 50, 50)));

    let second = &layouts[1];
    assert_eq!(second.visible_regions, vec![Rect::new(50, 0, 100, 50)]);
    assert_eq!(second.total_area, 3750);
    assert_eq!(second.visible_area, 2500);
    assert_eq!(second.occluded_area, 1250);
    assert!(second.is_occluded && !second.is_fully_occluded);
    assert_eq!(second.occluded_by, vec![WindowId(1)]);

    let third = &layouts[2];
    assert!(third.visible_regions.is_empty());
    assert_eq!(third.visible_area, 0);
    assert_eq!(third.occluded_area, 100);
    assert!(third.is_occluded && third.is_fully_occluded);
    assert_eq!(third.occluded_by, vec![WindowId(1)]);
    assert_eq!(third.visible_bounds, None);

    let fourth = &layouts[3];
    assert_eq!(fourth.visible_area, 100);
    assert!(fourth.occluded_by.is_empty());
    assert_eq!(fourth.window.id, WindowId(4));
}

#[test]
fn layout_visible_area_adds_up() {
    let snaps = vec![
        snap(1, Rect::new(0, 0, 30, 30)),
        snap(2, Rect::new(20, 20, 60, 60)),
        snap(3, Rect::new(10, 10, 50, 50)),
    ];
    let layouts = get_all_window_layouts(&snaps);
    let third = &layouts[2];
    assert_eq!(third.visible_area + third.occluded_area, third.total_area);
    // Points of window 3 outside windows 1 and 2: the L-shaped band.
    assert_eq!(third.visible_area, 1600 - (400 + 900 - 100) + 0);
    assert_eq!(third.occluded_by, vec![WindowId(1), WindowId(2)]);
    for x in 0..70 {
        for y in 0..70 {
            let count = third
                .visible_regions
                .iter()
                .filter(|r| r.left <= x && x < r.right && r.top <= y && y < r.bottom)
                .count();
            let in_third = (10..50).contains(&x) && (10..50).contains(&y);
            let above = ((0..30).contains(&x) && (0..30).contains(&y))
                || ((20..60).contains(&x) && (20..60).contains(&y));
            assert_eq!(count, usize::from(in_third && !above), "{x},{y}");
        }
    }
}

#[test]
fn no_windows_no_layouts() {
    assert!(get_all_window_layouts(&vec![]).is_empty());
}

#[test]
fn snapshot_from_parts_filters() {
    let work = Rect::new(0, 0, 100, 100);
    let s = WindowSnapshot::from_parts(
        5,
        2,
        "Title".to_string(),
        "proc".to_string(),
        Rect::new(50, 50, 150, 150),
        0,
        work,
    )
    .unwrap();
    assert_eq!(s.clipped_rect, Rect::new(50, 50, 100, 100));
    assert_eq!(s.window.screen_id, None);
    assert_eq!(s.window.id, WindowId(5));
    assert_eq!(s.window.z_index, 2);
    let with_monitor = WindowSnapshot::from_parts(
        5, 2, "T".into(), "p".into(), Rect::new(0, 0, 10, 10), 77, work,
    )
    .unwrap();
    assert_eq!(with_monitor.window.screen_id, Some(ScreenId(77)));
    assert!(WindowSnapshot::from_parts(5, 2, String::new(), "p".into(), Rect::new(0, 0, 10, 10), 1, work).is_none());
    assert!(WindowSnapshot::from_parts(5, 2, "T".into(), "p".into(), Rect::new(0, 0, 0, 10), 1, work).is_none());
    assert!(WindowSnapshot::from_parts(5, 2, "T".into(), "p".into(), Rect::new(200, 200, 210, 210), 1, work).is_none());
}

#[test]
fn include_window_rules() {
    assert!(should_include_window(true, false, 0, true, None));
    assert!(should_include_window(true, false, 0, true, Some(0)));
    assert!(!should_include_window(false, false, 0, true, None));
    assert!(!should_include_window(true, true, 0, true, None));
    assert!(!should_include_window(true, false, WS_EX_TOOLWINDOW, true, None));
    assert!(!should_include_window(true, false, WS_EX_NOACTIVATE | 1, true, None));
    assert!(!should_include_window(true, false, 0, false, None));
    assert!(!should_include_window(true, false, 0, true, Some(0x11)));
}

#[test]
fn resolve_window_prefers_id_then_title_then_module() {
    let r = Rect::new(0, 0, 10, 10);
    let windows = vec![
        info(1, "Editor", "code", r),
        info(2, "Other", "code", r),
        info(3, "Browser", "firefox", r),
    ];
    let by_id = info(3, "renamed", "x", r);
    assert_eq!(resolve_window(&windows, &by_id).unwrap().id, WindowId(3));
    let by_title = info(9, "Browser", "firefox", r);
    assert_eq!(resolve_window(&windows, &by_title).unwrap().id, WindowId(3));
    let by_module = info(9, "gone", "code", r);
    assert_eq!(resolve_window(&windows, &by_module).unwrap().id, WindowId(1));
    let nothing = info(9, "gone", "", r);
    match resolve_window(&windows, &nothing) {
        Err(ScreenshotError::WindowNotFound(m)) => assert_eq!(m, "gone ()"),
        other => panic!("unexpected {other:?}"),
    }
    let missing = info(9, "Lost", "paint", r);
    match resolve_window(&windows, &missing) {
        Err(ScreenshotError::WindowNotFound(m)) => assert_eq!(m, "Lost (paint)"),
        other => panic!("unexpected {other:?}"),
    }
}
