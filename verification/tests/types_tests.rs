use kscreenshot::{
    CaptureArea, CaptureRequest, CaptureTarget, DpiAwarenessKind, FrameBuffer, FrameFormat,
    Point, Rect, ScreenId, ScreenshotError, WindowId, WindowInfo, WindowLayoutInfo,
};

#[test]
fn rect_intersection_matches_expected() {
    let left = Rect::from_xywh(0, 0, 100, 100);
    let right = Rect::from_xywh(50, 40, 100, 100);

    let result = left.intersect(right);

    assert_eq!(result, Rect::from_xywh(50, 40, 50, 60));
}

#[test]
fn rect_accessors() {
    let r = Rect::new(10, 20, 110, 70);
    assert_eq!(r.width(), 100);
    assert_eq!(r.height(), 50);
    assert!(!r.is_empty());
    assert!(Rect::new(5, 5, 5, 10).is_empty());
    assert!(Rect::new(5, 10, 6, 9).is_empty());
    assert_eq!(Rect::from_xywh(-3, -4, 3, 4), Rect::new(-3, -4, 0, 0));
    assert_eq!(Point::new(3, -7), Point { x: 3, y: -7 });
}

#[test]
fn rect_is_empty_without_overflow() {
    let huge = Rect::new(i32::MIN, i32::MIN, i32::MAX, i32::MAX);
    assert!(!huge.is_empty());
    let inverted = Rect::new(i32::MAX, 0, i32::MIN, 10);
    assert!(inverted.is_empty());
}

#[test]
fn disjoint_rects_intersect_to_zero() {
    let a = Rect::new(0, 0, 10, 10);
    let b = Rect::new(20, 20, 30, 30);
    assert_eq!(a.intersect(b), Rect::new(0, 0, 0, 0));
    let touching = Rect::new(10, 0, 20, 10);
    assert_eq!(a.intersect(touching), Rect::default());
}

#[test]
fn intersect_commutes_on_examples() {
    let a = Rect::new(-5, 3, 40, 17);
    let b = Rect::new(2, -8, 13, 9);
    assert_eq!(a.intersect(b), b.intersect(a));
    assert_eq!(a.intersect(b), Rect::new(2, 3, 13, 9));
    assert_eq!(a.intersect(a), a);
}

#[test]
fn capture_request_builders() {
    let p = CaptureRequest::primary_screen();
    assert_eq!(p.target, CaptureTarget::PrimaryScreen);
    assert_eq!(p.area, CaptureArea::Full);
    let s = CaptureRequest::screen(ScreenId(7));
    assert_eq!(s.target, CaptureTarget::Screen(ScreenId(7)));
    let w = CaptureRequest::window(WindowId(9)).with_area(CaptureArea::Physical(Rect::new(1, 2, 3, 4)));
    assert_eq!(w.target, CaptureTarget::Window(WindowId(9)));
    assert_eq!(w.area, CaptureArea::Physical(Rect::new(1, 2, 3, 4)));
}

#[test]
fn dpi_awareness_from_raw() {
    assert_eq!(DpiAwarenessKind::from_raw(-1), DpiAwarenessKind::Invalid);
    assert_eq!(DpiAwarenessKind::from_raw(0), DpiAwarenessKind::Unaware);
    assert_eq!(DpiAwarenessKind::from_raw(1), DpiAwarenessKind::SystemAware);
    assert_eq!(DpiAwarenessKind::from_raw(2), DpiAwarenessKind::PerMonitorAware);
    assert_eq!(DpiAwarenessKind::from_raw(3), DpiAwarenessKind::Unknown(3));
    assert_eq!(DpiAwarenessKind::from_raw(-2), DpiAwarenessKind::Unknown(-2));
}

#[test]
fn to_rgba_swaps_red_and_blue() {
    let fb = FrameBuffer {
        width: 2,
        height: 1,
        stride: 8,
        format: FrameFormat::Bgra8,
        data: vec![1, 2, 3, 4, 10, 20, 30, 40, 99],
    };
    assert_eq!(fb.to_rgba(), vec![3, 2, 1, 4, 30, 20, 10, 40]);
}

#[test]
fn image_data_accepts_matching_buffer() {
    let fb = FrameBuffer {
        width: 1,
        height: 2,
        stride: 4,
        format: FrameFormat::Bgra8,
        data: vec![1, 2, 3, 4, 5, 6, 7, 8],
    };
    assert_eq!(fb.image_data().unwrap(), vec![3, 2, 1, 4, 7, 6, 5, 8]);
}

#[test]
fn image_data_refuses_short_buffer() {
    let fb = FrameBuffer {
        width: 2,
        height: 2,
        stride: 8,
        format: FrameFormat::Bgra8,
        data: vec![0; 12],
    };
    assert!(matches!(fb.image_data(), Err(ScreenshotError::InvalidImageBuffer)));
}

fn window(id: u64) -> WindowInfo {
    WindowInfo {
        id: WindowId(id),
        title: format!("w{id}"),
        module_file_name: "app".to_string(),
        rect: Rect::new(0, 0, 100, 100),
        z_index: 1,
        screen_id: None,
        hwnd: id,
    }
}

fn layout(regions: Vec<Rect>) -> WindowLayoutInfo {
    WindowLayoutInfo {
        window: window(1),
        window_rect: Rect::new(0, 0, 100, 100),
        clipped_rect: Rect::new(0, 0, 100, 100),
        visible_regions: regions,
        visible_bounds: None,
        total_area: 0,
        visible_area: 0,
        occluded_area: 0,
        is_occluded: false,
        is_fully_occluded: false,
        occluded_by: vec![],
    }
}

#[test]
fn largest_visible_region_picks_last_of_largest() {
    let l = layout(vec![
        Rect::new(0, 0, 10, 10),
        Rect::new(0, 0, 20, 5),
        Rect::new(0, 0, 5, 20),
        Rect::new(0, 0, 3, 3),
    ]);
    assert_eq!(l.largest_visible_region(), Some(Rect::new(0, 0, 5, 20)));
    assert_eq!(layout(vec![]).largest_visible_region(), None);
    let one = layout(vec![Rect::new(1, 1, 2, 2)]);
    assert_eq!(one.largest_visible_region(), Some(Rect::new(1, 1, 2, 2)));
}

#[test]
fn visible_region_errors_when_fully_occluded() {
    let l = layout(vec![]);
    match l.visible_bounds_region() {
        Err(ScreenshotError::WindowNotFound(m)) => assert_eq!(m, "window is fully occluded"),
        other => panic!("unexpected {other:?}"),
    }
    assert!(matches!(
        l.largest_visible_region_or_err(),
        Err(ScreenshotError::WindowNotFound(_))
    ));
    let mut l2 = layout(vec![Rect::new(0, 0, 4, 4)]);
    l2.visible_bounds = Some(Rect::new(0, 0, 4, 4));
    assert_eq!(l2.visible_bounds_region().unwrap(), Rect::new(0, 0, 4, 4));
    assert_eq!(l2.largest_visible_region_or_err().unwrap(), Rect::new(0, 0, 4, 4));
}
