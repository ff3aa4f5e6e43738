use kscreenshot::frame::{
    convert_sdr_to_bgra, crop_bgra, effective_crop, frame_from_bgra, frame_poll_step,
    FramePollAction, FRAME_POLL_ATTEMPTS,
};
use kscreenshot::{
    DisplayColorSpace, FrameFormat, ScreenCaptureInfo, ScreenId, ScreenInfo, ScreenshotError,
};

fn screen() -> ScreenInfo {
    ScreenInfo {
        id: ScreenId(1),
        x: 0,
        y: 0,
        width: 4,
        height: 3,
        is_primary: true,
        scale_factor_bits: 0x3f80_0000,
        sdr_white_level_scale_bits: 0x3f80_0000,
        device_name: "DISPLAY1".to_string(),
        is_hdr: false,
        color_space: DisplayColorSpace::Srgb,
        red_primary_bits: [0, 0],
        green_primary_bits: [0, 0],
        blue_primary_bits: [0, 0],
        white_point_bits: [0, 0],
        hmonitor: 1,
    }
}

fn area(x: i32, y: i32, w: i32, h: i32) -> ScreenCaptureInfo {
    let mut info = ScreenCaptureInfo::for_screen(screen());
    info.x = x;
    info.y = y;
    info.width = w;
    info.height = h;
    info
}

#[test]
fn effective_crop_clamps_to_frame() {
    assert_eq!(effective_crop(&area(0, 0, 4, 3), 4, 3).unwrap(), (0, 0, 4, 3));
    assert_eq!(effective_crop(&area(-2, 1, 10, 10), 4, 3).unwrap(), (0, 1, 4, 2));
    assert_eq!(effective_crop(&area(3, 2, 5, 5), 4, 3).unwrap(), (3, 2, 1, 1));
    // A start past the right edge is clamped to the last column.
    assert_eq!(effective_crop(&area(4, 0, 5, 5), 4, 3).unwrap(), (3, 0, 1, 3));
    assert!(matches!(
        effective_crop(&area(-10, 0, 5, 5), 4, 3),
        Err(ScreenshotError::InvalidCaptureRegion)
    ));
}

#[test]
fn crop_bgra_takes_block() {
    // 3x2 image, pixel value = 10 * row + col in every byte.
    let mut data = Vec::new();
    for row in 0..2u8 {
        for col in 0..3u8 {
            data.extend_from_slice(&[10 * row + col; 4]);
        }
    }
    let out = crop_bgra(&data, 3, 2, 1, 0, 2, 2);
    assert_eq!(out, vec![1, 1, 1, 1, 2, 2, 2, 2, 11, 11, 11, 11, 12, 12, 12, 12]);
    assert_eq!(crop_bgra(&data, 3, 2, 0, 0, 3, 2), data);
    assert_eq!(crop_bgra(&data, 3, 2, 2, 1, 1, 1), vec![12, 12, 12, 12]);
}

#[test]
fn convert_sdr_swaps_and_crops() {
    // 2x2 RGBA rows with a pitch of 12 bytes (4 bytes padding per row).
    let source = vec![
        1, 2, 3, 4, 5, 6, 7, 8, 0, 0, 0, 0, //
        9, 10, 11, 12, 13, 14, 15, 16, 0, 0, 0, 0,
    ];
    let mut info = area(0, 0, 2, 2);
    info.width = 2;
    let full = convert_sdr_to_bgra(&source, 12, 2, 2, &info).unwrap();
    assert_eq!(full.width, 2);
    assert_eq!(full.height, 2);
    assert_eq!(full.stride, 8);
    assert_eq!(full.format, FrameFormat::Bgra8);
    assert_eq!(full.data, vec![3, 2, 1, 4, 7, 6, 5, 8, 11, 10, 9, 12, 15, 14, 13, 16]);
    let part = convert_sdr_to_bgra(&source, 12, 2, 2, &area(1, 1, 5, 5)).unwrap();
    assert_eq!((part.width, part.height, part.stride), (1, 1, 4));
    assert_eq!(part.data, vec![15, 14, 13, 16]);
    assert!(matches!(
        convert_sdr_to_bgra(&source, 12, 2, 2, &area(-5, 0, 3, 1)),
        Err(ScreenshotError::InvalidCaptureRegion)
    ));
}

#[test]
fn frame_from_bgra_crops() {
    let bgra: Vec<u8> = (0..24).collect();
    let f = frame_from_bgra(&bgra, 3, 2, &area(1, 0, 1, 2)).unwrap();
    assert_eq!(f.data, vec![4, 5, 6, 7, 16, 17, 18, 19]);
    assert_eq!((f.width, f.height, f.stride), (1, 2, 4));
}

#[test]
fn frame_polling() {
    assert_eq!(frame_poll_step(0, true), FramePollAction::Take);
    assert_eq!(frame_poll_step(0, false), FramePollAction::WaitAndRetry);
    assert_eq!(frame_poll_step(98, false), FramePollAction::WaitAndRetry);
    assert_eq!(frame_poll_step(FRAME_POLL_ATTEMPTS - 1, false), FramePollAction::WaitAndGiveUp);
    assert_eq!(frame_poll_step(FRAME_POLL_ATTEMPTS - 1, true), FramePollAction::Take);
}

#[test]
fn sdr_round_trip_gives_cropped_rows() {
    // 3x3 RGBA image, pitch 16 (one padding pixel per row).
    let source: Vec<u8> = (0..48).collect();
    let info = area(1, 1, 2, 2);
    let frame = convert_sdr_to_bgra(&source, 16, 3, 3, &info).unwrap();
    let mut expected = Vec::new();
    for y in 1..3 {
        expected.extend_from_slice(&source[y * 16 + 4..y * 16 + 12]);
    }
    assert_eq!(frame.to_rgba(), expected);
}
