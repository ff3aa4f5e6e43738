use vstd::prelude::*;

use crate::error::ScreenshotError;
use crate::types::{FrameBuffer, FrameFormat, ScreenCaptureInfo, channel, red_blue_swapped, swap_red_blue};

verus! {

/// Byte `c` of the pixel in row `r`, column `col` of a tightly packed image `width` pixels
/// wide with four bytes per pixel.
pub open spec fn bgra_pixel(s: Seq<u8>, width: int, r: int, col: int, c: int) -> u8 {
    s[4 * (r * width + col) + c]
}

/// Byte `c` of the pixel in row `r`, column `col` of an image whose rows start `pitch` bytes
/// apart, four bytes per pixel.
pub open spec fn pitched_pixel(s: Seq<u8>, pitch: int, r: int, col: int, c: int) -> u8 {
    s[r * pitch + 4 * col + c]
}

pub open spec fn clamp(v: int, lo: int, hi: int) -> int {
    if v < lo {
        lo
    } else if v > hi {
        hi
    } else {
        v
    }
}

/// The part of a `source_width` x `source_height` frame that the capture keeps, as
/// `(x, y, width, height)`: the requested area clamped to the frame, or `None` when nothing
/// of it is left.
pub open spec fn spec_effective_crop(
    info_x: int,
    info_y: int,
    info_width: int,
    info_height: int,
    source_width: int,
    source_height: int,
) -> Option<(int, int, int, int)> {
    let start_x = clamp(info_x, 0, source_width - 1);
    let start_y = clamp(info_y, 0, source_height - 1);
    let end_x = clamp(info_x + info_width, 0, source_width);
    let end_y = clamp(info_y + info_height, 0, source_height);
    if end_x - start_x <= 0 || end_y - start_y <= 0 {
        None
    } else {
        Some((start_x, start_y, end_x - start_x, end_y - start_y))
    }
}

pub open spec fn crop_of(info: ScreenCaptureInfo, source_width: int, source_height: int) -> Option<
    (int, int, int, int),
> {
    spec_effective_crop(
        info.x as int,
        info.y as int,
        info.width as int,
        info.height as int,
        source_width,
        source_height,
    )
}

/// The area of the frame to keep; `InvalidCaptureRegion` when the requested area lies
/// outside the frame.
pub fn effective_crop(capture_info: &ScreenCaptureInfo, source_width: i32, source_height: i32) -> (r:
    Result<(u32, u32, u32, u32), ScreenshotError>)
    requires
        source_width >= 1,
        source_height >= 1,
        i32::MIN <= capture_info.x + capture_info.width <= i32::MAX,
        i32::MIN <= capture_info.y + capture_info.height <= i32::MAX,
    ensures
        r is Ok <==> crop_of(*capture_info, source_width as int, source_height as int) is Some,
        r matches Ok(t) ==> crop_of(*capture_info, source_width as int, source_height as int)
            == Some((t.0 as int, t.1 as int, t.2 as int, t.3 as int)),
        r matches Ok(t) ==> t.0 + t.2 <= source_width && t.1 + t.3 <= source_height && t.2 > 0
            && t.3 > 0,
        r matches Err(e) ==> e is InvalidCaptureRegion,
        r matches Ok(t) ==> t.0 + t.2 == (if capture_info.x + capture_info.width <= source_width {
            capture_info.x + capture_info.width
        } else {
            source_width as int
        }),
        r matches Ok(t) ==> t.1 + t.3 == (if capture_info.y + capture_info.height
            <= source_height {
            capture_info.y + capture_info.height
        } else {
            source_height as int
        }),
        r matches Ok(t) ==> (0 <= capture_info.x < source_width ==> t.0 == capture_info.x) && (
        capture_info.x < 0 ==> t.0 == 0) && (capture_info.x >= source_width ==> t.0
            == source_width - 1),
        r matches Ok(t) ==> (0 <= capture_info.y < source_height ==> t.1 == capture_info.y) && (
        capture_info.y < 0 ==> t.1 == 0) && (capture_info.y >= source_height ==> t.1
            == source_height - 1),
        r matches Ok(t) ==> t.0 + t.2 <= capture_info.x + capture_info.width && (capture_info.x
            < source_width ==> capture_info.x <= t.0),
        r matches Ok(t) ==> t.1 + t.3 <= capture_info.y + capture_info.height && (capture_info.y
            < source_height ==> capture_info.y <= t.1),
        r is Ok <==> (if capture_info.x + capture_info.width <= source_width {
            capture_info.x + capture_info.width
        } else {
            source_width as int
        }) > (if capture_info.x < 0 {
            0
        } else if capture_info.x >= source_width {
            source_width - 1
        } else {
            capture_info.x as int
        }) && (if capture_info.y + capture_info.height <= source_height {
            capture_info.y + capture_info.height
        } else {
            source_height as int
        }) > (if capture_info.y < 0 {
            0
        } else if capture_info.y >= source_height {
            source_height - 1
        } else {
            capture_info.y as int
        }),
{
    let x = capture_info.x;
    let y = capture_info.y;
    let max_x = source_width - 1;
    let max_y = source_height - 1;
    let start_x = if x < 0 {
        0
    } else if x > max_x {
        max_x
    } else {
        x
    };
    let start_y = if y < 0 {
        0
    } else if y > max_y {
        max_y
    } else {
        y
    };
    let ex = x + capture_info.width;
    let ey = y + capture_info.height;
    let end_x = if ex < 0 {
        0
    } else if ex > source_width {
        source_width
    } else {
        ex
    };
    let end_y = if ey < 0 {
        0
    } else if ey > source_height {
        source_height
    } else {
        ey
    };
    let crop_width = end_x - start_x;
    let crop_height = end_y - start_y;
    if crop_width <= 0 || crop_height <= 0 {
        return Err(ScreenshotError::InvalidCaptureRegion);
    }
    Ok((start_x as u32, start_y as u32, crop_width as u32, crop_height as u32))
}

proof fn lemma_pixel_before(r0: int, c0: int, r: int, c: int, w: int)
    requires
        0 <= r0,
        0 <= c0 < w,
        0 <= c <= w,
        (r0 < r) || (r0 == r && c0 < c),
    ensures
        r0 * w + c0 < r * w + c,
        0 <= r0 * w + c0,
{
    assert(r0 * w + c0 < r * w + c && 0 <= r0 * w + c0) by (nonlinear_arith)
        requires
            0 <= r0,
            0 <= c0 < w,
            0 <= c <= w,
            (r0 < r) || (r0 == r && c0 < c),
    ;
}

proof fn lemma_mul_le(a: int, b: int, m: int)
    requires
        0 <= a <= b,
        0 <= m,
    ensures
        a * m <= b * m,
        0 <= a * m,
{
    assert(a * m <= b * m && 0 <= a * m) by (nonlinear_arith)
        requires
            0 <= a <= b,
            0 <= m,
    ;
}

proof fn lemma_row_end(r: int, w: int)
    requires
        0 <= r,
        0 <= w,
    ensures
        r * w + w == (r + 1) * w,
{
    assert(r * w + w == (r + 1) * w) by (nonlinear_arith);
}

/// The pixels of the `width` x `height` block at (`x`, `y`) of a tightly packed source
/// `source_width` pixels wide, row after row. When the block is the whole source, the
/// source's bytes come back unchanged.
pub fn crop_bgra(
    data: &[u8],
    source_width: u32,
    source_height: u32,
    x: u32,
    y: u32,
    width: u32,
    height: u32,
) -> (r: Vec<u8>)
    requires
        !(x == 0 && y == 0 && width == source_width && height == source_height) ==> {
            &&& 4 * source_width <= usize::MAX
            &&& 4 * width * height <= usize::MAX
            &&& height == 0 || (y + height - 1 <= usize::MAX && 4 * ((y + height - 1) * source_width
                + x + width) <= data@.len())
        },
    ensures
        (x == 0 && y == 0 && width == source_width && height == source_height) ==> r@ == data@,
        !(x == 0 && y == 0 && width == source_width && height == source_height) ==> r@.len() == 4
            * width * height,
        forall|row: int, col: int, c: int|
            0 <= row < height && 0 <= col < width && 0 <= c < 4 && (!(x == 0 && y == 0 && width
                == source_width && height == source_height) || 4 * width * height <= data@.len())
                ==> #[trigger] bgra_pixel(r@, width as int, row, col, c) == bgra_pixel(
                data@,
                source_width as int,
                y + row,
                x + col,
                c,
            ),
{
    if x == 0 && y == 0 && width == source_width && height == source_height {
        let v = vstd::slice::slice_to_vec(data);
        return v;
    }
    let ghost w = width as int;
    let ghost sw = source_width as int;
    let stride = source_width as usize * 4;
    let mut cropped: Vec<u8> = Vec::new();
    let mut row: usize = 0;
    while row < height as usize
        invariant
            0 <= row <= height,
            w == width,
            sw == source_width,
            stride == 4 * sw,
            4 * source_width <= usize::MAX,
            4 * width * height <= usize::MAX,
            height == 0 || (y + height - 1 <= usize::MAX && 4 * ((y + height - 1) * source_width
                + x + width) <= data@.len()),
            data@.len() == data.len(),
            cropped@.len() == 4 * (row * w),
            forall|r0: int, c0: int, c: int|
                0 <= r0 < row && 0 <= c0 < width && 0 <= c < 4 ==> #[trigger] bgra_pixel(
                    cropped@,
                    w,
                    r0,
                    c0,
                    c,
                ) == bgra_pixel(data@, sw, y + r0, x + c0, c),
        decreases height - row,
    {
        proof {
            lemma_mul_le(y + row, y + height - 1, sw);
            assert((y + row) * stride == 4 * ((y + row) * sw)) by (nonlinear_arith)
                requires
                    stride == 4 * sw,
            ;
        }
        let start = (y as usize + row) * stride + x as usize * 4;
        let mut col: usize = 0;
        while col < width as usize
            invariant
                0 <= row < height,
                0 <= col <= width,
                w == width,
                sw == source_width,
                stride == 4 * sw,
                start == 4 * ((y + row) * sw + x),
                (y + row) * sw <= (y + height - 1) * sw,
                4 * ((y + height - 1) * source_width + x + width) <= data@.len(),
                4 * width * height <= usize::MAX,
                data@.len() == data.len(),
                cropped@.len() == 4 * (row * w + col),
                forall|r0: int, c0: int, c: int|
                    ((0 <= r0 < row && 0 <= c0 < width) || (r0 == row && 0 <= c0 < col)) && 0 <= c
                        < 4 ==> #[trigger] bgra_pixel(cropped@, w, r0, c0, c) == bgra_pixel(
                        data@,
                        sw,
                        y + r0,
                        x + c0,
                        c,
                    ),
            decreases width - col,
        {
            let ghost before = cropped@;
            let base = start + col * 4;
            assert(base + 4 <= data@.len());
            proof {
                lemma_pixel_before(row as int, col as int, height as int, 0, w);
                assert((row as int * w + col + 1) <= height * w);
                assert(4 * (row * w + col + 1) <= 4 * (width * height)) by (nonlinear_arith)
                    requires
                        row * w + col + 1 <= height * w,
                        w == width,
                ;
            }
            cropped.push(data[base]);
            cropped.push(data[base + 1]);
            cropped.push(data[base + 2]);
            cropped.push(data[base + 3]);
            proof {
                assert forall|r0: int, c0: int, c: int|
                    ((0 <= r0 < row && 0 <= c0 < width) || (r0 == row && 0 <= c0 < col + 1)) && 0
                        <= c < 4 implies #[trigger] bgra_pixel(cropped@, w, r0, c0, c)
                    == bgra_pixel(data@, sw, y + r0, x + c0, c) by {
                    if r0 == row && c0 == col {
                        assert(4 * (r0 * w + c0) + c == 4 * (row * w + col) + c);
                        assert(4 * ((y + r0) * sw + (x + c0)) + c == base + c);
                    } else {
                        lemma_pixel_before(r0, c0, row as int, col as int, w);
                        assert(bgra_pixel(before, w, r0, c0, c) == bgra_pixel(
                            data@,
                            sw,
                            y + r0,
                            x + c0,
                            c,
                        ));
                    }
                }
            }
            col = col + 1;
        }
        proof {
            lemma_row_end(row as int, w);
        }
        row = row + 1;
    }
    proof {
        assert(4 * (row * w) == 4 * width * height) by (nonlinear_arith)
            requires
                w == width,
                row == height,
        ;
    }
    cropped
}

/// Within a frame of at least one pixel, the kept area lies inside the frame.
pub proof fn lemma_crop_inside(info: ScreenCaptureInfo, source_width: int, source_height: int)
    requires
        source_width >= 1,
        source_height >= 1,
    ensures
        crop_of(info, source_width, source_height) matches Some(t) ==> 0 <= t.0 && 0 <= t.1 && 0
            < t.2 && 0 < t.3 && t.0 + t.2 <= source_width && t.1 + t.3 <= source_height,
{
}

proof fn lemma_crop_fits(cx: int, cy: int, cw: int, ch: int, w: int, h: int)
    requires
        0 <= cx,
        0 <= cy,
        1 <= cw,
        1 <= ch,
        cx + cw <= w,
        cy + ch <= h,
    ensures
        4 * ((cy + ch - 1) * w + cx + cw) <= 4 * w * h,
        4 * cw * ch <= 4 * w * h,
{
    assert((cy + ch) * w <= h * w) by (nonlinear_arith)
        requires
            0 <= cy + ch <= h,
            0 <= w,
    ;
    assert((cy + ch - 1) * w + w == (cy + ch) * w) by (nonlinear_arith);
    assert(4 * w * h == 4 * (h * w)) by (nonlinear_arith);
    assert(4 * cw * ch <= 4 * w * h) by (nonlinear_arith)
        requires
            1 <= cw <= w,
            1 <= ch <= h,
    ;
}

/// Crops a tightly packed BGRA frame to the area the capture asks for.
pub fn frame_from_bgra(
    bgra: &[u8],
    width: u32,
    height: u32,
    capture_info: &ScreenCaptureInfo,
) -> (r: Result<FrameBuffer, ScreenshotError>)
    requires
        1 <= width <= i32::MAX,
        1 <= height <= i32::MAX,
        bgra@.len() == 4 * width * height,
        4 * width <= usize::MAX,
        4 * width * height <= usize::MAX,
        i32::MIN <= capture_info.x + capture_info.width <= i32::MAX,
        i32::MIN <= capture_info.y + capture_info.height <= i32::MAX,
        crop_of(*capture_info, width as int, height as int) matches Some(t) ==> 4 * t.2
            <= u32::MAX,
    ensures
        r is Ok <==> crop_of(*capture_info, width as int, height as int) is Some,
        r matches Err(e) ==> e is InvalidCaptureRegion,
        r matches Ok(f) ==> crop_of(*capture_info, width as int, height as int) matches Some(t)
            && f.width == t.2 && f.height == t.3 && f.stride == 4 * t.2 && f.format
            == FrameFormat::Bgra8 && f.data@.len() == 4 * t.2 * t.3 && forall|row: int, col: int, c: int|
            0 <= row < t.3 && 0 <= col < t.2 && 0 <= c < 4 ==> #[trigger] bgra_pixel(
                f.data@,
                t.2,
                row,
                col,
                c,
            ) == bgra_pixel(bgra@, width as int, t.1 + row, t.0 + col, c),
{
    let (crop_x, crop_y, crop_width, crop_height) = effective_crop(
        capture_info,
        width as i32,
        height as i32,
    )?;
    proof {
        lemma_crop_fits(
            crop_x as int,
            crop_y as int,
            crop_width as int,
            crop_height as int,
            width as int,
            height as int,
        );
    }
    let data = crop_bgra(bgra, width, height, crop_x, crop_y, crop_width, crop_height);
    Ok(
        FrameBuffer {
            width: crop_width,
            height: crop_height,
            stride: crop_width * 4,
            format: FrameFormat::Bgra8,
            data,
        },
    )
}

/// `f` is the frame made of the RGBA rows of `src` (rows `pitch` bytes apart, `width` x
/// `height` pixels): the area the capture asks for, as tightly packed BGRA pixels.
pub open spec fn sdr_frame_of(
    src: Seq<u8>,
    pitch: int,
    width: int,
    height: int,
    info: ScreenCaptureInfo,
    f: FrameBuffer,
) -> bool {
    crop_of(info, width, height) matches Some(t) && f.width == t.2 && f.height == t.3 && f.stride
        == 4 * t.2 && f.format == FrameFormat::Bgra8 && f.data@.len() == 4 * t.2 * t.3 && forall|
        row: int,
        col: int,
        c: int,
    |
        0 <= row < t.3 && 0 <= col < t.2 && 0 <= c < 4 ==> #[trigger] bgra_pixel(
            f.data@,
            t.2,
            row,
            col,
            c,
        ) == pitched_pixel(src, pitch, t.1 + row, t.0 + col, swap_red_blue(c))
}

/// Rows `cy` to `cy + rows - 1` of an image whose rows start `pitch` bytes apart, each cut to
/// the `cw` four-byte pixels from column `cx`, one after another.
pub open spec fn cropped_rows(src: Seq<u8>, pitch: int, cx: int, cy: int, cw: int, rows: nat) -> Seq<
    u8,
>
    decreases rows,
{
    if rows == 0 {
        seq![]
    } else {
        let y = cy + rows - 1;
        cropped_rows(src, pitch, cx, cy, cw, (rows - 1) as nat) + src.subrange(
            y * pitch + 4 * cx,
            y * pitch + 4 * (cx + cw),
        )
    }
}

proof fn lemma_pixel_in_frame(r: int, col: int, cw: int, ch: int)
    requires
        0 <= r < ch,
        0 <= col < cw,
    ensures
        0 <= r * cw + col < cw * ch,
        4 * (r * cw + col) == 4 * cw * r + 4 * col,
{
    assert(0 <= r * cw + col < cw * ch && 4 * (r * cw + col) == 4 * cw * r + 4 * col)
        by (nonlinear_arith)
        requires
            0 <= r < ch,
            0 <= col < cw,
    ;
}

/// The round trip of an SDR capture: turning the BGRA frame made from RGBA source rows back
/// into RGBA gives exactly the source rows of the captured area, row after row.
pub proof fn lemma_sdr_rgba_round_trip(
    src: Seq<u8>,
    pitch: int,
    width: int,
    height: int,
    info: ScreenCaptureInfo,
    f: FrameBuffer,
    rgba: Seq<u8>,
)
    requires
        1 <= width,
        1 <= height,
        0 <= pitch,
        (height - 1) * pitch + 4 * width <= src.len(),
        sdr_frame_of(src, pitch, width, height, info, f),
        red_blue_swapped(f.data@, rgba),
    ensures
        crop_of(info, width, height) matches Some(t) && rgba == cropped_rows(
            src,
            pitch,
            t.0,
            t.1,
            t.2,
            t.3 as nat,
        ),
{
    lemma_crop_inside(info, width, height);
    let t = crop_of(info, width, height)->0;
    let (cx, cy, cw, ch) = t;
    let d = f.data@;
    assert(d.len() / 4 == cw * ch) by {
        assert(d.len() == 4 * (cw * ch)) by (nonlinear_arith)
            requires
                d.len() == 4 * cw * ch,
        ;
    }
    // Every pixel of the round trip is the source pixel.
    assert forall|r: int, col: int, c: int|
        0 <= r < ch && 0 <= col < cw && 0 <= c < 4 implies #[trigger] bgra_pixel(rgba, cw, r, col, c)
        == pitched_pixel(src, pitch, cy + r, cx + col, c) by {
        lemma_pixel_in_frame(r, col, cw, ch);
        let p = r * cw + col;
        assert(channel(rgba, p, c) == channel(d, p, swap_red_blue(c)));
        assert(bgra_pixel(d, cw, r, col, swap_red_blue(c)) == pitched_pixel(
            src,
            pitch,
            cy + r,
            cx + col,
            swap_red_blue(swap_red_blue(c)),
        ));
    }
    lemma_rows_match(src, pitch, cx, cy, cw, ch, width, height, rgba, ch as nat);
    assert(rgba.len() == 4 * (cw * ch));
    assert(4 * cw * ch == 4 * (cw * ch)) by (nonlinear_arith);
    assert(rgba.take(4 * cw * ch) =~= rgba);
}

proof fn lemma_rows_match(
    src: Seq<u8>,
    pitch: int,
    cx: int,
    cy: int,
    cw: int,
    ch: int,
    width: int,
    height: int,
    rgba: Seq<u8>,
    rows: nat,
)
    requires
        0 <= cx,
        0 <= cy,
        1 <= cw,
        rows <= ch,
        cy + ch <= height,
        cx + cw <= width,
        0 <= pitch,
        (height - 1) * pitch + 4 * width <= src.len(),
        rgba.len() == 4 * (cw * ch),
        forall|r: int, col: int, c: int|
            0 <= r < ch && 0 <= col < cw && 0 <= c < 4 ==> #[trigger] bgra_pixel(rgba, cw, r, col, c)
                == pitched_pixel(src, pitch, cy + r, cx + col, c),
    ensures
        4 * cw * rows <= rgba.len(),
        rgba.take(4 * cw * rows) == cropped_rows(src, pitch, cx, cy, cw, rows),
    decreases rows,
{
    assert(4 * cw * rows <= 4 * (cw * ch)) by (nonlinear_arith)
        requires
            rows <= ch,
            1 <= cw,
    ;
    if rows == 0 {
        assert(4 * cw * rows == 0) by (nonlinear_arith)
            requires
                rows == 0,
        ;
        assert(rgba.take(0) =~= Seq::<u8>::empty());
    } else {
        let r = rows - 1;
        lemma_rows_match(src, pitch, cx, cy, cw, ch, width, height, rgba, (rows - 1) as nat);
        let start = 4 * cw * r;
        assert(4 * cw * rows == start + 4 * cw) by (nonlinear_arith)
            requires
                r == rows - 1,
                start == 4 * cw * r,
        ;
        let y = cy + r;
        assert(y * pitch <= (height - 1) * pitch) by (nonlinear_arith)
            requires
                0 <= y <= height - 1,
                0 <= pitch,
        ;
        assert(0 <= y * pitch) by (nonlinear_arith)
            requires
                0 <= y,
                0 <= pitch,
        ;
        let seg = src.subrange(y * pitch + 4 * cx, y * pitch + 4 * (cx + cw));
        assert forall|j: int| 0 <= j < 4 * cw implies rgba[start + j] == #[trigger] seg[j] by {
            let col = j / 4;
            let c = j % 4;
            assert(j == 4 * col + c && 0 <= c < 4 && 0 <= col < cw);
            lemma_pixel_in_frame(r, col, cw, ch);
            assert(bgra_pixel(rgba, cw, r, col, c) == pitched_pixel(src, pitch, cy + r, cx + col, c));
            assert(4 * (cx + col) + c == 4 * cx + j);
        }
        assert(rgba.take(4 * cw * rows) =~= rgba.take(start) + seg);
        assert(rgba.take(start) == cropped_rows(src, pitch, cx, cy, cw, (rows - 1) as nat));
        assert(cropped_rows(src, pitch, cx, cy, cw, rows) == cropped_rows(
            src,
            pitch,
            cx,
            cy,
            cw,
            (rows - 1) as nat,
        ) + seg);
    }
}

/// Turns rows of RGBA pixels, `row_pitch` bytes apart, into a tightly packed BGRA frame
/// cropped to the area the capture asks for.
pub fn convert_sdr_to_bgra(
    source: &[u8],
    row_pitch: usize,
    width: u32,
    height: u32,
    capture_info: &ScreenCaptureInfo,
) -> (r: Result<FrameBuffer, ScreenshotError>)
    requires
        1 <= width <= i32::MAX,
        1 <= height <= i32::MAX,
        (height - 1) * row_pitch + 4 * width <= source@.len(),
        4 * width * height <= usize::MAX,
        i32::MIN <= capture_info.x + capture_info.width <= i32::MAX,
        i32::MIN <= capture_info.y + capture_info.height <= i32::MAX,
        crop_of(*capture_info, width as int, height as int) matches Some(t) ==> 4 * t.2
            <= u32::MAX,
    ensures
        r is Ok <==> crop_of(*capture_info, width as int, height as int) is Some,
        r matches Err(e) ==> e is InvalidCaptureRegion,
        r matches Ok(f) ==> sdr_frame_of(
            source@,
            row_pitch as int,
            width as int,
            height as int,
            *capture_info,
            f,
        ),
{
    let ghost w = width as int;
    let ghost pitch = row_pitch as int;
    let mut bgra: Vec<u8> = Vec::new();
    let mut y: usize = 0;
    while y < height as usize
        invariant
            0 <= y <= height,
            w == width,
            pitch == row_pitch,
            (height - 1) * row_pitch + 4 * width <= source@.len(),
            4 * width * height <= usize::MAX,
            source@.len() == source.len(),
            bgra@.len() == 4 * (y * w),
            forall|r0: int, c0: int, c: int|
                0 <= r0 < y && 0 <= c0 < width && 0 <= c < 4 ==> #[trigger] bgra_pixel(
                    bgra@,
                    w,
                    r0,
                    c0,
                    c,
                ) == pitched_pixel(source@, pitch, r0, c0, swap_red_blue(c)),
        decreases height - y,
    {
        proof {
            lemma_mul_le(y as int, height - 1, pitch);
        }
        let row_start = y * row_pitch;
        let mut x: usize = 0;
        while x < width as usize
            invariant
                0 <= y < height,
                0 <= x <= width,
                w == width,
                pitch == row_pitch,
                row_start == y * pitch,
                y * pitch <= (height - 1) * pitch,
                (height - 1) * row_pitch + 4 * width <= source@.len(),
                4 * width * height <= usize::MAX,
                source@.len() == source.len(),
                bgra@.len() == 4 * (y * w + x),
                forall|r0: int, c0: int, c: int|
                    ((0 <= r0 < y && 0 <= c0 < width) || (r0 == y && 0 <= c0 < x)) && 0 <= c < 4
                        ==> #[trigger] bgra_pixel(bgra@, w, r0, c0, c) == pitched_pixel(
                        source@,
                        pitch,
                        r0,
                        c0,
                        swap_red_blue(c),
                    ),
            decreases width - x,
        {
            let ghost before = bgra@;
            let base = row_start + x * 4;
            assert(base + 4 <= source@.len());
            proof {
                lemma_pixel_before(y as int, x as int, height as int, 0, w);
                assert(4 * (y * w + x + 1) <= 4 * (width * height)) by (nonlinear_arith)
                    requires
                        y * w + x + 1 <= height * w,
                        w == width,
                ;
            }
            bgra.push(source[base + 2]);
            bgra.push(source[base + 1]);
            bgra.push(source[base]);
            bgra.push(source[base + 3]);
            proof {
                assert forall|r0: int, c0: int, c: int|
                    ((0 <= r0 < y && 0 <= c0 < width) || (r0 == y && 0 <= c0 < x + 1)) && 0 <= c
                        < 4 implies #[trigger] bgra_pixel(bgra@, w, r0, c0, c) == pitched_pixel(
                    source@,
                    pitch,
                    r0,
                    c0,
                    swap_red_blue(c),
                ) by {
                    if r0 == y && c0 == x {
                        assert(4 * (r0 * w + c0) + c == 4 * (y * w + x) + c);
                    } else {
                        lemma_pixel_before(r0, c0, y as int, x as int, w);
                        assert(bgra_pixel(before, w, r0, c0, c) == pitched_pixel(
                            source@,
                            pitch,
                            r0,
                            c0,
                            swap_red_blue(c),
                        ));
                    }
                }
            }
            x = x + 1;
        }
        proof {
            lemma_row_end(y as int, w);
        }
        y = y + 1;
    }
    proof {
        assert(4 * (height * w) == 4 * width * height && 4 * width <= 4 * width * height)
            by (nonlinear_arith)
            requires
                w == width,
                height >= 1,
                width >= 1,
        ;
    }
    let r = frame_from_bgra(bgra.as_slice(), width, height, capture_info);
    proof {
        lemma_crop_inside(*capture_info, width as int, height as int);
    }
    r
}

/// Number of times a capture polls for a frame before giving up.
pub const FRAME_POLL_ATTEMPTS: u32 = 100;

/// Milliseconds to wait between two polls for a frame.
pub const FRAME_POLL_INTERVAL_MS: u64 = 10;

/// What to do after polling the frame pool once.
#[derive(Debug, Clone, Copy, PartialEq, Eq, Structural)]
pub enum FramePollAction {
    /// A frame arrived: take it.
    Take,
    /// No frame yet: wait, then poll again.
    WaitAndRetry,
    /// No frame yet: wait, then give up with `FrameTimeout`.
    WaitAndGiveUp,
}

/// Decides the next step of waiting for a frame after poll number `attempt` (counted from
/// zero): a frame that arrived is taken; otherwise the capture waits, and polls again unless
/// that was the last of `FRAME_POLL_ATTEMPTS` polls.
pub fn frame_poll_step(attempt: u32, frame_ready: bool) -> (r: FramePollAction)
    requires
        attempt < FRAME_POLL_ATTEMPTS,
    ensures
        frame_ready ==> r == FramePollAction::Take,
        !frame_ready && attempt + 1 < FRAME_POLL_ATTEMPTS ==> r == FramePollAction::WaitAndRetry,
        !frame_ready && attempt + 1 == FRAME_POLL_ATTEMPTS ==> r == FramePollAction::WaitAndGiveUp,
{
    if frame_ready {
        FramePollAction::Take
    } else if attempt + 1 < FRAME_POLL_ATTEMPTS {
        FramePollAction::WaitAndRetry
    } else {
        FramePollAction::WaitAndGiveUp
    }
}

} // verus!
