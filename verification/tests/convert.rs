use focus::convert::{convert, frame_stride};
use focus::Rect;

/// A synthetic frame: `h` rows of `stride` bytes, byte `k` holding
/// `(k % 251) as u8` so every offset is distinguishable.
fn synthetic_frame(stride: usize, h: usize) -> Vec<u8> {
    (0..stride * h).map(|k| (k % 251) as u8).collect()
}

fn expected_pixel(frame: &[u8], i: usize) -> u32 {
    ((frame[i + 2] as u32) << 16) | ((frame[i + 1] as u32) << 8) | (frame[i] as u32)
}

#[test]
fn packs_bgr_bytes_into_rgb_value() {
    // One pixel: blue 1, green 2, red 3, alpha ignored.
    let frame = [1u8, 2, 3, 0xff];
    let rect = Rect { x: 0, y: 0, w: 1, h: 1 };
    let out = convert(&frame, 4, &rect);
    assert_eq!(out, vec![0x0003_0201]);
}

#[test]
fn every_in_bounds_pixel_matches_formula() {
    // 4x3 display, stride padded beyond width * 4.
    let stride = 4 * 4 + 8;
    let frame = synthetic_frame(stride, 3);
    let rect = Rect { x: 1, y: 1, w: 3, h: 2 };
    let out = convert(&frame, stride, &rect);
    assert_eq!(out.len(), rect.w * rect.h);
    for row in 0..rect.h {
        for col in 0..rect.w {
            let i = stride * (rect.y + row) + 4 * (rect.x + col);
            assert_eq!(out[row * rect.w + col], expected_pixel(&frame, i));
        }
    }
}

#[test]
fn full_frame_length_is_w_times_h() {
    let stride = 8 * 4;
    let frame = synthetic_frame(stride, 5);
    let rect = Rect { x: 0, y: 0, w: 8, h: 5 };
    let out = convert(&frame, stride, &rect);
    assert_eq!(out.len(), 40);
}

#[test]
fn out_of_bounds_pixels_are_dropped() {
    // The frame ends mid-row: pixels past its end are skipped, the
    // rest still come out in order.
    let stride = 4 * 4;
    let mut frame = synthetic_frame(stride, 2);
    frame.truncate(stride + 8); // second row only has two whole pixels
    let rect = Rect { x: 0, y: 0, w: 4, h: 2 };
    let out = convert(&frame, stride, &rect);
    // Row 0: all four pixels; row 1: offsets 16, 20 readable (their
    // third byte must lie strictly inside the frame), offset 20's
    // last byte is at 22 < 24, offset 24 and 28 are past the end.
    let readable: Vec<u32> = (0..4)
        .map(|x| expected_pixel(&frame, 4 * x))
        .chain((0..2).map(|x| expected_pixel(&frame, stride + 4 * x)))
        .collect();
    assert_eq!(out, readable);
}

#[test]
fn stride_is_read_from_the_frame() {
    // 1080 rows of 1920 pixels, each row padded to 8192 bytes.
    assert_eq!(frame_stride(8192 * 1080, 1080), 8192);
    assert_eq!(frame_stride(0, 3), 0);
    assert_eq!(frame_stride(25, 2), 12);
}

#[test]
fn empty_rectangle_yields_empty_buffer() {
    let frame = synthetic_frame(16, 2);
    let rect = Rect { x: 0, y: 0, w: 0, h: 2 };
    assert_eq!(convert(&frame, 16, &rect), Vec::<u32>::new());
    let rect = Rect { x: 0, y: 0, w: 4, h: 0 };
    assert_eq!(convert(&frame, 16, &rect), Vec::<u32>::new());
}

#[test]
fn zero_stride_reads_row_zero_repeatedly() {
    // A degenerate stride folds every row onto the first.
    let frame = synthetic_frame(16, 1);
    let rect = Rect { x: 0, y: 0, w: 2, h: 3 };
    let out = convert(&frame, 0, &rect);
    let row: Vec<u32> = (0..2).map(|x| expected_pixel(&frame, 4 * x)).collect();
    let mut expect = Vec::new();
    for _ in 0..3 {
        expect.extend_from_slice(&row);
    }
    assert_eq!(out, expect);
}
