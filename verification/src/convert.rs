//! The pixel converter: extracts a sub-rectangle from a raw captured
//! frame and repacks each pixel from the source's 4-byte-per-pixel
//! layout (blue, green, red, unused) into a packed 32-bit value with
//! red in bits 16..=23, green in bits 8..=15 and blue in bits 0..=7.

use vstd::prelude::*;
use crate::region::Rect;

verus! {

/// The packed 32-bit value read from the three channel bytes at byte
/// offset `i` of the raw frame: `0x00RRGGBB` from bytes `b`, `g`, `r`
/// at `i`, `i + 1`, `i + 2`.
pub open spec fn packed_pixel(frame: Seq<u8>, i: int) -> u32
    recommends
        0 <= i,
        i + 2 < frame.len(),
{
    ((frame[i + 2] as u32) << 16) | ((frame[i + 1] as u32) << 8) | (frame[i] as u32)
}

/// The byte offset of pixel `(x, y)` in a frame whose rows are `stride`
/// bytes apart, four bytes to a pixel.
pub open spec fn pixel_offset(stride: int, x: int, y: int) -> int {
    stride * y + 4 * x
}

/// The pixel at offset `i` can be read whole from the frame.
pub open spec fn offset_in_frame(frame: Seq<u8>, i: int) -> bool {
    i + 2 < frame.len()
}

/// The packed pixels of one row `y`, columns `x0 .. x0 + n`, in order;
/// a pixel whose channel bytes would reach past the frame's end is
/// dropped from the output.
pub open spec fn row_pixels(frame: Seq<u8>, stride: int, y: int, x0: int, n: nat) -> Seq<u32>
    decreases n,
{
    if n == 0 {
        Seq::empty()
    } else {
        let rest = row_pixels(frame, stride, y, x0, (n - 1) as nat);
        let i = pixel_offset(stride, x0 + n - 1, y);
        if offset_in_frame(frame, i) {
            rest.push(packed_pixel(frame, i))
        } else {
            rest
        }
    }
}

/// The packed pixels of rows `y0 .. y0 + m`, each row's pixels in
/// column order, rows concatenated top to bottom.
pub open spec fn rows_pixels(
    frame: Seq<u8>,
    stride: int,
    y0: int,
    m: nat,
    x0: int,
    n: nat,
) -> Seq<u32>
    decreases m,
{
    if m == 0 {
        Seq::empty()
    } else {
        rows_pixels(frame, stride, y0, (m - 1) as nat, x0, n) + row_pixels(
            frame,
            stride,
            y0 + m - 1,
            x0,
            n,
        )
    }
}

/// Everything `convert` produces: the packed pixels of the rectangle's
/// rows, read from the frame at the given stride.
pub open spec fn converted(frame: Seq<u8>, stride: int, r: Rect) -> Seq<u32> {
    rows_pixels(frame, stride, r.y as int, r.h as nat, r.x as int, r.w as nat)
}

/// The stride of a raw frame: its byte length spread evenly over the
/// display's rows. Rows may carry padding past `4 * width`, so the
/// stride is derived from the frame's actual size, never assumed.
pub fn frame_stride(frame_len: usize, display_h: usize) -> (r: usize)
    requires
        display_h > 0,
    ensures
        r == frame_len as int / display_h as int,
{
    frame_len / display_h
}

proof fn lemma_row_complete(frame: Seq<u8>, stride: int, y: int, x0: int, n: nat)
    requires
        forall|xx: int| x0 <= xx < x0 + n ==> offset_in_frame(frame, pixel_offset(stride, xx, y)),
    ensures
        row_pixels(frame, stride, y, x0, n).len() == n,
        forall|k: int|
            0 <= k < n ==> #[trigger] row_pixels(frame, stride, y, x0, n)[k] == packed_pixel(
                frame,
                pixel_offset(stride, x0 + k, y),
            ),
    decreases n,
{
    if n > 0 {
        lemma_row_complete(frame, stride, y, x0, (n - 1) as nat);
        assert(offset_in_frame(frame, pixel_offset(stride, x0 + (n - 1), y)));
    }
}

proof fn lemma_rows_complete(frame: Seq<u8>, stride: int, y0: int, m: nat, x0: int, n: nat)
    requires
        forall|xx: int, yy: int|
            x0 <= xx < x0 + n && y0 <= yy < y0 + m ==> offset_in_frame(
                frame,
                pixel_offset(stride, xx, yy),
            ),
    ensures
        rows_pixels(frame, stride, y0, m, x0, n).len() == m * n,
        forall|idx: int|
            0 <= idx < m * n ==> #[trigger] rows_pixels(frame, stride, y0, m, x0, n)[idx]
                == packed_pixel(frame, pixel_offset(stride, x0 + (idx % n as int), y0 + (idx / n as int))),
    decreases m,
{
    if m == 0 {
        assert(m * n == 0) by (nonlinear_arith)
            requires
                m == 0,
        ;
    } else {
        let prev = rows_pixels(frame, stride, y0, (m - 1) as nat, x0, n);
        let last = row_pixels(frame, stride, y0 + m - 1, x0, n);
        let cur = rows_pixels(frame, stride, y0, m, x0, n);
        lemma_rows_complete(frame, stride, y0, (m - 1) as nat, x0, n);
        lemma_row_complete(frame, stride, y0 + m - 1, x0, n);
        assert(m * n == (m - 1) * n + n) by (nonlinear_arith);
        assert(cur == prev + last);
        assert(cur.len() == m * n);
        assert forall|idx: int| 0 <= idx < m * n implies #[trigger] cur[idx] == packed_pixel(
            frame,
            pixel_offset(stride, x0 + (idx % n as int), y0 + (idx / n as int)),
        ) by {
            if idx < (m - 1) * n {
                assert(cur[idx] == prev[idx]);
            } else {
                let j = idx - (m - 1) * n;
                assert(cur[idx] == last[j]);
                assert(last[j] == packed_pixel(frame, pixel_offset(stride, x0 + j, y0 + m - 1)));
                vstd::arithmetic::div_mod::lemma_fundamental_div_mod_converse(
                    idx,
                    n as int,
                    m - 1,
                    j,
                );
            }
        }
    }
}

/// When every pixel of the rectangle lies whole inside the frame, the
/// conversion drops nothing: it yields exactly `r.w * r.h` packed
/// values, and the `idx`-th of them — row-major, so row `idx / r.w`
/// and column `idx % r.w` of the rectangle — is the value read at byte
/// offset `stride * (r.y + idx / r.w) + 4 * (r.x + idx % r.w)`.
pub proof fn lemma_converted_complete(frame: Seq<u8>, stride: int, r: Rect)
    requires
        forall|xx: int, yy: int|
            r.x <= xx < r.x + r.w && r.y <= yy < r.y + r.h ==> offset_in_frame(
                frame,
                pixel_offset(stride, xx, yy),
            ),
    ensures
        converted(frame, stride, r).len() == r.w * r.h,
        forall|idx: int|
            0 <= idx < r.w * r.h ==> #[trigger] converted(frame, stride, r)[idx] == packed_pixel(
                frame,
                pixel_offset(stride, r.x + (idx % r.w as int), r.y + (idx / r.w as int)),
            ),
{
    lemma_rows_complete(frame, stride, r.y as int, r.h as nat, r.x as int, r.w as nat);
    assert((r.h as nat) * (r.w as nat) == r.w * r.h) by (nonlinear_arith);
}

/// Extracts the rectangle `r` from a raw frame and repacks it.
///
/// The output holds, row by row, the packed value of every pixel of the
/// rectangle whose three channel bytes lie inside the frame; a pixel
/// whose bytes would reach past the frame's end is dropped silently.
/// When no pixel is dropped the output holds exactly `r.w * r.h`
/// values (`lemma_converted_complete`).
#[verifier::loop_isolation(false)]
pub fn convert(frame: &[u8], stride: usize, r: &Rect) -> (out: Vec<u32>)
    requires
        r.x + r.w <= usize::MAX,
        r.y + r.h <= usize::MAX,
    ensures
        out@ == converted(frame@, stride as int, *r),
{
    let mut out: Vec<u32> = Vec::new();
    let len = frame.len();
    let mut row: usize = 0;
    while row < r.h
        invariant
            row <= r.h,
            out@ == rows_pixels(frame@, stride as int, r.y as int, row as nat, r.x as int, r.w as nat),
        decreases r.h - row,
    {
        let y = r.y + row;
        let mut col: usize = 0;
        while col < r.w
            invariant
                col <= r.w,
                y == r.y + row,
                row < r.h,
                out@ == rows_pixels(frame@, stride as int, r.y as int, row as nat, r.x as int, r.w as nat)
                    + row_pixels(frame@, stride as int, y as int, r.x as int, col as nat),
            decreases r.w - col,
        {
            let x = r.x + col;
            let ghost i_spec = pixel_offset(stride as int, x as int, y as int);
            let idx = match stride.checked_mul(y) {
                Some(sy) => match x.checked_mul(4) {
                    Some(x4) => sy.checked_add(x4),
                    None => None,
                },
                None => None,
            };
            proof {
                let prior = rows_pixels(
                    frame@,
                    stride as int,
                    r.y as int,
                    row as nat,
                    r.x as int,
                    r.w as nat,
                );
                let cur = row_pixels(frame@, stride as int, y as int, r.x as int, col as nat);
                let nxt = row_pixels(frame@, stride as int, y as int, r.x as int, (col + 1) as nat);
                if offset_in_frame(frame@, i_spec) {
                    assert(prior + nxt =~= (prior + cur).push(packed_pixel(frame@, i_spec)));
                } else {
                    assert(prior + nxt =~= prior + cur);
                }
            }
            match idx {
                Some(i) if i < len && len - i > 2 => {
                    let b = frame[i];
                    let g = frame[i + 1];
                    let rc = frame[i + 2];
                    let px: u32 = ((rc as u32) << 16) | ((g as u32) << 8) | (b as u32);
                    out.push(px);
                },
                _ => {
                    proof {
                        assert(!offset_in_frame(frame@, i_spec));
                    }
                },
            }
            col = col + 1;
        }
        proof {
            let nxt = rows_pixels(
                frame@,
                stride as int,
                r.y as int,
                (row + 1) as nat,
                r.x as int,
                r.w as nat,
            );
            assert(nxt == rows_pixels(frame@, stride as int, r.y as int, row as nat, r.x as int, r.w as nat)
                + row_pixels(frame@, stride as int, r.y as int + row, r.x as int, r.w as nat));
        }
        row = row + 1;
    }
    out
}

} // verus!
