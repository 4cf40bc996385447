//! Conversion of a camera frame into the 0RGB pixel buffer of the preview
//! window, scaled by nearest-neighbour sampling.
use vstd::prelude::*;
use vstd::arithmetic::div_mod::{lemma_fundamental_div_mod_converse, lemma_div_is_ordered, lemma_div_pos_is_pos};
use crate::frame::{Frame, FrameError, frame_indexable};

verus! {

/// Width of the preview window.
pub const PREVIEW_WIDTH: usize = 640;
/// Height of the preview window.
pub const PREVIEW_HEIGHT: usize = 480;

/// Byte `i` of `data`, or zero when there is no such byte.
pub open spec fn byte_or_zero(data: Seq<u8>, i: int) -> int {
    if 0 <= i < data.len() { data[i] as int } else { 0 }
}

/// The 0RGB word of the source pixel that output pixel (x, y) samples when a
/// `width` x `height` frame is scaled to `out_width` x `out_height`: source
/// column `x * width / out_width`, source row `y * height / out_height`;
/// missing bytes read as zero.
pub open spec fn resized_pixel(data: Seq<u8>, width: int, height: int, out_width: int, out_height: int, x: int, y: int) -> u32 {
    let sx = x * width / out_width;
    let sy = y * height / out_height;
    let idx = (sy * width + sx) * 3;
    (byte_or_zero(data, idx) * 65536 + byte_or_zero(data, idx + 1) * 256 + byte_or_zero(data, idx + 2)) as u32
}

/// The 0RGB word of the pixel in column `sx` and row `sy` of a frame
/// `width` pixels wide; missing bytes read as zero.
pub open spec fn source_pixel(data: Seq<u8>, width: int, sx: int, sy: int) -> u32 {
    let idx = (sy * width + sx) * 3;
    (byte_or_zero(data, idx) * 65536 + byte_or_zero(data, idx + 1) * 256 + byte_or_zero(data, idx + 2)) as u32
}

/// Nearest-neighbour sampling, axis by axis: output pixel (x, y) of a
/// `width` x `height` frame scaled to `out_width` x `out_height` is the source
/// pixel (sx, sy) whose column lies where `x` falls in proportion to the
/// widths and whose row lies where `y` falls in proportion to the heights:
/// `sx <= x * width / out_width < sx + 1` and
/// `sy <= y * height / out_height < sy + 1`.
pub proof fn lemma_resized_pixel_samples(data: Seq<u8>, width: int, height: int, out_width: int,
    out_height: int, x: int, y: int, sx: int, sy: int)
    requires
        width > 0,
        height > 0,
        out_width > 0,
        out_height > 0,
        sx * out_width <= x * width < (sx + 1) * out_width,
        sy * out_height <= y * height < (sy + 1) * out_height,
    ensures
        resized_pixel(data, width, height, out_width, out_height, x, y) == source_pixel(data, width, sx, sy),
{
    assert((sx + 1) * out_width == sx * out_width + out_width) by (nonlinear_arith);
    assert((sy + 1) * out_height == sy * out_height + out_height) by (nonlinear_arith);
    lemma_fundamental_div_mod_converse(x * width, out_width, sx, x * width - sx * out_width);
    lemma_fundamental_div_mod_converse(y * height, out_height, sy, y * height - sy * out_height);
}

/// Scaling a frame to its own size keeps every pixel where it is: output
/// pixel (x, y) is the frame's pixel (x, y).
pub proof fn lemma_same_size_keeps_pixels(data: Seq<u8>, width: int, height: int, x: int, y: int)
    requires
        width > 0,
        height > 0,
        0 <= x < width,
        0 <= y < height,
    ensures
        resized_pixel(data, width, height, width, height, x, y) == ({
            let idx = (y * width + x) * 3;
            (byte_or_zero(data, idx) * 65536 + byte_or_zero(data, idx + 1) * 256 + byte_or_zero(data, idx + 2)) as u32
        }),
{
    lemma_fundamental_div_mod_converse(x * width, width, x, 0);
    lemma_fundamental_div_mod_converse(y * height, height, y, 0);
}

/// Scales the frame to `target_width` x `target_height` by nearest-neighbour
/// sampling and packs each pixel as `0x00RRGGBB`, row after row.  A frame
/// without pixels is refused.
pub fn rgb_to_u32_resized(frame: &Frame, target_width: usize, target_height: usize) -> (r: Result<Vec<u32>, FrameError>)
    requires
        frame_indexable(frame.width as int, frame.height as int),
        target_width * frame.width <= usize::MAX,
        target_height * frame.height <= usize::MAX,
        target_width * target_height <= usize::MAX,
    ensures
        match r {
            Err(e) => (frame.width == 0 || frame.height == 0)
                && e == (FrameError::InvalidFrameSize { width: frame.width, height: frame.height }),
            Ok(out) => {
                &&& frame.width > 0 && frame.height > 0
                &&& out.len() == target_width * target_height
                &&& forall|x: int, y: int| 0 <= x < target_width && 0 <= y < target_height ==>
                    #[trigger] out@[y * target_width + x] == resized_pixel(frame.data@, frame.width as int,
                        frame.height as int, target_width as int, target_height as int, x, y)
            },
        },
{
    if frame.width == 0 || frame.height == 0 {
        return Err(FrameError::InvalidFrameSize { width: frame.width, height: frame.height });
    }
    let ghost w = frame.width as int;
    let ghost h = frame.height as int;
    let ghost tw = target_width as int;
    let ghost th = target_height as int;
    let mut out: Vec<u32> = Vec::new();
    let mut y: usize = 0;
    while y < target_height
        invariant
            0 <= y <= target_height,
            w == frame.width, h == frame.height, tw == target_width, th == target_height,
            w > 0, h > 0,
            frame_indexable(w, h),
            tw * w <= usize::MAX,
            th * h <= usize::MAX,
            tw * th <= usize::MAX,
            out.len() == y * tw,
            forall|k: int| 0 <= k < out.len() ==>
                #[trigger] out@[k] == resized_pixel(frame.data@, w, h, tw, th, k % tw, k / tw),
        decreases target_height - y,
    {
        proof {
            assert(0 <= y * h <= (h - 1) * th + (th - 1)) by (nonlinear_arith)
                requires 0 <= y < th, h > 0;
            assert(y * h < th * h) by (nonlinear_arith) requires 0 <= y < th, h > 0;
            lemma_div_is_ordered(y * h, (h - 1) * th + (th - 1), th);
            lemma_fundamental_div_mod_converse((h - 1) * th + (th - 1), th, h - 1, th - 1);
            lemma_div_pos_is_pos(y * h, th);
        }
        let src_y = y * frame.height / target_height;
        let mut x: usize = 0;
        while x < target_width
            invariant
                0 <= y < target_height,
                0 <= x <= target_width,
                w == frame.width, h == frame.height, tw == target_width, th == target_height,
                w > 0, h > 0,
                frame_indexable(w, h),
                tw * w <= usize::MAX,
                th * h <= usize::MAX,
                tw * th <= usize::MAX,
                0 <= src_y < h,
                src_y == y * h / th,
                out.len() == y * tw + x,
                forall|k: int| 0 <= k < out.len() ==>
                    #[trigger] out@[k] == resized_pixel(frame.data@, w, h, tw, th, k % tw, k / tw),
            decreases target_width - x,
        {
            proof {
                assert(0 <= x * w <= (w - 1) * tw + (tw - 1)) by (nonlinear_arith)
                    requires 0 <= x < tw, w > 0;
                assert(x * w < tw * w) by (nonlinear_arith) requires 0 <= x < tw, w > 0;
                lemma_div_pos_is_pos(x * w, tw);
                lemma_div_is_ordered(x * w, (w - 1) * tw + (tw - 1), tw);
                lemma_fundamental_div_mod_converse((w - 1) * tw + (tw - 1), tw, w - 1, tw - 1);
            }
            let src_x = x * frame.width / target_width;
            proof {
                assert(src_y * w + src_x < w * h) by (nonlinear_arith)
                    requires 0 <= src_y < h, 0 <= src_x < w;
                assert(src_y * w >= 0) by (nonlinear_arith) requires src_y >= 0, w > 0;
            }
            let idx = (src_y * frame.width + src_x) * 3;
            let r: u32 = if idx < frame.data.len() { frame.data[idx] as u32 } else { 0 };
            let g: u32 = if idx + 1 < frame.data.len() { frame.data[idx + 1] as u32 } else { 0 };
            let b: u32 = if idx + 2 < frame.data.len() { frame.data[idx + 2] as u32 } else { 0 };
            let packed = (r << 16) | (g << 8) | b;
            proof {
                assert(r < 256 && g < 256 && b < 256);
                assert((r << 16) | (g << 8) | b == r * 65536 + g * 256 + b) by (bit_vector)
                    requires r < 256, g < 256, b < 256;
                let k = y * tw + x;
                assert(y * tw + x < (y + 1) * tw) by (nonlinear_arith) requires 0 <= x < tw;
                lemma_fundamental_div_mod_converse(k, tw, y as int, x as int);
            }
            out.push(packed);
            proof {
                assert((y * tw + x) + 1 == y * tw + (x + 1));
            }
            x = x + 1;
        }
        proof {
            assert(y * tw + tw == (y + 1) * tw) by (nonlinear_arith);
        }
        y = y + 1;
    }
    proof {
        assert forall|x: int, y: int| 0 <= x < target_width && 0 <= y < target_height implies
            #[trigger] out@[y * target_width + x] == resized_pixel(frame.data@, frame.width as int,
                frame.height as int, target_width as int, target_height as int, x, y) by {
            assert(y * tw + x < th * tw) by (nonlinear_arith) requires 0 <= x < tw, 0 <= y < th;
            assert(y * tw + x >= 0) by (nonlinear_arith) requires 0 <= x < tw, 0 <= y;
            lemma_fundamental_div_mod_converse(y * tw + x, tw, y, x);
        }
    }
    Ok(out)
}

} // verus!
