//! Image geometry of the model inputs: resize targets, stride padding, and
//! the crop rectangle of a text region.
use vstd::prelude::*;
use crate::result::{max4, min4};

verus! {

/// Input sizes of the models, in pixels.
pub struct ImagePreprocessor {
    pub max_size: u32,
    /// Longest side of the detector's input.
    pub det_target_size: u32,
    pub rec_target_height: u32,
    /// Widest recognition input.
    pub rec_target_width: u32,
}

/// The detector's input sides are multiples of this.
pub const DET_STRIDE: u32 = 32;

/// `(w, h)` scaled so the longer side becomes `target`, rounded down;
/// unchanged when it is no longer than `target`.
pub open spec fn resize_dims(w: int, h: int, target: int) -> (int, int) {
    let m = if w >= h { w } else { h };
    if m <= target {
        (w, h)
    } else {
        (w * target / m, h * target / m)
    }
}

/// Recognition input width: the crop's width at height `th`, rounded
/// down, within `[1, tw]` (1 wins where `tw` is 0).
pub open spec fn rec_width(th: int, tw: int, w: int, h: int) -> int {
    let v = th * w / h;
    let c = if v > tw { tw } else { v };
    if c < 1 { 1 } else { c }
}

/// `v` rounded up to a multiple of the detector stride.
pub open spec fn padded(v: int) -> int {
    (v + 31) / 32 * 32
}

/// Crop rectangle `(x, y, w, h)` in whole pixels of a quadrilateral given in
/// thousandths: the corners' extent clamped into the image, each side at
/// least 1.
pub open spec fn crop_rect(b: [i64; 8], img_w: int, img_h: int) -> (int, int, int, int) {
    let min_x = clamp_px(min4(b[0], b[2], b[4], b[6]) as int, img_w);
    let max_x = clamp_px(max4(b[0], b[2], b[4], b[6]) as int, img_w);
    let min_y = clamp_px(min4(b[1], b[3], b[5], b[7]) as int, img_h);
    let max_y = clamp_px(max4(b[1], b[3], b[5], b[7]) as int, img_h);
    let w = if max_x > min_x { max_x - min_x } else { 0 };
    let h = if max_y > min_y { max_y - min_y } else { 0 };
    (min_x, min_y, if w >= 1 { w } else { 1 }, if h >= 1 { h } else { 1 })
}

/// A coordinate in thousandths as a whole pixel in `[0, limit]`, rounded
/// down.
pub open spec fn clamp_px(v: int, limit: int) -> int {
    if v <= 0 {
        0
    } else if v / 1000 > limit {
        limit
    } else {
        v / 1000
    }
}

fn clamp_px_exec(v: i64, limit: u32) -> (r: u32)
    ensures
        r == clamp_px(v as int, limit as int),
{
    if v <= 0 {
        0
    } else if v / 1000 > limit as i64 {
        limit
    } else {
        (v / 1000) as u32
    }
}

fn mul_div(a: u32, b: u32, c: u32) -> (r: u64)
    requires
        c > 0,
    ensures
        r as int == (a as int * b as int) / (c as int),
{
    assert(a as int * b as int <= 0xffff_ffff * 0xffff_ffff) by (nonlinear_arith)
        requires
            a <= 0xffff_ffff,
            b <= 0xffff_ffff,
    ;
    (a as u64 * b as u64) / c as u64
}

fn min2(a: i64, b: i64) -> (r: i64)
    ensures
        r == (if a <= b { a } else { b }),
{
    if a <= b {
        a
    } else {
        b
    }
}

fn max2(a: i64, b: i64) -> (r: i64)
    ensures
        r == (if a >= b { a } else { b }),
{
    if a >= b {
        a
    } else {
        b
    }
}

impl ImagePreprocessor {
    pub fn new() -> (r: Self)
        ensures
            r.max_size == 2048,
            r.det_target_size == 960,
            r.rec_target_height == 48,
            r.rec_target_width == 320,
    {
        ImagePreprocessor { max_size: 2048, det_target_size: 960, rec_target_height: 48, rec_target_width: 320 }
    }

    pub fn with_max_size(self, size: u32) -> (r: Self)
        ensures
            r.max_size == size,
            r.det_target_size == self.det_target_size,
            r.rec_target_height == self.rec_target_height,
            r.rec_target_width == self.rec_target_width,
    {
        ImagePreprocessor { max_size: size, ..self }
    }

    /// `(width, height)` scaled, aspect kept, so the longer side is
    /// `target_size`; sizes already within it are kept.
    pub fn calculate_resize_dimensions(&self, width: u32, height: u32, target_size: u32) -> (r: (u32, u32))
        ensures
            (r.0 as int, r.1 as int) == resize_dims(width as int, height as int, target_size as int),
            r.0 <= width,
            r.1 <= height,
    {
        let max_dim = if width >= height {
            width
        } else {
            height
        };
        if max_dim <= target_size {
            return (width, height);
        }
        let w = mul_div(width, target_size, max_dim);
        let h = mul_div(height, target_size, max_dim);
        assert(w <= width && h <= height) by (nonlinear_arith)
            requires
                w as int == (width as int * target_size as int) / (max_dim as int),
                h as int == (height as int * target_size as int) / (max_dim as int),
                target_size < max_dim,
                max_dim > 0,
        ;
        assert(w <= target_size && h <= target_size) by (nonlinear_arith)
            requires
                w as int == (width as int * target_size as int) / (max_dim as int),
                h as int == (height as int * target_size as int) / (max_dim as int),
                width <= max_dim,
                height <= max_dim,
                max_dim > 0,
        ;
        (w as u32, h as u32)
    }

    /// The detector input for an image: its resized size and that size
    /// padded up to multiples of the stride, `(w, h, padded_w, padded_h)`.
    pub fn detection_input_size(&self, width: u32, height: u32) -> (r: (u32, u32, u32, u32))
        requires
            width <= 0x7fff_0000,
            height <= 0x7fff_0000,
        ensures
            (r.0 as int, r.1 as int) == resize_dims(width as int, height as int, self.det_target_size as int),
            r.2 == padded(r.0 as int),
            r.3 == padded(r.1 as int),
            r.2 % 32 == 0 && r.3 % 32 == 0,
    {
        let (w, h) = self.calculate_resize_dimensions(width, height, self.det_target_size);
        let pw = (w + 31) / 32 * 32;
        let ph = (h + 31) / 32 * 32;
        (w, h, pw, ph)
    }

    /// Width of the recognition input for a crop: the crop's width at the
    /// recognition height, rounded down, within `[1, rec_target_width]`.
    pub fn recognition_width(&self, width: u32, height: u32) -> (r: u32)
        requires
            height > 0,
        ensures
            r as int == rec_width(self.rec_target_height as int, self.rec_target_width as int, width as int, height as int),
    {
        let w = mul_div(self.rec_target_height, width, height);
        let capped = if w > self.rec_target_width as u64 {
            self.rec_target_width
        } else {
            w as u32
        };
        if capped < 1 {
            1
        } else {
            capped
        }
    }

    /// The pixel rectangle `(x, y, w, h)` cropped for a text region of a
    /// `img_w` by `img_h` image.
    pub fn crop_rectangle(&self, bbox: &[i64; 8], img_w: u32, img_h: u32) -> (r: (u32, u32, u32, u32))
        ensures
            (r.0 as int, r.1 as int, r.2 as int, r.3 as int) == crop_rect(*bbox, img_w as int, img_h as int),
    {
        let b = bbox;
        let min_x = clamp_px_exec(min2(min2(b[0], b[2]), min2(b[4], b[6])), img_w);
        let max_x = clamp_px_exec(max2(max2(b[0], b[2]), max2(b[4], b[6])), img_w);
        let min_y = clamp_px_exec(min2(min2(b[1], b[3]), min2(b[5], b[7])), img_h);
        let max_y = clamp_px_exec(max2(max2(b[1], b[3]), max2(b[5], b[7])), img_h);
        let w = if max_x > min_x {
            max_x - min_x
        } else {
            0
        };
        let h = if max_y > min_y {
            max_y - min_y
        } else {
            0
        };
        (min_x, min_y, if w >= 1 {
            w
        } else {
            1
        }, if h >= 1 {
            h
        } else {
            1
        })
    }
}

/// A grayscale image, row-major.
pub struct GrayPlane {
    pub width: usize,
    pub height: usize,
    pub pixels: Vec<u8>,
}

impl GrayPlane {
    pub open spec fn wf(&self) -> bool {
        &&& self.width <= 100_000
        &&& self.height <= 100_000
        &&& self.pixels.len() == self.width * self.height
    }

    pub open spec fn at(&self, x: int, y: int) -> int {
        self.pixels@[y * self.width + x] as int
    }
}

/// Sum of row `y` of `g` over columns `x0..x1`.
pub open spec fn row_sum(g: GrayPlane, y: int, x0: int, x1: int) -> int
    decreases x1 - x0,
{
    if x1 <= x0 {
        0
    } else {
        row_sum(g, y, x0, x1 - 1) + g.at(x1 - 1, y)
    }
}

/// Sum of `g` over rows `y0..y1` and columns `x0..x1`.
pub open spec fn block_sum(g: GrayPlane, y0: int, y1: int, x0: int, x1: int) -> int
    decreases y1 - y0,
{
    if y1 <= y0 {
        0
    } else {
        block_sum(g, y0, y1 - 1, x0, x1) + row_sum(g, y1 - 1, x0, x1)
    }
}

/// The window of half-width `half` around `v` in `0..limit`: `(start, end)`.
pub open spec fn window(v: int, half: int, limit: int) -> (int, int) {
    (if v >= half { v - half } else { 0 }, if v + half + 1 <= limit { v + half + 1 } else { limit })
}

/// The binarised pixel: white where the pixel exceeds the mean of its
/// `block`-sized window (rounded down) less `c`, else black.
pub open spec fn thresholded(g: GrayPlane, block: int, c: int, x: int, y: int) -> u8 {
    let (x0, x1) = window(x, block / 2, g.width as int);
    let (y0, y1) = window(y, block / 2, g.height as int);
    let mean = block_sum(g, y0, y1, x0, x1) / ((x1 - x0) * (y1 - y0));
    if g.at(x, y) > mean - c {
        255
    } else {
        0
    }
}

proof fn lemma_row_sum_bound(g: GrayPlane, y: int, x0: int, x1: int)
    requires
        x0 <= x1,
        g.wf(),
        0 <= y < g.height,
        0 <= x0,
        x1 <= g.width,
    ensures
        0 <= row_sum(g, y, x0, x1) <= 255 * (x1 - x0),
    decreases x1 - x0,
{
    if x1 > x0 {
        lemma_row_sum_bound(g, y, x0, x1 - 1);
        assert(0 <= (y * g.width + x1 - 1) < g.width * g.height) by (nonlinear_arith)
            requires
                0 <= y < g.height,
                0 <= x1 - 1 < g.width,
        ;
    }
}

proof fn lemma_block_sum_bound(g: GrayPlane, y0: int, y1: int, x0: int, x1: int)
    requires
        y0 <= y1,
        x0 <= x1,
        g.wf(),
        0 <= y0,
        y1 <= g.height,
        0 <= x0,
        x1 <= g.width,
    ensures
        0 <= block_sum(g, y0, y1, x0, x1) <= 255 * (x1 - x0) * (y1 - y0),
    decreases y1 - y0,
{
    if y1 > y0 {
        lemma_block_sum_bound(g, y0, y1 - 1, x0, x1);
        lemma_row_sum_bound(g, y1 - 1, x0, x1);
        assert(255 * (x1 - x0) * (y1 - 1 - y0) + 255 * (x1 - x0) == 255 * (x1 - x0) * (y1 - y0)) by (nonlinear_arith);
    }
}

impl ImagePreprocessor {
    /// A grayscale page binarised for contrast: 15-pixel windows, offset 5.
    pub fn enhance(&self, gray: &GrayPlane) -> (r: GrayPlane)
        requires
            gray.wf(),
        ensures
            r.width == gray.width,
            r.height == gray.height,
            r.wf(),
            forall|x: int, y: int|
                0 <= x < gray.width && 0 <= y < gray.height ==> #[trigger] r.at(x, y) == thresholded(*gray, 15, 5, x, y) as int,
    {
        adaptive_threshold(gray, 15, 5)
    }
}

/// Local-mean binarisation: each pixel becomes 255 where it exceeds the
/// mean of its `block_size` window (clipped to the image) less `c`, else 0.
pub fn adaptive_threshold(image: &GrayPlane, block_size: u32, c: i32) -> (r: GrayPlane)
    requires
        image.wf(),
    ensures
        r.width == image.width,
        r.height == image.height,
        r.wf(),
        forall|x: int, y: int|
            0 <= x < image.width && 0 <= y < image.height ==> #[trigger] r.at(x, y) == thresholded(
                *image,
                block_size as int,
                c as int,
                x,
                y,
            ) as int,
{
    let w = image.width;
    let h = image.height;
    let half = (block_size / 2) as usize;
    let mut out: Vec<u8> = Vec::new();
    let mut y: usize = 0;
    while y < h
        invariant
            image.wf(),
            w == image.width,
            h == image.height,
            half == block_size / 2,
            y <= h,
            out.len() == y * w,
            forall|xx: int, yy: int|
                0 <= xx < w && 0 <= yy < y ==> out@[yy * w + xx] as int == thresholded(
                    *image,
                    block_size as int,
                    c as int,
                    xx,
                    yy,
                ) as int,
        decreases h - y,
    {
        let mut x: usize = 0;
        while x < w
            invariant
                image.wf(),
                w == image.width,
                h == image.height,
                half == block_size / 2,
                y < h,
                x <= w,
                out.len() == y * w + x,
                forall|xx: int, yy: int|
                    0 <= xx < w && 0 <= yy < y ==> out@[yy * w + xx] as int == thresholded(
                        *image,
                        block_size as int,
                        c as int,
                        xx,
                        yy,
                    ) as int,
                forall|xx: int|
                    0 <= xx < x ==> out@[y * w + xx] as int == thresholded(
                        *image,
                        block_size as int,
                        c as int,
                        xx,
                        y as int,
                    ) as int,
            decreases w - x,
        {
            let v = pixel_threshold(image, half, c, x, y);
            assert(v == thresholded(*image, block_size as int, c as int, x as int, y as int));
            assert(y * w + x == out.len());
            let ghost prev = out@;
            out.push(v);
            proof {
                assert forall|xx: int, yy: int| 0 <= xx < w && 0 <= yy < y implies out@[yy * w + xx] as int
                    == #[trigger] thresholded(*image, block_size as int, c as int, xx, yy) as int by {
                    lemma_row_index(xx, yy, y as int, w as int);
                    assert(out@[yy * w + xx] == prev[yy * w + xx]);
                }
            }
            x += 1;
        }
        assert((y + 1) * w == y * w + w) by (nonlinear_arith);
        y += 1;
    }
    assert(h * w == w * h) by (nonlinear_arith);
    GrayPlane { width: w, height: h, pixels: out }
}

proof fn lemma_row_index(xx: int, yy: int, y: int, w: int)
    requires
        0 <= xx < w,
        0 <= yy < y,
    ensures
        0 <= yy * w + xx < y * w,
{
    assert(0 <= yy * w + xx < y * w) by (nonlinear_arith)
        requires
            0 <= xx < w,
            0 <= yy < y,
    ;
}

fn pixel_threshold(image: &GrayPlane, half: usize, c: i32, x: usize, y: usize) -> (v: u8)
    requires
        image.wf(),
        x < image.width,
        y < image.height,
        half <= 0x8000_0000,
    ensures
        v == thresholded(*image, 2 * half as int, c as int, x as int, y as int),
        v == thresholded(*image, 2 * half as int + 1, c as int, x as int, y as int),
{
    let w = image.width;
    let h = image.height;
    let x0 = if x >= half { x - half } else { 0 };
    let x1 = if x + half + 1 <= w { x + half + 1 } else { w };
    let y0 = if y >= half { y - half } else { 0 };
    let y1 = if y + half + 1 <= h { y + half + 1 } else { h };
    let mut sum: u64 = 0;
    let mut yy: usize = y0;
    proof {
        lemma_block_sum_bound(*image, y0 as int, y1 as int, x0 as int, x1 as int);
    }
    while yy < y1
        invariant
            image.wf(),
            w == image.width,
            h == image.height,
            x0 <= x < x1 <= w,
            y0 <= y < y1 <= h,
            y0 <= yy <= y1,
            sum as int == block_sum(*image, y0 as int, yy as int, x0 as int, x1 as int),
        decreases y1 - yy,
    {
        let mut xx: usize = x0;
        let mut rs: u64 = 0;
        while xx < x1
            invariant
                image.wf(),
                w == image.width,
                h == image.height,
                x0 <= xx <= x1 <= w,
                yy < h,
                rs as int == row_sum(*image, yy as int, x0 as int, xx as int),
            decreases x1 - xx,
        {
            proof {
                lemma_row_sum_bound(*image, yy as int, x0 as int, xx as int);
                assert(0 <= yy * w + xx < w * h) by (nonlinear_arith)
                    requires
                        0 <= yy < h,
                        0 <= xx < w,
                ;
            }
            rs = rs + image.pixels[yy * w + xx] as u64;
            xx += 1;
        }
        proof {
            lemma_block_sum_bound(*image, y0 as int, yy as int + 1, x0 as int, x1 as int);
            lemma_row_sum_bound(*image, yy as int, x0 as int, x1 as int);
            lemma_block_sum_bound(*image, y0 as int, yy as int, x0 as int, x1 as int);
            assert(255 * (x1 - x0) * (yy + 1 - y0) <= 255 * 100_000 * 100_001) by (nonlinear_arith)
                requires
                    x1 - x0 <= 100_000,
                    yy + 1 - y0 <= 100_001,
                    x1 >= x0,
                    yy + 1 >= y0,
            ;
        }
        sum = sum + rs;
        yy += 1;
    }
    let dx = (x1 - x0) as u64;
    let dy = (y1 - y0) as u64;
    assert(0 < dx * dy <= 100_000 * 100_000) by (nonlinear_arith)
        requires
            0 < dx <= 100_000,
            0 < dy <= 100_000,
    ;
    let count = dx * dy;
    proof {
        lemma_block_sum_bound(*image, y0 as int, y1 as int, x0 as int, x1 as int);
        assert(255 * (x1 - x0) * (y1 - y0) == 255 * count) by (nonlinear_arith)
            requires
                count == dx * dy,
                dx == x1 - x0,
                dy == y1 - y0,
        ;
    }
    let q = sum / count;
    assert(q <= 255) by (nonlinear_arith)
        requires
            q == sum / count,
            sum <= 255 * count,
            count > 0,
    ;
    let mean = q as i64;
    proof {
        assert(0 <= y * w + x < w * h) by (nonlinear_arith)
            requires
                0 <= y < h,
                0 <= x < w,
        ;
    }
    let p = image.pixels[y * w + x] as i64;
    if p > mean - c as i64 {
        255
    } else {
        0
    }
}

} // verus!
