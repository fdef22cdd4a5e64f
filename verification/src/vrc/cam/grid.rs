//! Finds the block grid of the camera code in a captured frame.
use vstd::prelude::*;
use vstd::string::*;

use crate::text::{decimal_text, spec_decimal};
use crate::vrc::cam::algo::Pixel;

verus! {

// ---------------------------------------------------------------------------
// Layout constants.
// ---------------------------------------------------------------------------

/// Width of a marker ring, in blocks.
pub const MARKER_BLOCKS: i32 = 3;
/// Block index of the marker centre line (the strips run along it).
pub const MARKER_CENTER: i32 = 1;
/// Blocks reserved on each side before data starts (marker + one quiet block).
pub const DATA_BORDER: i32 = 4;

/// A frame darker than this is treated as "shader off".
pub const MIN_PEAK: u32 = 24;

/// Frames, offsets and block sizes stay below this many pixels on each axis,
/// so that every pixel coordinate fits an `i32` with room to spare.
pub const MAX_SIDE: usize = 0x1000_0000;

// ---------------------------------------------------------------------------
// Pixel access
// ---------------------------------------------------------------------------

/// The luma of red, green and blue: `(b + 2g + r) / 4`.
pub open spec fn luma_rgb(c: (u8, u8, u8)) -> int {
    (c.2 + 2 * c.1 + c.0) / 4
}

/// Luma of one pixel. The shader writes gray, so the weights only have to
/// reject coloured bloom. Green is the middle channel in both orders, so the
/// result does not depend on the channel order.
pub fn luma<P: Pixel>(p: &P) -> (res: u32)
    ensures
        res == luma_rgb(p.spec_rgb()),
        res <= 255,
{
    let (r, g, b) = p.rgb();
    (b as u32 + 2 * g as u32 + r as u32) / 4
}

proof fn lemma_row_index(y: int, x: int, stride: int, height: int, width: int)
    requires
        0 <= y < height,
        0 <= x < width,
        width <= stride,
    ensures
        0 <= y * stride,
        y * stride + x < (height - 1) * stride + width,
        y * stride + width <= (height - 1) * stride + width,
{
    assert(y * stride <= (height - 1) * stride) by (nonlinear_arith)
        requires
            y <= height - 1,
            0 <= stride,
    ;
    assert(0 <= y * stride) by (nonlinear_arith)
        requires
            0 <= y,
            0 <= stride,
    ;
}

/// A borrowed, typed view of one captured frame.
#[derive(Clone, Copy)]
pub struct Frame<'a, P: Pixel> {
    px: &'a [P],
    /// in pixels, not bytes
    stride: usize,
    width: usize,
    height: usize,
}

impl<'a, P: Pixel> Frame<'a, P> {
    /// The frame holds `height` rows of `width` pixels, `stride` apart, and
    /// both sides stay below `MAX_SIDE`, the largest frame that detection
    /// and reading take.
    pub closed spec fn wf(&self) -> bool {
        &&& 0 < self.width <= self.stride
        &&& 0 < self.height
        &&& (self.height - 1) * self.stride + self.width <= self.px@.len()
        &&& self.px@.len() <= usize::MAX
        &&& self.width < MAX_SIDE
        &&& self.height < MAX_SIDE
    }

    pub closed spec fn spec_width(&self) -> int {
        self.width as int
    }

    pub closed spec fn spec_height(&self) -> int {
        self.height as int
    }

    pub closed spec fn spec_stride(&self) -> int {
        self.stride as int
    }

    pub closed spec fn spec_pixels(&self) -> Seq<P> {
        self.px@
    }

    /// The pixel at column `x` of row `y`.
    pub open spec fn pixel_at(&self, x: int, y: int) -> P {
        self.spec_pixels()[y * self.spec_stride() + x]
    }

    /// The luma at column `x` of row `y`.
    pub open spec fn luma_at_spec(&self, x: int, y: int) -> int {
        luma_rgb(self.pixel_at(x, y).spec_rgb())
    }

    /// True when `(x, y)` lies inside the frame and is brighter than `threshold`.
    pub open spec fn is_bright(&self, x: int, y: int, threshold: int) -> bool {
        &&& 0 <= x < self.spec_width()
        &&& 0 <= y < self.spec_height()
        &&& self.luma_at_spec(x, y) > threshold
    }

    /// The frame of `height` rows of `width` pixels, `stride` pixels apart.
    /// `None` when a side is zero, a row is wider than the stride, or the
    /// pixels do not cover the last row.
    pub fn new(px: &'a [P], stride: usize, width: usize, height: usize) -> (res: Option<Self>)
        ensures
            match res {
                Some(f) => (width < MAX_SIDE && height < MAX_SIDE ==> f.wf()) && f.spec_width() == width && f.spec_height() == height
                    && f.spec_stride() == stride && f.spec_pixels() == px@ && 0 < width && 0 < height
                    && width <= stride && stride * (height - 1) + width <= px@.len(),
                None => width == 0 || height == 0 || width > stride || stride * (height - 1)
                    + width > px@.len(),
            },
    {
        let n = px.len();
        if width == 0 || height == 0 || width > stride {
            return None;
        }
        // Last row only needs `width` pixels, not a whole stride.
        let rows = height - 1;
        let needed = match stride.checked_mul(rows) {
            Some(v) => match v.checked_add(width) {
                Some(n) => n,
                None => {
                    assert(rows * stride == stride * rows) by (nonlinear_arith);
                    return None;
                },
            },
            None => {
                assert(rows * stride + width > px@.len()) by (nonlinear_arith)
                    requires
                        stride * rows > usize::MAX,
                        px@.len() <= usize::MAX,
                        width >= 0,
                ;
                return None;
            },
        };
        assert(needed == rows * stride + width) by (nonlinear_arith)
            requires
                needed == stride * rows + width,
        ;
        if n < needed {
            return None;
        }
        Some(Self { px, stride, width, height })
    }

    /// The pixels of a `w` by `h` rectangle at `(x, y)`, as a slice that
    /// starts at its top left pixel and keeps the frame stride.
    pub fn band(&self, x: i32, y: i32, w: i32, h: i32) -> (res: Option<(&'a [P], usize)>)
        requires
            self.wf(),
        ensures
            match res {
                Some((band, stride)) => {
                    &&& 0 <= x && 0 <= y && 0 < w && 0 < h
                    &&& x + w <= self.spec_width() && y + h <= self.spec_height()
                    &&& stride == self.spec_stride()
                    &&& band@.len() == (h - 1) * self.spec_stride() + w
                    &&& band@ == self.spec_pixels().subrange(
                        y * self.spec_stride() + x,
                        y * self.spec_stride() + x + (h - 1) * self.spec_stride() + w,
                    )
                },
                None => !(0 <= x && 0 <= y && 0 < w && 0 < h && x + w <= self.spec_width() && y
                    + h <= self.spec_height()),
            },
    {
        if x < 0 || y < 0 || w <= 0 || h <= 0 {
            return None;
        }
        let (x, y, w, h) = (x as usize, y as usize, w as usize, h as usize);
        if x + w > self.width || y + h > self.height {
            return None;
        }
        proof {
            lemma_row_index(y as int, x as int, self.stride as int, self.height as int, self.width as int);
            assert((y + h - 1) * self.stride <= (self.height - 1) * self.stride) by (nonlinear_arith)
                requires
                    y + h - 1 <= self.height - 1,
                    0 <= self.stride,
            ;
            assert((y + h - 1) * self.stride == y * self.stride + (h - 1) * self.stride) by (nonlinear_arith);
            assert(0 <= (h - 1) * self.stride) by (nonlinear_arith)
                requires
                    h >= 1,
            ;
        }
        let start = y * self.stride + x;
        let len = (h - 1) * self.stride + w;
        Some((&self.px[start..start + len], self.stride))
    }

    /// A frame whose rows follow each other with no padding.
    #[inline]
    pub fn packed(px: &'a [P], width: usize, height: usize) -> (res: Option<Self>)
        ensures
            match res {
                Some(f) => (width < MAX_SIDE && height < MAX_SIDE ==> f.wf()) && f.spec_width() == width && f.spec_height() == height
                    && f.spec_stride() == width && f.spec_pixels() == px@ && 0 < width && 0 < height
                    && width * (height - 1) + width <= px@.len(),
                None => width == 0 || height == 0 || width * (height - 1) + width > px@.len(),
            },
    {
        Self::new(px, width, width, height)
    }

    #[inline]
    pub fn width(&self) -> (res: usize)
        ensures
            res == self.spec_width(),
    {
        self.width
    }

    #[inline]
    pub fn height(&self) -> (res: usize)
        ensures
            res == self.spec_height(),
    {
        self.height
    }

    /// Row pitch, in pixels.
    #[inline]
    pub fn stride(&self) -> (res: usize)
        ensures
            res == self.spec_stride(),
    {
        self.stride
    }

    #[inline]
    pub fn as_slice(&self) -> (res: &'a [P])
        ensures
            res@ == self.spec_pixels(),
    {
        self.px
    }

    /// The `width` pixels of row `y`.
    #[inline]
    pub fn row(&self, y: usize) -> (res: &'a [P])
        requires
            self.wf(),
            y < self.spec_height(),
        ensures
            res@.len() == self.spec_width(),
            forall|x: int| 0 <= x < self.spec_width() ==> res@[x] == #[trigger] self.pixel_at(x, y as int),
    {
        proof {
            lemma_row_index(y as int, 0, self.stride as int, self.height as int, self.width as int);
        }
        let o = y * self.stride;
        let r = &self.px[o..o + self.width];
        assert forall|x: int| 0 <= x < self.spec_width() implies r@[x] == #[trigger] self.pixel_at(x, y as int) by {
            assert(r@[x] == self.px@[o + x]);
        }
        r
    }

    #[inline]
    fn luma_at(&self, x: usize, y: usize) -> (res: u32)
        requires
            self.wf(),
            x < self.spec_width(),
            y < self.spec_height(),
        ensures
            res == self.luma_at_spec(x as int, y as int),
    {
        proof {
            lemma_row_index(y as int, x as int, self.stride as int, self.height as int, self.width as int);
        }
        luma(&self.px[y * self.stride + x])
    }

    /// Returns `None` outside the frame. Used by every candidate test so a bad
    /// block-size guess cannot read out of bounds.
    #[inline]
    fn bright_checked(&self, x: i32, y: i32, threshold: u32) -> (res: Option<bool>)
        requires
            self.wf(),
        ensures
            res == spec_bright_checked(*self, x as int, y as int, threshold as int),
    {
        if x < 0 || y < 0 || x as usize >= self.width || y as usize >= self.height {
            return None;
        }
        Some(self.luma_at(x as usize, y as usize) > threshold)
    }
}

/// `Some(bright)` inside the frame, `None` outside it.
pub open spec fn spec_bright_checked<P: Pixel>(f: Frame<P>, x: int, y: int, threshold: int) -> Option<bool> {
    if 0 <= x < f.spec_width() && 0 <= y < f.spec_height() {
        Some(f.luma_at_spec(x, y) > threshold)
    } else {
        None
    }
}

// ---------------------------------------------------------------------------
// Result types
// ---------------------------------------------------------------------------

#[derive(Clone, Copy, Debug, PartialEq, Eq)]
pub struct GridLayout {
    pub origin_x: i32,
    pub origin_y: i32,
    pub block_px: i32,
    pub cols: i32,
    pub rows: i32,
    pub flip_x: bool,
    pub flip_y: bool,
}

impl Default for GridLayout {
    fn default() -> (res: Self)
        ensures
            res == (GridLayout {
                origin_x: 0,
                origin_y: 0,
                block_px: 0,
                cols: 0,
                rows: 0,
                flip_x: false,
                flip_y: false,
            }),
    {
        GridLayout { origin_x: 0, origin_y: 0, block_px: 0, cols: 0, rows: 0, flip_x: false, flip_y: false }
    }
}

/// `v` clamped to `lo..=hi`.
pub open spec fn clamp_int(v: int, lo: int, hi: int) -> int {
    if v < lo {
        lo
    } else if v > hi {
        hi
    } else {
        v
    }
}

/// Rust's `/` on integers rounds toward zero.
pub open spec fn div_trunc(a: int, b: int) -> int {
    if a >= 0 {
        a / b
    } else {
        -((-a) / b)
    }
}

impl GridLayout {
    /// The radius of the square that a sample averages.
    pub open spec fn spec_sample_radius(&self) -> int {
        clamp_int(div_trunc(self.block_px - 1, 2) - 1, 0, 2)
    }

    /// Bit pairs per data row.
    pub open spec fn spec_pairs(&self) -> int {
        div_trunc(self.cols - DATA_BORDER * 2, 2)
    }

    /// The block index after the flips.
    pub open spec fn spec_block_index(&self, ix: int, iy: int) -> (int, int) {
        (
            if self.flip_x { self.cols - 1 - ix } else { ix },
            if self.flip_y { self.rows - 1 - iy } else { iy },
        )
    }

    /// Centre pixel of a block (flips applied).
    pub open spec fn spec_block_center(&self, ix: int, iy: int) -> (int, int) {
        let (bx, by) = self.spec_block_index(ix, iy);
        let half = div_trunc(self.block_px as int, 2);
        (self.origin_x + bx * self.block_px + half, self.origin_y + by * self.block_px + half)
    }

    /// Every value of `block_center` at these indices fits an `i32`.
    pub open spec fn center_fits(&self, ix: int, iy: int) -> bool {
        let (bx, by) = self.spec_block_index(ix, iy);
        let half = div_trunc(self.block_px as int, 2);
        &&& i32::MIN <= bx <= i32::MAX
        &&& i32::MIN <= by <= i32::MAX
        &&& i32::MIN <= bx * self.block_px <= i32::MAX
        &&& i32::MIN <= by * self.block_px <= i32::MAX
        &&& i32::MIN <= self.origin_x + bx * self.block_px <= i32::MAX
        &&& i32::MIN <= self.origin_y + by * self.block_px <= i32::MAX
        &&& i32::MIN <= self.origin_x + bx * self.block_px + half <= i32::MAX
        &&& i32::MIN <= self.origin_y + by * self.block_px + half <= i32::MAX
    }

    pub fn sample_radius(&self) -> (res: i32)
        requires
            self.block_px > i32::MIN,
        ensures
            res == self.spec_sample_radius(),
            0 <= res <= 2,
    {
        let v = (self.block_px - 1) / 2 - 1;
        if v < 0 {
            0
        } else if v > 2 {
            2
        } else {
            v
        }
    }

    /// Bit pairs per data row.
    pub fn pairs(&self) -> (res: i32)
        requires
            self.cols >= i32::MIN + DATA_BORDER * 2,
        ensures
            res == self.spec_pairs(),
    {
        (self.cols - DATA_BORDER * 2) / 2
    }

    /// Centre pixel of a block, in grid coordinates (flips applied).
    pub fn block_center(&self, ix: i32, iy: i32) -> (res: (i32, i32))
        requires
            self.center_fits(ix as int, iy as int),
        ensures
            res.0 == self.spec_block_center(ix as int, iy as int).0,
            res.1 == self.spec_block_center(ix as int, iy as int).1,
    {
        let bx = if self.flip_x { self.cols as i64 - 1 - ix as i64 } else { ix as i64 };
        let by = if self.flip_y { self.rows as i64 - 1 - iy as i64 } else { iy as i64 };
        let bx = bx as i32;
        let by = by as i32;
        let half = self.block_px / 2;
        (self.origin_x + bx * self.block_px + half, self.origin_y + by * self.block_px + half)
    }
}


#[derive(Clone, Copy, Debug, PartialEq, Eq)]
pub enum DetectError {
    /// Buffer smaller than `w * h`, or a zero dimension.
    BadFrame,
    Dark { peak: u32 },
    NoBrightPixels,
    ShortMarkerRun { run: u32 },
    NoBlockSize { span_x: u32, span_y: u32, run: u32 },
}

/// The message of a detection error.
pub open spec fn spec_detect_error_message(e: DetectError) -> Seq<char> {
    match e {
        DetectError::BadFrame => "The frame buffer does not match the frame size."@,
        DetectError::Dark { peak } => "The frame is dark (peak luma "@ + spec_decimal(peak as nat)
            + "). Turn the shader on and check that the sender shows the code."@,
        DetectError::NoBrightPixels => "The frame holds no bright pixels."@,
        DetectError::ShortMarkerRun { run } => "The marker run is "@ + spec_decimal(run as nat)
            + " pixels. The detector needs at least 3."@,
        DetectError::NoBlockSize { span_x, span_y, run } => "No block size fits a "@ + spec_decimal(span_x as nat)
            + "x"@ + spec_decimal(span_y as nat) + " pixel code with a "@ + spec_decimal(run as nat)
            + " pixel marker run."@,
    }
}

impl DetectError {
    /// The message shown to the user.
    pub fn message(&self) -> (res: String)
        ensures
            res@ == spec_detect_error_message(*self),
    {
        match *self {
            DetectError::BadFrame => String::from_str("The frame buffer does not match the frame size."),
            DetectError::Dark { peak } => {
                let mut s = String::from_str("The frame is dark (peak luma ");
                let p = decimal_text(peak);
                s.append(p.as_str());
                s.append("). Turn the shader on and check that the sender shows the code.");
                s
            },
            DetectError::NoBrightPixels => String::from_str("The frame holds no bright pixels."),
            DetectError::ShortMarkerRun { run } => {
                let mut s = String::from_str("The marker run is ");
                let r = decimal_text(run);
                s.append(r.as_str());
                s.append(" pixels. The detector needs at least 3.");
                s
            },
            DetectError::NoBlockSize { span_x, span_y, run } => {
                let mut s = String::from_str("No block size fits a ");
                let x = decimal_text(span_x);
                s.append(x.as_str());
                s.append("x");
                let y = decimal_text(span_y);
                s.append(y.as_str());
                s.append(" pixel code with a ");
                let r = decimal_text(run);
                s.append(r.as_str());
                s.append(" pixel marker run.");
                s
            },
        }
    }
}

// ---------------------------------------------------------------------------
// Detection: specification
// ---------------------------------------------------------------------------

/// The pixels that the peak search reads: every third row, every second column.
pub open spec fn is_peak_sample<P: Pixel>(f: Frame<P>, x: int, y: int) -> bool {
    0 <= x < f.spec_width() && 0 <= y < f.spec_height() && x % 2 == 0 && y % 3 == 0
}

/// `p` is the largest luma among the sampled pixels.
pub open spec fn is_peak<P: Pixel>(f: Frame<P>, p: int) -> bool {
    &&& forall|x: int, y: int| is_peak_sample(f, x, y) ==> #[trigger] f.luma_at_spec(x, y) <= p
    &&& exists|x: int, y: int| is_peak_sample(f, x, y) && #[trigger] f.luma_at_spec(x, y) == p
}

/// The peak luma of a frame.
pub open spec fn spec_peak<P: Pixel>(f: Frame<P>) -> int {
    choose|p: int| is_peak(f, p)
}

/// `(x0, y0, x1, y1)` is the inclusive bounding box of the pixels brighter
/// than `t`.
pub open spec fn is_bounds<P: Pixel>(f: Frame<P>, t: int, b: (int, int, int, int)) -> bool {
    let (x0, y0, x1, y1) = b;
    &&& forall|x: int, y: int| #[trigger] f.is_bright(x, y, t) ==> x0 <= x <= x1 && y0 <= y <= y1
    &&& exists|y: int| #[trigger] f.is_bright(x0, y, t)
    &&& exists|y: int| #[trigger] f.is_bright(x1, y, t)
    &&& exists|x: int| #[trigger] f.is_bright(x, y0, t)
    &&& exists|x: int| #[trigger] f.is_bright(x, y1, t)
}

pub open spec fn has_bright<P: Pixel>(f: Frame<P>, t: int) -> bool {
    exists|x: int, y: int| #[trigger] f.is_bright(x, y, t)
}

/// The bounding box of the bright pixels, `None` if there are none.
pub open spec fn spec_bounds<P: Pixel>(f: Frame<P>, t: int) -> Option<(int, int, int, int)> {
    if has_bright(f, t) {
        Some(choose|b: (int, int, int, int)| is_bounds(f, t, b))
    } else {
        None
    }
}

/// `s` is the first bright column of row `y` in `from..to`.
pub open spec fn is_first_bright<P: Pixel>(f: Frame<P>, y: int, from: int, to: int, t: int, s: int) -> bool {
    &&& from <= s < to
    &&& f.is_bright(s, y, t)
    &&& forall|j: int| from <= j < s ==> !#[trigger] f.is_bright(j, y, t)
}

pub open spec fn spec_first_bright<P: Pixel>(f: Frame<P>, y: int, from: int, to: int, t: int) -> Option<int> {
    if exists|s: int| is_first_bright(f, y, from, to, t, s) {
        Some(choose|s: int| is_first_bright(f, y, from, to, t, s))
    } else {
        None
    }
}

/// The number of bright pixels in row `y` from column `x` up to the first
/// pixel that is not bright.
pub open spec fn run_from<P: Pixel>(f: Frame<P>, x: int, y: int, t: int) -> int
    decreases f.spec_width() - x,
{
    if 0 <= x < f.spec_width() && f.is_bright(x, y, t) {
        1 + run_from(f, x + 1, y, t)
    } else {
        0
    }
}

/// The bright pixels that follow the first bright pixel at or right of
/// `start_x` on row `y`.
pub open spec fn spec_bright_run<P: Pixel>(f: Frame<P>, start_x: int, y: int, t: int) -> int {
    let xs = if start_x < f.spec_width() { start_x } else { f.spec_width() };
    match spec_first_bright(f, y, xs, f.spec_width(), t) {
        None => 0,
        Some(s) => run_from(f, s, y, t),
    }
}

/// Round-half-up division of non-negative values.
pub open spec fn spec_div_round(n: int, d: int) -> int {
    (2 * n + d) / (2 * d)
}

pub open spec fn abs_int(v: int) -> int {
    if v < 0 { -v } else { v }
}

/// Brightness at the centre of block `(ix, iy)` of a grid with its top left
/// at `(x0, y0)`, before any flip.
pub open spec fn spec_block_bright<P: Pixel>(f: Frame<P>, x0: int, y0: int, block: int, ix: int, iy: int, t: int) -> Option<bool> {
    let half = block / 2;
    spec_bright_checked(f, x0 + ix * block + half, y0 + iy * block + half, t)
}

/// A marker is a bright ring of three by three blocks with a dark centre.
pub open spec fn spec_has_marker<P: Pixel>(f: Frame<P>, x0: int, y0: int, block: int, ix: int, iy: int, t: int) -> bool {
    &&& spec_block_bright(f, x0, y0, block, ix, iy, t) == Some(true)
    &&& spec_block_bright(f, x0, y0, block, ix + 2, iy, t) == Some(true)
    &&& spec_block_bright(f, x0, y0, block, ix, iy + 2, t) == Some(true)
    &&& spec_block_bright(f, x0, y0, block, ix + 2, iy + 2, t) == Some(true)
    &&& spec_block_bright(f, x0, y0, block, ix + 1, iy + 1, t) == Some(false)
}

/// The strips run along the marker centre lines. The first strip block after
/// the ring is dark, then the strip alternates on every block.
pub open spec fn spec_check_strips<P: Pixel>(f: Frame<P>, layout: GridLayout, t: int) -> bool {
    forall|i: int| 0 <= i < 6 ==> #[trigger] strip_ok(f, layout, t, i)
}

/// Strip block `i` of both strips has the brightness the pattern wants.
pub open spec fn strip_ok<P: Pixel>(f: Frame<P>, layout: GridLayout, t: int, i: int) -> bool {
    let (lx, ly) = layout.spec_block_center(MARKER_CENTER as int, MARKER_BLOCKS + i);
    let (tx, ty) = layout.spec_block_center(MARKER_BLOCKS + i, MARKER_CENTER as int);
    &&& spec_bright_checked(f, lx, ly, t) == Some(i % 2 == 1)
    &&& spec_bright_checked(f, tx, ty, t) == Some(i % 2 == 1)
}

/// The layout that a candidate block size gives, if it passes every test: an
/// odd block count on both axes that fills the box to within two pixels,
/// room for the border, exactly three markers, room for the data rows, and
/// the strip pattern.
#[verifier::opaque]
pub open spec fn spec_try_candidate<P: Pixel>(
    f: Frame<P>,
    x0: int,
    y0: int,
    span_x: int,
    span_y: int,
    block: int,
    t: int,
    total_bits: int,
) -> Option<GridLayout> {
    let cols = spec_div_round(span_x, block);
    let rows = spec_div_round(span_y, block);
    if cols % 2 == 0 || rows % 2 == 0 {
        None
    } else if abs_int(cols * block - span_x) > 2 || abs_int(rows * block - span_y) > 2 {
        None
    } else if cols < DATA_BORDER * 2 + 2 || rows < DATA_BORDER * 2 + 1 {
        None
    } else {
        let last = MARKER_BLOCKS as int;
        let tl = spec_has_marker(f, x0, y0, block, 0, 0, t);
        let tr = spec_has_marker(f, x0, y0, block, cols - last, 0, t);
        let bl = spec_has_marker(f, x0, y0, block, 0, rows - last, t);
        let br = spec_has_marker(f, x0, y0, block, cols - last, rows - last, t);
        let found = (if tl { 1int } else { 0 }) + (if tr { 1int } else { 0 }) + (if bl { 1int } else { 0 })
            + (if br { 1int } else { 0 });
        if found != 3 {
            None
        } else {
            let (flip_x, flip_y) = if !br {
                (false, false)
            } else if !bl {
                (true, false)
            } else if !tr {
                (false, true)
            } else {
                (true, true)
            };
            let layout = GridLayout {
                origin_x: x0 as i32,
                origin_y: y0 as i32,
                block_px: block as i32,
                cols: cols as i32,
                rows: rows as i32,
                flip_x,
                flip_y,
            };
            let pairs = (cols - DATA_BORDER * 2) / 2;
            if pairs <= 0 {
                None
            } else if (total_bits + pairs - 1) / pairs > rows - DATA_BORDER * 2 {
                None
            } else if !spec_check_strips(f, layout, t) {
                None
            } else {
                Some(layout)
            }
        }
    }
}

/// Whether the capture shows a marker ring where the layout puts the code's
/// ring whose top-left block is `(ix, iy)`: the ring's centre block, taken
/// through the layout's flips, is the centre of a ring in the capture.
pub open spec fn marker_seen<P: Pixel>(
    f: Frame<P>,
    x0: int,
    y0: int,
    block: int,
    layout: GridLayout,
    t: int,
    ix: int,
    iy: int,
) -> bool {
    let (bx, by) = layout.spec_block_index(ix + 1, iy + 1);
    spec_has_marker(f, x0, y0, block, bx - 1, by - 1, t)
}

/// The detected flips carry the code onto the capture: the code's empty
/// corner, its bottom right one, lands on the one corner of the capture
/// without a marker, and the code's other three corners land on rings. So an
/// empty bottom-left corner is a capture mirrored in x, an empty top-right
/// corner one mirrored in y, and an empty top-left corner one turned half
/// way round.
pub proof fn lemma_orientation<P: Pixel>(
    f: Frame<P>,
    x0: int,
    y0: int,
    span_x: int,
    span_y: int,
    block: int,
    t: int,
    total_bits: int,
)
    requires
        1 <= span_x <= MAX_SIDE,
        1 <= span_y <= MAX_SIDE,
        1 <= block < MAX_SIDE,
        spec_try_candidate(f, x0, y0, span_x, span_y, block, t, total_bits) is Some,
    ensures
        ({
            let l = spec_try_candidate(f, x0, y0, span_x, span_y, block, t, total_bits)->0;
            let last = MARKER_BLOCKS as int;
            &&& !marker_seen(f, x0, y0, block, l, t, l.cols - last, l.rows - last)
            &&& marker_seen(f, x0, y0, block, l, t, 0, 0)
            &&& marker_seen(f, x0, y0, block, l, t, l.cols - last, 0)
            &&& marker_seen(f, x0, y0, block, l, t, 0, l.rows - last)
            &&& (!spec_has_marker(f, x0, y0, block, 0, l.rows - last, t) ==> l.flip_x && !l.flip_y)
            &&& (!spec_has_marker(f, x0, y0, block, l.cols - last, 0, t) ==> !l.flip_x && l.flip_y)
            &&& (!spec_has_marker(f, x0, y0, block, 0, 0, t) ==> l.flip_x && l.flip_y)
            &&& (!spec_has_marker(f, x0, y0, block, l.cols - last, l.rows - last, t) ==> !l.flip_x && !l.flip_y)
        }),
{
    reveal(spec_try_candidate);
    lemma_div_round_bound(span_x, block);
    lemma_div_round_bound(span_y, block);
}

/// The candidate `block`, skipped below one pixel.
pub open spec fn spec_try_at<P: Pixel>(f: Frame<P>, x0: int, y0: int, sx: int, sy: int, block: int, t: int, tb: int) -> Option<GridLayout> {
    if block < 1 {
        None
    } else {
        spec_try_candidate(f, x0, y0, sx, sy, block, t, tb)
    }
}

pub open spec fn or_else(a: Option<GridLayout>, b: Option<GridLayout>) -> Option<GridLayout> {
    match a {
        Some(l) => Some(l),
        None => b,
    }
}

/// The candidates in the order `guess`, `guess + 1`, `guess - 1`,
/// `guess + 2`, `guess - 2`; the first that passes wins.
pub open spec fn spec_search<P: Pixel>(f: Frame<P>, x0: int, y0: int, sx: int, sy: int, guess: int, t: int, tb: int) -> Option<GridLayout> {
    let a = spec_try_at(f, x0, y0, sx, sy, guess, t, tb);
    let b = spec_try_at(f, x0, y0, sx, sy, guess + 1, t, tb);
    or_else(a, or_else(b, spec_search_wide(f, x0, y0, sx, sy, guess, t, tb)))
}

/// The candidates `guess - 1`, `guess + 2`, `guess - 2`, in that order.
pub open spec fn spec_search_wide<P: Pixel>(f: Frame<P>, x0: int, y0: int, sx: int, sy: int, guess: int, t: int, tb: int) -> Option<GridLayout> {
    let c = spec_try_at(f, x0, y0, sx, sy, guess - 1, t, tb);
    let d = spec_try_at(f, x0, y0, sx, sy, guess + 2, t, tb);
    let e = spec_try_at(f, x0, y0, sx, sy, guess - 2, t, tb);
    or_else(c, or_else(d, e))
}

/// The grid of the code in a frame.
pub open spec fn spec_detect<P: Pixel>(f: Frame<P>, total_bits: int) -> Result<GridLayout, DetectError> {
    let peak = spec_peak(f);
    if peak < MIN_PEAK {
        Err(DetectError::Dark { peak: peak as u32 })
    } else {
        match spec_bounds(f, peak / 2) {
            None => Err(DetectError::NoBrightPixels),
            Some(b) => spec_detect_in_box(f, peak / 2, b, total_bits),
        }
    }
}

/// The marker run of the bounding box `b`: the shorter of the bright runs
/// from its left edge on the row below its top and the row above its bottom.
pub open spec fn spec_marker_run<P: Pixel>(f: Frame<P>, t: int, b: (int, int, int, int)) -> int {
    let (x0, y0, x1, y1) = b;
    let top_y = if y0 + 1 < f.spec_height() - 1 { y0 + 1 } else { f.spec_height() - 1 };
    let bottom_y = if y1 >= 1 { y1 - 1 } else { 0 };
    let run_top = spec_bright_run(f, x0, top_y, t);
    let run_bottom = spec_bright_run(f, x0, bottom_y, t);
    if run_top < run_bottom { run_top } else { run_bottom }
}

/// Detection once the bounding box `b` of the bright pixels is known.
pub open spec fn spec_detect_in_box<P: Pixel>(f: Frame<P>, t: int, b: (int, int, int, int), total_bits: int) -> Result<GridLayout, DetectError> {
    let (x0, y0, x1, y1) = b;
    let span_x = x1 - x0 + 1;
    let span_y = y1 - y0 + 1;
    let run = spec_marker_run(f, t, b);
    let guess = if (run + 1) / 3 > 1 { (run + 1) / 3 } else { 1 };
    if run < 3 {
        Err(DetectError::ShortMarkerRun { run: run as u32 })
    } else {
        match spec_search(f, x0, y0, span_x, span_y, guess, t, total_bits) {
            Some(layout) => Ok(layout),
            None => Err(DetectError::NoBlockSize { span_x: span_x as u32, span_y: span_y as u32, run: run as u32 }),
        }
    }
}

// ---------------------------------------------------------------------------
// Detection
// ---------------------------------------------------------------------------

proof fn lemma_luma_bound(c: (u8, u8, u8))
    ensures
        0 <= luma_rgb(c) <= 255,
{
}

proof fn lemma_peak_unique<P: Pixel>(f: Frame<P>, p: int)
    requires
        is_peak(f, p),
    ensures
        spec_peak(f) == p,
{
    let q = spec_peak(f);
    assert(is_peak(f, q));
    let (x, y) = choose|x: int, y: int| is_peak_sample(f, x, y) && #[trigger] f.luma_at_spec(x, y) == p;
    let (a, b) = choose|x: int, y: int| is_peak_sample(f, x, y) && #[trigger] f.luma_at_spec(x, y) == q;
    assert(f.luma_at_spec(x, y) <= q);
    assert(f.luma_at_spec(a, b) <= p);
}

fn peak_luma<P: Pixel>(f: &Frame<P>) -> (res: u32)
    requires
        f.wf(),
    ensures
        res == spec_peak(*f),
{
    let mut peak: u32 = 0;
    let mut y: usize = 0;
    let ghost mut wx: int = 0;
    let ghost mut wy: int = 0;
    while y < f.height
        invariant
            f.wf(),
            y % 3 == 0,
            y <= f.spec_height() + 2,
            forall|x: int, yy: int| is_peak_sample(*f, x, yy) && yy < y ==> #[trigger] f.luma_at_spec(x, yy) <= peak,
            y > 0 ==> is_peak_sample(*f, wx, wy) && f.luma_at_spec(wx, wy) == peak,
            y == 0 ==> peak == 0,
        decreases f.spec_height() + 3 - y,
    {
        let row = f.row(y);
        let mut x: usize = 0;
        while x < row.len()
            invariant
                f.wf(),
                y < f.spec_height(),
                y % 3 == 0,
                row@.len() == f.spec_width(),
                forall|xx: int| 0 <= xx < f.spec_width() ==> row@[xx] == #[trigger] f.pixel_at(xx, y as int),
                x % 2 == 0,
                x <= f.spec_width() + 1,
                forall|xx: int, yy: int| is_peak_sample(*f, xx, yy) && (yy < y || (yy == y && xx < x))
                    ==> #[trigger] f.luma_at_spec(xx, yy) <= peak,
                (y > 0 || x > 0) ==> is_peak_sample(*f, wx, wy) && f.luma_at_spec(wx, wy) == peak,
                (y == 0 && x == 0) ==> peak == 0,
            decreases f.spec_width() + 2 - x,
        {
            let v = luma(&row[x]);
            assert(v == f.luma_at_spec(x as int, y as int));
            if v > peak || (y == 0 && x == 0) {
                peak = v;
                proof {
                    wx = x as int;
                    wy = y as int;
                }
                if peak >= 255 {
                    proof {
                        assert forall|xx: int, yy: int| is_peak_sample(*f, xx, yy) implies #[trigger] f.luma_at_spec(xx, yy) <= peak by {
                            lemma_luma_bound(f.pixel_at(xx, yy).spec_rgb());
                        }
                        lemma_peak_unique(*f, peak as int);
                    }
                    return peak;
                }
            }
            x += 2;
        }
        y += 3;
    }
    proof {
        assert forall|xx: int, yy: int| is_peak_sample(*f, xx, yy) implies #[trigger] f.luma_at_spec(xx, yy) <= peak by {}
        assert(is_peak_sample(*f, wx, wy));
        lemma_peak_unique(*f, peak as int);
    }
    peak
}

proof fn lemma_first_bright_unique<P: Pixel>(f: Frame<P>, y: int, from: int, to: int, t: int, s: int)
    requires
        is_first_bright(f, y, from, to, t, s),
    ensures
        spec_first_bright(f, y, from, to, t) == Some(s),
{
    let c = choose|k: int| is_first_bright(f, y, from, to, t, k);
    assert(is_first_bright(f, y, from, to, t, c));
    if c < s {
        assert(!f.is_bright(c, y, t));
    } else if s < c {
        assert(!f.is_bright(s, y, t));
    }
}

/// The first bright column of row `y` in `from..to`.
fn first_bright_in<P: Pixel>(f: &Frame<P>, y: usize, from: usize, to: usize, t: u32) -> (res: Option<usize>)
    requires
        f.wf(),
        y < f.spec_height(),
        from <= to <= f.spec_width(),
    ensures
        match res {
            Some(s) => is_first_bright(*f, y as int, from as int, to as int, t as int, s as int),
            None => forall|j: int| from <= j < to ==> !#[trigger] f.is_bright(j, y as int, t as int),
        },
        res matches Some(s) ==> spec_first_bright(*f, y as int, from as int, to as int, t as int) == Some(s as int),
        res is None ==> spec_first_bright(*f, y as int, from as int, to as int, t as int) is None,
{
    let mut x = from;
    while x < to
        invariant
            f.wf(),
            y < f.spec_height(),
            from <= x <= to <= f.spec_width(),
            forall|j: int| from <= j < x ==> !#[trigger] f.is_bright(j, y as int, t as int),
        decreases to - x,
    {
        if f.luma_at(x, y) > t {
            proof { lemma_first_bright_unique(*f, y as int, from as int, to as int, t as int, x as int); }
            return Some(x);
        }
        x += 1;
    }
    None
}

/// The last bright column of row `y` in `from..to`.
fn last_bright_in<P: Pixel>(f: &Frame<P>, y: usize, from: usize, to: usize, t: u32) -> (res: Option<usize>)
    requires
        f.wf(),
        y < f.spec_height(),
        from <= to <= f.spec_width(),
    ensures
        match res {
            Some(s) => from <= s < to && f.is_bright(s as int, y as int, t as int) && forall|j: int|
                s < j < to ==> !#[trigger] f.is_bright(j, y as int, t as int),
            None => forall|j: int| from <= j < to ==> !#[trigger] f.is_bright(j, y as int, t as int),
        },
{
    let mut x = to;
    while x > from
        invariant
            f.wf(),
            y < f.spec_height(),
            from <= x <= to <= f.spec_width(),
            forall|j: int| x <= j < to ==> !#[trigger] f.is_bright(j, y as int, t as int),
        decreases x,
    {
        if f.luma_at(x - 1, y) > t {
            return Some(x - 1);
        }
        x -= 1;
    }
    None
}

proof fn lemma_bounds_unique<P: Pixel>(f: Frame<P>, t: int, b: (int, int, int, int))
    requires
        is_bounds(f, t, b),
    ensures
        spec_bounds(f, t) == Some(b),
{
    let (x0, y0, x1, y1) = b;
    let wy = choose|y: int| #[trigger] f.is_bright(x0, y, t);
    assert(has_bright(f, t));
    let c = choose|c: (int, int, int, int)| is_bounds(f, t, c);
    assert(is_bounds(f, t, c));
    let (a0, b0, a1, b1) = c;
    let p = choose|y: int| #[trigger] f.is_bright(a0, y, t);
    let q = choose|y: int| #[trigger] f.is_bright(a1, y, t);
    let r = choose|x: int| #[trigger] f.is_bright(x, b0, t);
    let u = choose|x: int| #[trigger] f.is_bright(x, b1, t);
    let p2 = choose|y: int| #[trigger] f.is_bright(x1, y, t);
    let r2 = choose|x: int| #[trigger] f.is_bright(x, y0, t);
    let u2 = choose|x: int| #[trigger] f.is_bright(x, y1, t);
    assert(f.is_bright(a0, p, t));
    assert(f.is_bright(x0, wy, t));
    assert(f.is_bright(a1, q, t));
    assert(f.is_bright(x1, p2, t));
    assert(f.is_bright(r, b0, t));
    assert(f.is_bright(r2, y0, t));
    assert(f.is_bright(u, b1, t));
    assert(f.is_bright(u2, y1, t));
}

/// Bounding box of the bright pixels, inclusive. Returns `None` if the frame
/// holds none.
///
/// Once `x0`/`x1` are known a row can only widen the box from outside them, so
/// the interior is scanned only to decide whether the row contributes to `y1`.
fn bounds<P: Pixel>(f: &Frame<P>, threshold: u32) -> (res: Option<(usize, usize, usize, usize)>)
    requires
        f.wf(),
    ensures
        match res {
            Some((x0, y0, x1, y1)) => spec_bounds(*f, threshold as int) == Some(
                (x0 as int, y0 as int, x1 as int, y1 as int),
            ) && x0 <= x1 < f.spec_width() && y0 <= y1 < f.spec_height(),
            None => spec_bounds(*f, threshold as int) is None,
        },
{
    let ghost t = threshold as int;
    let (mut x0, mut x1) = (usize::MAX, 0usize);
    let (mut y0, mut y1) = (usize::MAX, 0usize);
    let ghost mut wy0: int = 0;
    let ghost mut wy1: int = 0;
    let ghost mut wx0: int = 0;
    let ghost mut wx1: int = 0;
    let mut y: usize = 0;
    while y < f.height
        invariant
            f.wf(),
            t == threshold as int,
            y <= f.spec_height(),
            x0 == usize::MAX ==> y0 == usize::MAX && x1 == 0 && forall|x: int, yy: int|
                yy < y ==> !#[trigger] f.is_bright(x, yy, t),
            x0 != usize::MAX ==> {
                &&& x0 <= x1 < f.spec_width()
                &&& y0 <= y1 < y
                &&& forall|x: int, yy: int| yy < y && #[trigger] f.is_bright(x, yy, t) ==> x0 <= x <= x1 && y0
                    <= yy <= y1
                &&& f.is_bright(x0 as int, wy0, t)
                &&& f.is_bright(x1 as int, wy1, t)
                &&& f.is_bright(wx0, y0 as int, t)
                &&& f.is_bright(wx1, y1 as int, t)
            },
        decreases f.spec_height() - y,
    {
        let mut hit = false;
        let ghost old_x0 = x0;
        let ghost old_x1 = x1;
        let ghost old_y0 = y0;
        if x0 == usize::MAX {
            let first_opt = first_bright_in(f, y, 0, f.width, threshold);
            match first_opt {
                Some(first) => {
                    let last = match last_bright_in(f, y, 0, f.width, threshold) {
                        Some(l) => l,
                        None => first,
                    };
                    x1 = last;
                    x0 = first;
                    hit = true;
                    proof {
                        wy0 = y as int;
                        wy1 = y as int;
                        wx1 = first as int;
                        assert forall|x: int| #[trigger] f.is_bright(x, y as int, t) implies x0 <= x <= x1 by {
                            if x < x0 {
                                assert(!f.is_bright(x, y as int, t));
                            }
                        }
                    }
                },
                None => {
                    proof {
                        assert forall|x: int| !#[trigger] f.is_bright(x, y as int, t) by {
                            if 0 <= x < f.spec_width() {
                            }
                        }
                    }
                },
            }
        } else {
            let left = first_bright_in(f, y, 0, x0, threshold);
            match left {
                Some(first) => {
                    x0 = first;
                    hit = true;
                    proof {
                        wy0 = y as int;
                        wx1 = first as int;
                    }
                },
                None => {},
            }
            let right = last_bright_in(f, y, x1 + 1, f.width, threshold);
            match right {
                Some(last) => {
                    x1 = last;
                    hit = true;
                    proof {
                        wy1 = y as int;
                        wx1 = last as int;
                    }
                },
                None => {},
            }
            proof {
                assert forall|x: int| #[trigger] f.is_bright(x, y as int, t) implies x0 <= x <= x1 by {
                    if x < old_x0 {
                        assert(left is Some);
                    }
                    if x > old_x1 {
                        assert(right is Some);
                    }
                }
            }
            if !hit {
                let mid = first_bright_in(f, y, x0, x1 + 1, threshold);
                match mid {
                    Some(s) => {
                        hit = true;
                        proof { wx1 = s as int; }
                    },
                    None => {
                        proof {
                            assert forall|x: int| !#[trigger] f.is_bright(x, y as int, t) by {
                                if f.is_bright(x, y as int, t) {
                                    assert(x0 <= x <= x1);
                                }
                            }
                        }
                    },
                }
            }
        }
        if hit {
            if y0 == usize::MAX {
                y0 = y;
                proof { wx0 = wx1; }
            }
            y1 = y;
        }
        proof {
            assert forall|x: int, yy: int| yy < y + 1 && #[trigger] f.is_bright(x, yy, t) implies x0 <= x <= x1
                && y0 <= yy <= y1 by {
                if yy < y {
                    assert(old_x0 != usize::MAX);
                }
            }
        }
        y += 1;
    }
    if x1 >= x0 && y0 != usize::MAX {
        proof {
            assert(x0 != usize::MAX);
            assert(f.is_bright(x0 as int, wy0, t));
            assert(f.is_bright(x1 as int, wy1, t));
            assert(f.is_bright(wx0, y0 as int, t));
            assert(f.is_bright(wx1, y1 as int, t));
            assert forall|x: int, yy: int| #[trigger] f.is_bright(x, yy, t) implies x0 <= x <= x1 && y0 <= yy
                <= y1 by {
                assert(yy < y);
            }
            let b = (x0 as int, y0 as int, x1 as int, y1 as int);
            assert(f.is_bright(b.0, wy0, t));
            assert(f.is_bright(b.2, wy1, t));
            assert(f.is_bright(wx0, b.1, t));
            assert(f.is_bright(wx1, b.3, t));
            lemma_bounds_unique(*f, t, (x0 as int, y0 as int, x1 as int, y1 as int));
        }
        Some((x0, y0, x1, y1))
    } else {
        proof {
            assert(!has_bright(*f, t)) by {
                if has_bright(*f, t) {
                    let (x, yy) = choose|x: int, yy: int| #[trigger] f.is_bright(x, yy, t);
                    assert(f.is_bright(x, yy, t));
                }
            }
        }
        None
    }
}

/// Counts the bright pixels that follow the first bright pixel on a row.
fn bright_run<P: Pixel>(f: &Frame<P>, start_x: usize, y: usize, threshold: u32) -> (res: usize)
    requires
        f.wf(),
        y < f.spec_height(),
    ensures
        res == spec_bright_run(*f, start_x as int, y as int, threshold as int),
{
    let xs = if start_x < f.width { start_x } else { f.width };
    let start = match first_bright_in(f, y, xs, f.width, threshold) {
        Some(s) => s,
        None => return 0,
    };
    let mut x = start;
    let mut count: usize = 0;
    while x < f.width && f.luma_at(x, y) > threshold
        invariant
            f.wf(),
            y < f.spec_height(),
            start <= x <= f.spec_width(),
            count == x - start,
            run_from(*f, start as int, y as int, threshold as int) == count + run_from(*f, x as int, y as int, threshold as int),
        decreases f.spec_width() - x,
    {
        x += 1;
        count += 1;
    }
    count
}

/// Round-half-up integer division.
#[inline]
fn div_round(n: i64, d: i64) -> (res: i64)
    requires
        0 <= n <= MAX_SIDE,
        1 <= d <= MAX_SIDE,
    ensures
        res == spec_div_round(n as int, d as int),
{
    (2 * n + d) / (2 * d)
}

/// Brightness at the centre of one block, addressed in image block coordinates.
#[inline]
fn block_bright<P: Pixel>(
    f: &Frame<P>,
    x0: usize,
    y0: usize,
    block_px: i32,
    ix: i32,
    iy: i32,
    threshold: u32,
) -> (res: Option<bool>)
    requires
        f.wf(),
        x0 < MAX_SIDE,
        y0 < MAX_SIDE,
        1 <= block_px < MAX_SIDE,
        0 <= ix,
        0 <= iy,
        ix * block_px <= MAX_SIDE + 2,
        iy * block_px <= MAX_SIDE + 2,
    ensures
        res == spec_block_bright(*f, x0 as int, y0 as int, block_px as int, ix as int, iy as int, threshold as int),
{
    let half = block_px / 2;
    f.bright_checked(x0 as i32 + ix * block_px + half, y0 as i32 + iy * block_px + half, threshold)
}

proof fn lemma_marker_bounds(ix: int, block: int, limit: int)
    requires
        0 <= ix,
        1 <= block,
        (ix + 2) * block <= limit,
    ensures
        ix * block <= limit,
        (ix + 1) * block <= limit,
        (ix + 2) * block <= limit,
        ix + 2 <= limit,
{
    assert(ix + 2 <= (ix + 2) * block) by (nonlinear_arith)
        requires
            1 <= block,
            0 <= ix,
    ;
    assert(ix * block <= (ix + 2) * block) by (nonlinear_arith)
        requires
            1 <= block,
    ;
    assert((ix + 1) * block <= (ix + 2) * block) by (nonlinear_arith)
        requires
            1 <= block,
    ;
}

/// A marker is a bright ring of three by three blocks with a dark centre.
/// `ix`/`iy` are image block coordinates, before any flip.
fn has_marker<P: Pixel>(
    f: &Frame<P>,
    x0: usize,
    y0: usize,
    block_px: i32,
    ix: i32,
    iy: i32,
    threshold: u32,
) -> (res: bool)
    requires
        f.wf(),
        x0 < MAX_SIDE,
        y0 < MAX_SIDE,
        1 <= block_px < MAX_SIDE,
        0 <= ix,
        0 <= iy,
        (ix + 2) * block_px <= MAX_SIDE + 2,
        (iy + 2) * block_px <= MAX_SIDE + 2,
    ensures
        res == spec_has_marker(*f, x0 as int, y0 as int, block_px as int, ix as int, iy as int, threshold as int),
{
    proof {
        lemma_marker_bounds(ix as int, block_px as int, MAX_SIDE + 2);
        lemma_marker_bounds(iy as int, block_px as int, MAX_SIDE + 2);
    }
    block_bright(f, x0, y0, block_px, ix, iy, threshold) == Some(true)
        && block_bright(f, x0, y0, block_px, ix + 2, iy, threshold) == Some(true)
        && block_bright(f, x0, y0, block_px, ix, iy + 2, threshold) == Some(true)
        && block_bright(f, x0, y0, block_px, ix + 2, iy + 2, threshold) == Some(true)
        && block_bright(f, x0, y0, block_px, ix + 1, iy + 1, threshold) == Some(false)
}

/// The layout has a sane origin and block size, and its blocks stay inside
/// `MAX_SIDE + 2` pixels on each axis.
pub open spec fn layout_in_range(layout: GridLayout) -> bool {
    &&& 0 <= layout.origin_x < MAX_SIDE
    &&& 0 <= layout.origin_y < MAX_SIDE
    &&& 1 <= layout.block_px < MAX_SIDE
    &&& 1 <= layout.cols
    &&& 1 <= layout.rows
    &&& layout.cols * layout.block_px <= MAX_SIDE + 2
    &&& layout.rows * layout.block_px <= MAX_SIDE + 2
}

pub proof fn lemma_center_fits(layout: GridLayout, ix: int, iy: int)
    requires
        layout_in_range(layout),
        0 <= ix < layout.cols,
        0 <= iy < layout.rows,
    ensures
        layout.center_fits(ix, iy),
{
    let (bx, by) = layout.spec_block_index(ix, iy);
    assert(0 <= bx < layout.cols);
    assert(0 <= by < layout.rows);
    assert(bx * layout.block_px <= layout.cols * layout.block_px) by (nonlinear_arith)
        requires
            0 <= bx <= layout.cols,
            1 <= layout.block_px,
    ;
    assert(by * layout.block_px <= layout.rows * layout.block_px) by (nonlinear_arith)
        requires
            0 <= by <= layout.rows,
            1 <= layout.block_px,
    ;
    assert(0 <= bx * layout.block_px) by (nonlinear_arith)
        requires
            0 <= bx,
            1 <= layout.block_px,
    ;
    assert(0 <= by * layout.block_px) by (nonlinear_arith)
        requires
            0 <= by,
            1 <= layout.block_px,
    ;
}

/// The strips run along the marker centre lines. The first strip block after
/// the ring is dark, then the strip alternates on every block.
fn check_strips<P: Pixel>(f: &Frame<P>, layout: &GridLayout, threshold: u32) -> (res: bool)
    requires
        f.wf(),
        layout_in_range(*layout),
        layout.cols >= 10,
        layout.rows >= 9,
    ensures
        res == spec_check_strips(*f, *layout, threshold as int),
{
    let mut i: i32 = 0;
    while i < 6
        invariant
            f.wf(),
            layout_in_range(*layout),
            layout.cols >= 10,
            layout.rows >= 9,
            0 <= i <= 6,
            forall|k: int| 0 <= k < i ==> #[trigger] strip_ok(*f, *layout, threshold as int, k),
        decreases 6 - i,
    {
        let want = i % 2 == 1;
        proof {
            lemma_center_fits(*layout, MARKER_CENTER as int, MARKER_BLOCKS + i);
            lemma_center_fits(*layout, MARKER_BLOCKS + i, MARKER_CENTER as int);
        }
        let (lx, ly) = layout.block_center(MARKER_CENTER, MARKER_BLOCKS + i);
        if f.bright_checked(lx, ly, threshold) != Some(want) {
            proof {
                assert(!strip_ok(*f, *layout, threshold as int, i as int));
            }
            return false;
        }
        let (tx, ty) = layout.block_center(MARKER_BLOCKS + i, MARKER_CENTER);
        if f.bright_checked(tx, ty, threshold) != Some(want) {
            proof {
                assert(!strip_ok(*f, *layout, threshold as int, i as int));
            }
            return false;
        }
        assert(strip_ok(*f, *layout, threshold as int, i as int));
        i += 1;
    }
    true
}

/// The candidate block sizes, relative to the guess from the marker run.
pub const CANDIDATE_ORDER: [i32; 5] = [0, 1, -1, 2, -2];

proof fn lemma_div_round_bound(n: int, d: int)
    requires
        0 <= n,
        1 <= d,
    ensures
        0 <= spec_div_round(n, d) <= n + 1,
        spec_div_round(n, d) * d <= n + d,
{
    let q = spec_div_round(n, d);
    assert(0 <= q * (2 * d) <= 2 * n + d) by (nonlinear_arith)
        requires
            q == (2 * n + d) / (2 * d),
            0 <= n,
            1 <= d,
    ;
    assert(q * d <= n + d) by (nonlinear_arith)
        requires
            q * (2 * d) <= 2 * n + d,
            1 <= d,
    ;
    if q >= 1 {
        assert((2 * q - 1) * d <= 2 * n) by (nonlinear_arith)
            requires
                q * (2 * d) <= 2 * n + d,
        ;
        assert(2 * q - 1 <= (2 * q - 1) * d) by (nonlinear_arith)
            requires
                q >= 1,
                d >= 1,
        ;
    }
}

/// A wrong block size can still divide the bounding box evenly, so every
/// candidate has to pass the marker test and the strip test.
fn try_candidate<P: Pixel>(
    f: &Frame<P>,
    x0: usize,
    y0: usize,
    span_x: usize,
    span_y: usize,
    block_px: i32,
    threshold: u32,
    total_bits: u32,
) -> (res: Option<GridLayout>)
    requires
        f.wf(),
        x0 < MAX_SIDE,
        y0 < MAX_SIDE,
        1 <= span_x <= MAX_SIDE,
        1 <= span_y <= MAX_SIDE,
        1 <= block_px < MAX_SIDE,
        total_bits <= 0x4000_0000,
    ensures
        res == spec_try_candidate(
            *f,
            x0 as int,
            y0 as int,
            span_x as int,
            span_y as int,
            block_px as int,
            threshold as int,
            total_bits as int,
        ),
        res matches Some(l) ==> layout_in_range(l),
{
    reveal(spec_try_candidate);
    let block = block_px as i64;

    // The shader forces an odd block count on both axes.
    let cols = div_round(span_x as i64, block);
    let rows = div_round(span_y as i64, block);
    proof {
        lemma_div_round_bound(span_x as int, block as int);
        lemma_div_round_bound(span_y as int, block as int);
        assert(0 <= cols * block) by (nonlinear_arith)
            requires
                0 <= cols,
                1 <= block,
        ;
        assert(0 <= rows * block) by (nonlinear_arith)
            requires
                0 <= rows,
                1 <= block,
        ;
    }
    if cols % 2 == 0 || rows % 2 == 0 {
        return None;
    }
    let dx = cols * block - span_x as i64;
    let dy = rows * block - span_y as i64;
    if dx > 2 || dx < -2 {
        return None;
    }
    if dy > 2 || dy < -2 {
        return None;
    }
    if cols < (DATA_BORDER * 2 + 2) as i64 {
        return None;
    }
    if rows < (DATA_BORDER * 2 + 1) as i64 {
        return None;
    }

    let (cols, rows) = (cols as i32, rows as i32);
    let last = MARKER_BLOCKS; // ring occupies [i, i + 3)

    proof {
        assert(2 * block <= (cols - 1) * block) by (nonlinear_arith)
            requires
                10 <= cols,
                1 <= block,
        ;
        assert(2 * block <= (rows - 1) * block) by (nonlinear_arith)
            requires
                9 <= rows,
                1 <= block,
        ;
        assert((cols - 1) * block == cols * block - block) by (nonlinear_arith);
        assert((rows - 1) * block == rows * block - block) by (nonlinear_arith);
    }
    let top_left = has_marker(f, x0, y0, block_px, 0, 0, threshold);
    let top_right = has_marker(f, x0, y0, block_px, cols - last, 0, threshold);
    let bottom_left = has_marker(f, x0, y0, block_px, 0, rows - last, threshold);
    let bottom_right = has_marker(f, x0, y0, block_px, cols - last, rows - last, threshold);

    let found = (if top_left { 1u32 } else { 0 }) + (if top_right { 1u32 } else { 0 })
        + (if bottom_left { 1u32 } else { 0 }) + (if bottom_right { 1u32 } else { 0 });
    if found != 3 {
        return None;
    }

    // The shader leaves the bottom right corner empty. The empty corner in the
    // capture gives the flip.
    let (flip_x, flip_y) = if !bottom_right {
        (false, false)
    } else if !bottom_left {
        (true, false)
    } else if !top_right {
        (false, true)
    } else {
        (true, true)
    };

    let layout = GridLayout {
        origin_x: x0 as i32,
        origin_y: y0 as i32,
        block_px,
        cols,
        rows,
        flip_x,
        flip_y,
    };

    let pairs = layout.pairs();
    if pairs <= 0 {
        return None;
    }

    let data_rows = (total_bits as i32 + pairs - 1) / pairs;
    if data_rows > rows - DATA_BORDER * 2 {
        return None;
    }

    if !check_strips(f, &layout, threshold) {
        return None;
    }

    Some(layout)
}

/// Detects the grid of the code in a frame.
pub fn detect<P: Pixel>(f: &Frame<'_, P>, total_bits: u32) -> (res: Result<GridLayout, DetectError>)
    requires
        f.wf(),
        total_bits <= 0x4000_0000,
    ensures
        res == spec_detect(*f, total_bits as int),
        res matches Ok(l) ==> layout_in_range(l),
{
    let peak = peak_luma(f);
    if peak < MIN_PEAK {
        return Err(DetectError::Dark { peak });
    }
    let threshold = peak / 2;

    let (x0, y0, x1, y1) = match bounds(f, threshold) {
        Some(b) => b,
        None => return Err(DetectError::NoBrightPixels),
    };
    let span_x = x1 - x0 + 1;
    let span_y = y1 - y0 + 1;

    // The outer edge of a marker ring runs for three blocks.
    let top_y = if y0 + 1 < f.height - 1 { y0 + 1 } else { f.height - 1 };
    let bottom_y = if y1 >= 1 { y1 - 1 } else { 0 };
    let run_top = bright_run(f, x0, top_y, threshold);
    let run_bottom = bright_run(f, x0, bottom_y, threshold);
    let run = if run_top < run_bottom { run_top } else { run_bottom };
    if run < 3 {
        return Err(DetectError::ShortMarkerRun { run: run as u32 });
    }
    proof {
        lemma_bright_run_bound(*f, x0 as int, top_y as int, threshold as int);
    }

    let guess = if (run + 1) / 3 > 1 { ((run + 1) / 3) as i32 } else { 1i32 }; // round(run / 3)
    let ghost b = (x0 as int, y0 as int, x1 as int, y1 as int);
    let ghost t = threshold as int;
    assert(spec_marker_run(*f, t, b) == run);
    assert(spec_detect(*f, total_bits as int) == spec_detect_in_box(*f, t, b, total_bits as int));
    let ghost outcome = match spec_search(*f, x0 as int, y0 as int, span_x as int, span_y as int, guess as int, t, total_bits as int) {
        Some(l) => Ok::<GridLayout, DetectError>(l),
        None => Err(DetectError::NoBlockSize { span_x: span_x as u32, span_y: span_y as u32, run: run as u32 }),
    };
    assert(spec_detect(*f, total_bits as int) == outcome);

    let order: [i32; 5] = [0, 1, -1, 2, -2];
    let mut i: usize = 0;
    while i < 5
        invariant
            f.wf(),
            total_bits <= 0x4000_0000,
            0 <= i <= 5,
            t == threshold as int,
            spec_detect(*f, total_bits as int) == outcome,
            outcome == match spec_search(*f, x0 as int, y0 as int, span_x as int, span_y as int, guess as int, t, total_bits as int) {
                Some(l) => Ok::<GridLayout, DetectError>(l),
                None => Err(DetectError::NoBlockSize { span_x: span_x as u32, span_y: span_y as u32, run: run as u32 }),
            },
            order@ == seq![0i32, 1i32, -1i32, 2i32, -2i32],
            1 <= guess < MAX_SIDE - 2,
            x0 < MAX_SIDE,
            y0 < MAX_SIDE,
            1 <= span_x <= MAX_SIDE,
            1 <= span_y <= MAX_SIDE,
            forall|k: int| 0 <= k < i ==> #[trigger] spec_try_at(*f, x0 as int, y0 as int, span_x as int,
                span_y as int, guess + order@[k], threshold as int, total_bits as int) is None,
        decreases 5 - i,
    {
        let candidate = guess + order[i];
        if candidate >= 1 {
            match try_candidate(f, x0, y0, span_x, span_y, candidate, threshold, total_bits) {
                Some(layout) => {
                    proof {
                        let sx = span_x as int;
                        let sy = span_y as int;
                        let tb = total_bits as int;
                        let g = guess as int;
                        assert(spec_try_at(*f, x0 as int, y0 as int, sx, sy, g + order@[i as int], t, tb) == Some(layout));
                        assert(spec_try_at(*f, x0 as int, y0 as int, sx, sy, g + order@[0], t, tb) is None ==> i >= 1);
                        if i >= 1 { assert(spec_try_at(*f, x0 as int, y0 as int, sx, sy, g + order@[0], t, tb) is None); }
                        if i >= 2 { assert(spec_try_at(*f, x0 as int, y0 as int, sx, sy, g + order@[1], t, tb) is None); }
                        if i >= 3 { assert(spec_try_at(*f, x0 as int, y0 as int, sx, sy, g + order@[2], t, tb) is None); }
                        if i >= 4 { assert(spec_try_at(*f, x0 as int, y0 as int, sx, sy, g + order@[3], t, tb) is None); }
                        assert(spec_search(*f, x0 as int, y0 as int, sx, sy, g, t, tb) == Some(layout));
                    }
                    return Ok(layout);
                },
                None => {},
            }
        }
        i += 1;
    }
    proof {
        let sx = span_x as int;
        let sy = span_y as int;
        let tb = total_bits as int;
        let g = guess as int;
        assert(spec_try_at(*f, x0 as int, y0 as int, sx, sy, g + order@[0], t, tb) is None);
        assert(spec_try_at(*f, x0 as int, y0 as int, sx, sy, g + order@[1], t, tb) is None);
        assert(spec_try_at(*f, x0 as int, y0 as int, sx, sy, g + order@[2], t, tb) is None);
        assert(spec_try_at(*f, x0 as int, y0 as int, sx, sy, g + order@[3], t, tb) is None);
        assert(spec_try_at(*f, x0 as int, y0 as int, sx, sy, g + order@[4], t, tb) is None);
        assert(spec_search(*f, x0 as int, y0 as int, sx, sy, g, t, tb) is None);
    }

    Err(DetectError::NoBlockSize { span_x: span_x as u32, span_y: span_y as u32, run: run as u32 })
}

proof fn lemma_bright_run_bound<P: Pixel>(f: Frame<P>, sx: int, y: int, t: int)
    requires
        sx >= 0,
        f.wf(),
    ensures
        0 <= spec_bright_run(f, sx, y, t) <= f.spec_width(),
{
    let xs = if sx < f.spec_width() { sx } else { f.spec_width() };
    match spec_first_bright(f, y, xs, f.spec_width(), t) {
        Some(s) => {
            assert(is_first_bright(f, y, xs, f.spec_width(), t, s));
            lemma_run_bound(f, s, y, t);
        },
        None => {},
    }
}

proof fn lemma_run_bound<P: Pixel>(f: Frame<P>, x: int, y: int, t: int)
    ensures
        0 <= run_from(f, x, y, t) <= if x < 0 { f.spec_width() } else if x <= f.spec_width() { f.spec_width() - x } else { 0 },
    decreases f.spec_width() - x,
{
    if 0 <= x < f.spec_width() && f.is_bright(x, y, t) {
        lemma_run_bound(f, x + 1, y, t);
    }
}

/// A frame is its pixels, stride and size: two frames that agree on them are
/// the same frame.
pub proof fn lemma_frame_determined<P: Pixel>(f: Frame<P>, g: Frame<P>)
    requires
        f.spec_pixels() == g.spec_pixels(),
        f.spec_stride() == g.spec_stride(),
        f.spec_width() == g.spec_width(),
        f.spec_height() == g.spec_height(),
    ensures
        f == g,
{
    broadcast use vstd::slice::axiom_slice_ext_equal;
    assert(f.px =~= g.px);
}

} // verus!
