//! Pixel formats of a captured frame, the frame buffer, and the decoder that
//! detects the grid once and then reads every frame.
use vstd::prelude::*;

use crate::api::cam_schema::{spec_bit_total, spec_fields_sum, CamConfig};
use crate::vrc::cam::center::{
    lemma_alike_read_ok, lemma_built_readers_alike, lemma_new_in_range, reader_fits, stream_value, spec_decode_value, total_bits,
    CodeReader, DecodedValue,
};
use crate::vrc::cam::grid::{detect, lemma_frame_determined, spec_detect, DetectError, Frame, GridLayout, MAX_SIDE};

verus! {

/// A pixel that reports its red, green and blue channels.
pub trait Pixel: Copy {
    /// The channels, red first.
    spec fn spec_rgb(&self) -> (u8, u8, u8);

    fn rgb(&self) -> (res: (u8, u8, u8))
        ensures
            res == self.spec_rgb(),
    ;
}

/// A pixel stored blue, green, red.
#[derive(Copy, Clone, Debug)]
pub struct Bgr {
    pub b: u8,
    pub g: u8,
    pub r: u8,
}

/// A pixel stored blue, green, red, alpha.
#[derive(Copy, Clone, Debug)]
pub struct Bgra {
    pub b: u8,
    pub g: u8,
    pub r: u8,
    pub a: u8,
}

impl Default for Bgr {
    fn default() -> (res: Self)
        ensures
            res.b == 0 && res.g == 0 && res.r == 0,
    {
        Bgr { b: 0, g: 0, r: 0 }
    }
}

impl Default for Bgra {
    fn default() -> (res: Self)
        ensures
            res.b == 0 && res.g == 0 && res.r == 0 && res.a == 0,
    {
        Bgra { b: 0, g: 0, r: 0, a: 0 }
    }
}

impl Pixel for Bgr {
    open spec fn spec_rgb(&self) -> (u8, u8, u8) {
        (self.r, self.g, self.b)
    }

    fn rgb(&self) -> (res: (u8, u8, u8)) {
        (self.r, self.g, self.b)
    }
}

impl Pixel for Bgra {
    open spec fn spec_rgb(&self) -> (u8, u8, u8) {
        (self.r, self.g, self.b)
    }

    fn rgb(&self) -> (res: (u8, u8, u8)) {
        (self.r, self.g, self.b)
    }
}

/// Bytes read as blue, green, red triples; a partial pixel at the end is
/// left out.
pub open spec fn spec_bgr(bytes: Seq<u8>) -> Seq<Bgr> {
    Seq::new(bytes.len() / 3, |i: int| Bgr { b: bytes[3 * i], g: bytes[3 * i + 1], r: bytes[3 * i + 2] })
}

/// Bytes read as blue, green, red, alpha quadruples; a partial pixel at the
/// end is left out.
pub open spec fn spec_bgra(bytes: Seq<u8>) -> Seq<Bgra> {
    Seq::new(
        bytes.len() / 4,
        |i: int| Bgra { b: bytes[4 * i], g: bytes[4 * i + 1], r: bytes[4 * i + 2], a: bytes[4 * i + 3] },
    )
}

/// The raw bytes of one captured frame.
pub struct Img(pub Vec<u8>);

impl Img {
    /// The frame read as blue, green, red triples. A partial pixel at the
    /// end is left out.
    pub fn pixels_bgr(&self) -> (res: Vec<Bgr>)
        ensures
            res@ == spec_bgr(self.0@),
            res@.len() == self.0@.len() / 3,
            forall|i: int|
                0 <= i < res@.len() ==> (#[trigger] res@[i]).b == self.0@[3 * i] && res@[i].g
                    == self.0@[3 * i + 1] && res@[i].r == self.0@[3 * i + 2],
    {
        let n = self.0.len() / 3;
        let mut out: Vec<Bgr> = Vec::with_capacity(n);
        let mut i: usize = 0;
        while i < n
            invariant
                n == self.0@.len() / 3,
                self.0@.len() <= usize::MAX,
                i <= n,
                out@.len() == i,
                forall|k: int|
                    0 <= k < i ==> (#[trigger] out@[k]).b == self.0@[3 * k] && out@[k].g
                        == self.0@[3 * k + 1] && out@[k].r == self.0@[3 * k + 2],
            decreases n - i,
        {
            assert(3 * i + 3 <= self.0@.len()) by (nonlinear_arith)
                requires
                    i < n,
                    n == self.0@.len() / 3,
            ;
            out.push(Bgr { b: self.0[3 * i], g: self.0[3 * i + 1], r: self.0[3 * i + 2] });
            i += 1;
        }
        assert(out@ =~= spec_bgr(self.0@));
        out
    }

    /// The frame read as blue, green, red, alpha quadruples. A partial pixel
    /// at the end is left out.
    pub fn pixels_bgra(&self) -> (res: Vec<Bgra>)
        ensures
            res@ == spec_bgra(self.0@),
            res@.len() == self.0@.len() / 4,
            forall|i: int|
                0 <= i < res@.len() ==> (#[trigger] res@[i]).b == self.0@[4 * i] && res@[i].g
                    == self.0@[4 * i + 1] && res@[i].r == self.0@[4 * i + 2] && res@[i].a
                    == self.0@[4 * i + 3],
    {
        let n = self.0.len() / 4;
        let mut out: Vec<Bgra> = Vec::with_capacity(n);
        let mut i: usize = 0;
        while i < n
            invariant
                n == self.0@.len() / 4,
                self.0@.len() <= usize::MAX,
                i <= n,
                out@.len() == i,
                forall|k: int|
                    0 <= k < i ==> (#[trigger] out@[k]).b == self.0@[4 * k] && out@[k].g
                        == self.0@[4 * k + 1] && out@[k].r == self.0@[4 * k + 2] && out@[k].a
                        == self.0@[4 * k + 3],
            decreases n - i,
        {
            assert(4 * i + 4 <= self.0@.len()) by (nonlinear_arith)
                requires
                    i < n,
                    n == self.0@.len() / 4,
            ;
            out.push(
                Bgra {
                    b: self.0[4 * i],
                    g: self.0[4 * i + 1],
                    r: self.0[4 * i + 2],
                    a: self.0[4 * i + 3],
                },
            );
            i += 1;
        }
        assert(out@ =~= spec_bgra(self.0@));
        out
    }
}

/// `px` holds a frame of `w` by `h` pixels, rows packed, with both sides
/// inside the sizes that the grid allows.
pub open spec fn frame_fits<P>(px: Seq<P>, w: int, h: int) -> bool {
    &&& 0 < w < MAX_SIDE
    &&& 0 < h < MAX_SIDE
    &&& w * (h - 1) + w <= px.len()
}

/// The frame of `w` by `h` pixels packed in `px`.
pub open spec fn packed_frame<'a, P: Pixel>(px: Seq<P>, w: int, h: int) -> Frame<'a, P> {
    choose|f: Frame<'a, P>|
        f.wf() && f.spec_width() == w && f.spec_height() == h && f.spec_stride() == w && f.spec_pixels() == px
}

/// The pixels of the reader's band in the frame, and the row stride; `None`
/// when the band leaves the frame.
pub open spec fn band_in<P: Pixel>(r: CodeReader, f: Frame<P>) -> Option<(Seq<P>, int)> {
    let (x, y, w, h) = r.spec_band_rect();
    let s = f.spec_stride();
    if 0 <= x && 0 <= y && 0 < w && 0 < h && x + w <= f.spec_width() && y + h <= f.spec_height() {
        Some((f.spec_pixels().subrange(y * s + x, y * s + x + (h - 1) * s + w), s))
    } else {
        None
    }
}

/// The reader finds the values in the frame: its band lies in the frame and
/// a read of it writes the fields into `out_len` slots.
pub open spec fn reads_frame<P: Pixel>(r: CodeReader, f: Frame<P>, out_len: int) -> bool {
    match band_in(r, f) {
        Some((band, stride)) => r.read_ok(band, stride, out_len),
        None => false,
    }
}

/// What detection finds in the frame of `w` by `h` pixels packed in `px`:
/// `BadFrame` when the pixels do not cover it.
pub open spec fn spec_detect_packed<P: Pixel>(px: Seq<P>, w: int, h: int, total: int) -> Result<GridLayout, DetectError> {
    if frame_fits(px, w, h) {
        spec_detect(packed_frame(px, w, h), total)
    } else {
        Err(DetectError::BadFrame)
    }
}

/// Detects the grid in the frame of `w` by `h` pixels packed in `px`.
fn detect_packed<P: Pixel>(px: &[P], w: usize, h: usize, total_bits: u32) -> (res: Result<GridLayout, DetectError>)
    requires
        0 < w < MAX_SIDE,
        0 < h < MAX_SIDE,
        total_bits <= 0x4000_0000,
    ensures
        res == spec_detect_packed(px@, w as int, h as int, total_bits as int),
{
    match Frame::packed(px, w, h) {
        Some(f) => {
            proof {
                let g = packed_frame::<P>(px@, w as int, h as int);
                assert(f.wf() && f.spec_width() == w && f.spec_height() == h && f.spec_stride() == w
                    && f.spec_pixels() == px@);
                lemma_frame_determined(g, f);
            }
            detect(&f, total_bits)
        },
        None => Err(DetectError::BadFrame),
    }
}

/// The reader that `new` builds for a schema, a code width and a layout.
pub open spec fn built_reader(schema: CamConfig, total: int, layout: GridLayout) -> CodeReader {
    choose|r: CodeReader| r.wf() && r.built_from(schema, total, layout)
}

/// A frame of the decoder yields values: the frame fits its size, and the
/// decoder's reader, or else the reader of the layout detected in this frame,
/// reads the fields.
pub open spec fn spec_run_ok<P: Pixel>(d: Decoder, px: Seq<P>, out_len: int) -> bool {
    let w = d.spec_w() as int;
    let h = d.spec_h() as int;
    frame_fits(px, w, h) && {
        let f = packed_frame(px, w, h);
        match d.spec_reader() {
            Some(r) => reads_frame(r, f, out_len),
            None => match spec_detect(f, d.spec_total_bits()) {
                Ok(l) => reader_fits(l, d.spec_total_bits(), d.spec_schema().fields@.len() as int)
                    && reads_frame(built_reader(d.spec_schema(), d.spec_total_bits(), l), f, out_len),
                Err(_) => false,
            },
        }
    }
}

/// Finds the grid in captured frames and reads the code out of them.
pub struct Decoder {
    pub w: u32,
    pub h: u32,
    pub img: Img,
    pub use_rgb: bool,
    pub schema: CamConfig,
    pub grid_layout: Option<GridLayout>,
    total_bits: u32,
    reader: Option<CodeReader>,
}

/// A schema whose fields the reader can decode: every field is 1 to 32 bits
/// wide, the widths add up within 32 bits, and a stated total covers them.
pub open spec fn schema_decodable(c: CamConfig) -> bool {
    &&& forall|i: int| 0 <= i < c.fields@.len() ==> 1 <= #[trigger] c.fields@[i].bits <= 32
    &&& spec_fields_sum(c.fields@) <= u32::MAX
    &&& (c.total_bits == 0 || c.total_bits >= spec_fields_sum(c.fields@))
}

impl Decoder {
    /// The schema is decodable and its code fits the detector; a reader, once
    /// built, belongs to this schema.
    pub closed spec fn wf(&self) -> bool {
        &&& schema_decodable(self.schema)
        &&& self.total_bits == spec_bit_total(self.schema)
        &&& self.total_bits <= 0x4000_0000
        &&& match self.reader {
            Some(r) => r.wf() && r.plan_in_buffer(),
            None => true,
        }
    }

    pub closed spec fn spec_total_bits(&self) -> int {
        self.total_bits as int
    }

    pub closed spec fn spec_reader(&self) -> Option<CodeReader> {
        self.reader
    }

    pub closed spec fn spec_w(&self) -> u32 {
        self.w
    }

    pub closed spec fn spec_h(&self) -> u32 {
        self.h
    }

    pub closed spec fn spec_bytes(&self) -> Seq<u8> {
        self.img.0@
    }

    pub closed spec fn spec_use_rgb(&self) -> bool {
        self.use_rgb
    }

    pub closed spec fn spec_schema(&self) -> CamConfig {
        self.schema
    }

    pub closed spec fn spec_grid_layout(&self) -> Option<GridLayout> {
        self.grid_layout
    }

    /// The frame size, the image, the pixel format and the schema agree.
    pub closed spec fn same_input(&self, other: &Self) -> bool {
        &&& self.w == other.w
        &&& self.h == other.h
        &&& self.img == other.img
        &&& self.use_rgb == other.use_rgb
        &&& self.schema == other.schema
        &&& self.total_bits == other.total_bits
    }

    /// A decoder with no image and no layout yet.
    pub fn new(conf: CamConfig) -> (res: Self)
        requires
            schema_decodable(conf),
            spec_bit_total(conf) <= 0x4000_0000,
        ensures
            res.wf(),
            res.spec_w() == 0 && res.spec_h() == 0,
            res.spec_bytes() == Seq::<u8>::empty(),
            res.spec_use_rgb(),
            res.spec_schema() == conf,
            res.spec_grid_layout() is None,
            res.spec_reader() is None,
            res.spec_total_bits() == spec_bit_total(conf),
    {
        let total_bits = total_bits(&conf);
        Decoder {
            w: 0,
            h: 0,
            img: Img(Vec::new()),
            use_rgb: true,
            total_bits,
            schema: conf,
            grid_layout: None,
            reader: None,
        }
    }

    /// Looks for the grid in the current image. `BadFrame` when the image does
    /// not hold a `w` by `h` frame.
    pub fn detect_grid(&self, total_bits: u32) -> (res: Result<GridLayout, DetectError>)
        requires
            total_bits <= 0x4000_0000,
        ensures
            !(0 < self.spec_w() < MAX_SIDE && 0 < self.spec_h() < MAX_SIDE) ==> res == Err::<GridLayout, DetectError>(
                DetectError::BadFrame,
            ),
            (0 < self.spec_w() < MAX_SIDE && 0 < self.spec_h() < MAX_SIDE) ==> res == (if self.spec_use_rgb() {
                spec_detect_packed(spec_bgr(self.spec_bytes()), self.spec_w() as int, self.spec_h() as int, total_bits as int)
            } else {
                spec_detect_packed(spec_bgra(self.spec_bytes()), self.spec_w() as int, self.spec_h() as int, total_bits as int)
            }),
    {
        if self.w == 0 || self.h == 0 || self.w as usize >= MAX_SIDE || self.h as usize >= MAX_SIDE {
            return Err(DetectError::BadFrame);
        }
        if self.use_rgb {
            let px = self.img.pixels_bgr();
            detect_packed(px.as_slice(), self.w as usize, self.h as usize, total_bits)
        } else {
            let px = self.img.pixels_bgra();
            detect_packed(px.as_slice(), self.w as usize, self.h as usize, total_bits)
        }
    }

    /// Takes a new frame size: the image becomes `w * h` zeroed pixels and the
    /// layout is forgotten.
    pub fn resize(&mut self, w: u32, h: u32)
        requires
            w * h * 4 <= usize::MAX,
        ensures
            final(self).spec_w() == w && final(self).spec_h() == h,
            final(self).spec_bytes().len() == w * h * (if old(self).spec_use_rgb() { 3int } else { 4int }),
            forall|i: int| 0 <= i < final(self).spec_bytes().len() ==> final(self).spec_bytes()[i] == 0,
            final(self).spec_use_rgb() == old(self).spec_use_rgb(),
            final(self).spec_schema() == old(self).spec_schema(),
            final(self).spec_total_bits() == old(self).spec_total_bits(),
            final(self).spec_grid_layout() is None,
            final(self).spec_reader() is None,
            old(self).wf() ==> final(self).wf(),
    {
        self.w = w;
        self.h = h;
        let px = (w as usize) * (h as usize);
        let bytes = if self.use_rgb { px * 3 } else { px * 4 };
        self.img.0 = vec![0u8; bytes];
        self.invalidate();
    }

    /// Forgets the layout, so the next frame detects it again.
    pub fn invalidate(&mut self)
        ensures
            final(self).spec_grid_layout() is None,
            final(self).spec_reader() is None,
            final(self).same_input(old(self)),
            old(self).wf() ==> final(self).wf(),
    {
        self.grid_layout = None;
        self.reader = None;
    }

    /// The reader of the detected layout.
    pub fn reader(&self) -> (res: Option<&CodeReader>)
        ensures
            res == match self.spec_reader() {
                Some(r) => Some(&r),
                None => None::<&CodeReader>,
            },
    {
        self.reader.as_ref()
    }

    /// Decodes the current image into `out`. Detects the grid on the first
    /// frame that shows it; later frames reuse the layout.
    pub fn process_frame(&mut self, out: &mut [DecodedValue]) -> (res: bool)
        requires
            old(self).wf(),
        ensures
            res == if old(self).spec_use_rgb() {
                spec_run_ok(*old(self), spec_bgr(old(self).spec_bytes()), old(out)@.len() as int)
            } else {
                spec_run_ok(*old(self), spec_bgra(old(self).spec_bytes()), old(out)@.len() as int)
            },
            final(self).wf(),
            final(self).same_input(old(self)),
            old(self).spec_reader() is Some ==> final(self).spec_reader() is Some && final(self).spec_grid_layout()
                == old(self).spec_grid_layout(),
            final(self).spec_reader() is None ==> final(self).spec_grid_layout() == old(self).spec_grid_layout(),
            final(out)@.len() == old(out)@.len(),
            !res ==> final(out)@ == old(out)@,
            res ==> (final(self).spec_reader() matches Some(r) && forall|j: int|
                0 <= j < r.spec_plan().len() ==> #[trigger] final(out)@[j] == spec_decode_value(
                    stream_value(r.spec_bits(), r.spec_plan()[j].offset as int, r.spec_plan()[j].bits as int)
                        as u32,
                    r.spec_plan()[j].bits,
                    r.spec_plan()[j].kind,
                )),
    {
        if self.use_rgb {
            let px = self.img.pixels_bgr();
            self.run(px.as_slice(), out)
        } else {
            let px = self.img.pixels_bgra();
            self.run(px.as_slice(), out)
        }
    }

    fn run<P: Pixel>(&mut self, px: &[P], out: &mut [DecodedValue]) -> (res: bool)
        requires
            old(self).wf(),
        ensures
            res == spec_run_ok(*old(self), px@, old(out)@.len() as int),
            final(self).wf(),
            final(self).same_input(old(self)),
            old(self).spec_reader() is Some ==> final(self).spec_reader() is Some && final(self).spec_grid_layout()
                == old(self).spec_grid_layout(),
            final(self).spec_reader() is None ==> final(self).spec_grid_layout() == old(self).spec_grid_layout(),
            final(out)@.len() == old(out)@.len(),
            !res ==> final(out)@ == old(out)@,
            res ==> (final(self).spec_reader() matches Some(r) && forall|j: int|
                0 <= j < r.spec_plan().len() ==> #[trigger] final(out)@[j] == spec_decode_value(
                    stream_value(r.spec_bits(), r.spec_plan()[j].offset as int, r.spec_plan()[j].bits as int)
                        as u32,
                    r.spec_plan()[j].bits,
                    r.spec_plan()[j].kind,
                )),
    {
        if self.w == 0 || self.h == 0 || self.w as usize >= MAX_SIDE || self.h as usize >= MAX_SIDE {
            return false;
        }
        let frame = match Frame::packed(px, self.w as usize, self.h as usize) {
            Some(f) => f,
            None => return false,
        };
        let ghost w = self.w as int;
        let ghost h = self.h as int;
        proof {
            let g = packed_frame::<P>(px@, w, h);
            assert(frame.wf() && frame.spec_width() == w && frame.spec_height() == h && frame.spec_stride() == w
                && frame.spec_pixels() == px@);
            lemma_frame_determined(g, frame);
        }

        // Detect once. The caller controls the retry rate.
        if self.reader.is_none() {
            let layout = match detect(&frame, self.total_bits) {
                Ok(v) => v,
                // Most frames are game screenshots and hold no code.
                Err(_) => return false,
            };
            proof {
                if reader_fits(layout, self.total_bits as int, self.schema.fields@.len() as int) {
                    lemma_new_in_range(layout, self.total_bits as int);
                }
            }
            let r = match CodeReader::new(&self.schema, self.total_bits, layout) {
                Some(r) => r,
                None => return false,
            };
            proof {
                let br = built_reader(self.schema, self.total_bits as int, layout);
                assert(r.wf() && r.built_from(self.schema, self.total_bits as int, layout));
                lemma_built_readers_alike(br, r, self.schema, self.total_bits as int, layout);
                match band_in(r, frame) {
                    Some((b, st)) => lemma_alike_read_ok(br, r, b, st, out@.len() as int),
                    None => lemma_alike_read_ok(br, r, Seq::<P>::empty(), 0, out@.len() as int),
                }
            }
            self.grid_layout = Some(layout);
            self.reader = Some(r);
        }
        match &mut self.reader {
            Some(r) => {
                let (bx, by, bw, bh) = r.band_rect();
                let band = frame.band(bx, by, bw, bh);
                match band {
                    Some((band, stride)) => {
                        assert(band_in(*r, frame) == Some((band@, stride as int)));
                        r.read(band, stride, out)
                    },
                    // The frame size changed without a call to resize.
                    None => {
                        assert(band_in(*r, frame) is None);
                        false
                    },
                }
            },
            None => false,
        }
    }
}

} // verus!
