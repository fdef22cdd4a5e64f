//! Reads one frame of the Custom/DataReference code into decoded values.
//!
//! Everything is built once, when the grid layout is first detected. A
//! decoding frame then does one clear of the bit words, two block samples per
//! bit, and one `extract` and `decode_value` per field. The bit loop keeps its
//! frame statistics as integers.
use vstd::prelude::*;
use vstd::arithmetic::power2::*;
use vstd::bits::*;
use vstd::arithmetic::div_mod::lemma_fundamental_div_mod_converse;

use crate::api::cam_schema::{spec_bit_sum, spec_bit_total, spec_fields_sum, CamConfig, CamField};
use crate::text::{count_text, is_whitespace, push_char, signed_text, spec_decimal, spec_signed_decimal, spec_trim_end};
use crate::vrc::cam::algo::Pixel;
use crate::vrc::cam::grid::{lemma_center_fits, layout_in_range, luma, luma_rgb, GridLayout, DATA_BORDER, MARKER_BLOCKS, MARKER_CENTER, MAX_SIDE};

verus! {

/// A frame whose calibration blocks are closer together than this is not
/// showing the code.
pub const MIN_CONTRAST: i32 = 12;

// ---------------------------------------------------------------------------
// Field plan
// ---------------------------------------------------------------------------

/// How the bits of a field are turned into a value.
#[derive(Clone, Copy, Debug, PartialEq, Eq)]
pub enum Kind {
    ClampedFloat,
    Int,
    UInt,
    Bool,
}

/// Where a field sits in the code and how it decodes.
#[derive(Clone, Copy, Debug)]
pub struct FieldPlan {
    pub offset: u32,
    pub bits: u32,
    pub kind: Kind,
}

/// The plan of field `i`: fields are packed in declaration order with no gaps.
pub open spec fn spec_plan_of(fields: Seq<CamField>, i: int) -> FieldPlan {
    FieldPlan { offset: spec_bit_sum(fields, i) as u32, bits: fields[i].bits, kind: Kind::ClampedFloat }
}

proof fn lemma_bit_sum_mono(fields: Seq<CamField>, m: int, n: int)
    requires
        0 <= m <= n,
    ensures
        spec_bit_sum(fields, m) <= spec_bit_sum(fields, n),
    decreases n,
{
    if m < n {
        lemma_bit_sum_mono(fields, m, n - 1);
    }
}

/// One plan per field, with the running bit offset.
pub fn plan_fields(schema: &CamConfig) -> (res: Vec<FieldPlan>)
    requires
        spec_fields_sum(schema.fields@) <= u32::MAX,
    ensures
        res@.len() == schema.fields@.len(),
        forall|i: int| 0 <= i < res@.len() ==> #[trigger] res@[i] == spec_plan_of(schema.fields@, i),
{
    let mut out: Vec<FieldPlan> = Vec::with_capacity(schema.fields.len());
    let mut offset: u32 = 0;
    let mut i: usize = 0;
    while i < schema.fields.len()
        invariant
            i <= schema.fields@.len(),
            out@.len() == i,
            offset == spec_bit_sum(schema.fields@, i as int),
            spec_fields_sum(schema.fields@) <= u32::MAX,
            forall|k: int| 0 <= k < i ==> #[trigger] out@[k] == spec_plan_of(schema.fields@, k),
        decreases schema.fields@.len() - i,
    {
        let f = &schema.fields[i];
        out.push(FieldPlan { offset, bits: f.bits, kind: kind_of(f) });
        proof {
            lemma_bit_sum_mono(schema.fields@, i + 1, schema.fields@.len() as int);
        }
        offset = offset + f.bits;
        i += 1;
    }
    out
}

/// The decoding of a field. Every field is read as a clamped float.
pub fn kind_of(_field: &CamField) -> (res: Kind)
    ensures
        res == Kind::ClampedFloat,
{
    Kind::ClampedFloat
}

/// Width of the code. A `total_bits` of 0 means the sum of the fields, so
/// this is what must be handed to `detect`, not the raw field.
pub fn total_bits(schema: &CamConfig) -> (res: u32)
    requires
        schema.total_bits == 0 ==> spec_fields_sum(schema.fields@) <= u32::MAX,
    ensures
        res == spec_bit_total(*schema),
{
    if schema.total_bits != 0 {
        schema.total_bits
    } else {
        let mut sum: u32 = 0;
        let mut i: usize = 0;
        while i < schema.fields.len()
            invariant
                i <= schema.fields@.len(),
                sum == spec_bit_sum(schema.fields@, i as int),
                spec_fields_sum(schema.fields@) <= u32::MAX,
            decreases schema.fields@.len() - i,
        {
            proof {
                lemma_bit_sum_mono(schema.fields@, i + 1, schema.fields@.len() as int);
            }
            sum = sum + schema.fields[i].bits;
            i += 1;
        }
        sum
    }
}

/// Why a frame could not be read.
#[derive(Clone, Copy, Debug, PartialEq, Eq)]
pub enum ReadError {
    /// `out` is shorter than the schema. A caller bug: the layout is fine and
    /// detecting it again will not help.
    OutTooShort { need: usize, got: usize },
    /// The sample points do not fit inside the band. The layout is wrong.
    BandTooSmall,
    /// The calibration blocks are closer than `MIN_CONTRAST`. Either the sender
    /// stopped painting the code, or the layout is stale. A negative gap means
    /// the two strip blocks are swapped, i.e. the flip is wrong.
    NoContrast { high: i32, low: i32 },
}

/// The message of a read error.
pub open spec fn spec_read_error_message(e: ReadError) -> Seq<char> {
    match e {
        ReadError::OutTooShort { need, got } => "out holds "@ + spec_decimal(got as nat) + " values, the schema needs "@
            + spec_decimal(need as nat),
        ReadError::BandTooSmall => "the sample points fall outside the band"@,
        ReadError::NoContrast { high, low } => "calibration gap is "@ + spec_signed_decimal(high - low) + " (high "@
            + spec_signed_decimal(high as int) + ", low "@ + spec_signed_decimal(low as int) + ")"@,
    }
}

impl ReadError {
    /// The message shown to the user.
    pub fn message(&self) -> (res: String)
        ensures
            res@ == spec_read_error_message(*self),
    {
        match *self {
            ReadError::OutTooShort { need, got } => {
                let mut s = String::from_str("out holds ");
                let g = count_text(got);
                s.append(g.as_str());
                s.append(" values, the schema needs ");
                let n = count_text(need);
                s.append(n.as_str());
                s
            },
            ReadError::BandTooSmall => String::from_str("the sample points fall outside the band"),
            ReadError::NoContrast { high, low } => {
                let mut s = String::from_str("calibration gap is ");
                let gap = signed_text(high as i64 - low as i64);
                s.append(gap.as_str());
                s.append(" (high ");
                let h = signed_text(high as i64);
                s.append(h.as_str());
                s.append(", low ");
                let l = signed_text(low as i64);
                s.append(l.as_str());
                s.append(")");
                s
            },
        }
    }
}

// ---------------------------------------------------------------------------
// Bit words
// ---------------------------------------------------------------------------

/// Bit `i` of a packed code: bit `i % 64` of word `i / 64`.
pub open spec fn word_bit(words: Seq<u64>, i: int) -> bool {
    (words[i / 64] >> ((i % 64) as u64)) & 1 == 1
}

/// The value of the `count` bits of the code from `offset` on, low bit first.
pub open spec fn stream_value(words: Seq<u64>, offset: int, count: int) -> int
    decreases count,
{
    if count <= 0 {
        0
    } else {
        (if word_bit(words, offset) { 1int } else { 0int }) + 2 * stream_value(words, offset + 1, count - 1)
    }
}

/// The value of the `count` bits of `x` from bit `s` on, low bit first.
pub open spec fn wide_value(x: u128, s: int, count: int) -> int
    decreases count,
{
    if count <= 0 {
        0
    } else {
        ((x >> (s as u128)) & 1) + 2 * wide_value(x, s + 1, count - 1)
    }
}

proof fn lemma_extract_words(a: u64, b: u64, shift: u64, count: u64)
    by (bit_vector)
    requires
        shift < 64,
        1 <= count <= 32,
    ensures
        ({
            let v = a >> shift;
            let v2 = if shift + count > 64 { v | (b << ((64 - shift) as u64)) } else { v };
            let r = if count >= 32 { v2 as u32 } else { (v2 & (((1u64 << count) - 1) as u64)) as u32 };
            let x = (a as u128) | ((b as u128) << 64u128);
            r as u128 == (x >> (shift as u128)) & (((1u128 << (count as u128)) - 1) as u128)
        }),
{
}

proof fn lemma_mask_step(x: u128, s: u128, c: u128)
    by (bit_vector)
    requires
        s < 96,
        1 <= c <= 32,
    ensures
        ((x >> s) & (((1u128 << c) - 1) as u128)) as int == ((x >> s) & 1) as int + 2 * ((x >> ((s + 1) as u128))
            & (((1u128 << ((c - 1) as u128)) - 1) as u128)) as int,
{
}

proof fn lemma_wide_bit(a: u64, b: u64, s: u128)
    by (bit_vector)
    requires
        s < 128,
    ensures
        ({
            let x = (a as u128) | ((b as u128) << 64u128);
            &&& (x >> s) & 1 == 0 || (x >> s) & 1 == 1
            &&& s < 64 ==> (x >> s) & 1 == ((a >> (s as u64)) & 1) as u128
            &&& s >= 64 ==> (x >> s) & 1 == ((b >> ((s - 64) as u64)) & 1) as u128
        }),
{
}

proof fn lemma_wide_value(x: u128, s: int, c: int)
    requires
        0 <= s,
        0 <= c <= 32,
        s + c <= 96,
    ensures
        ((x >> (s as u128)) & (((1u128 << (c as u128)) - 1) as u128)) == wide_value(x, s, c),
    decreases c,
{
    if c == 0 {
        assert((x >> (s as u128)) & (((1u128 << 0u128) - 1) as u128) == 0) by (bit_vector);
    } else {
        lemma_mask_step(x, s as u128, c as u128);
        lemma_wide_value(x, s + 1, c - 1);
    }
}

proof fn lemma_stream_is_wide(words: Seq<u64>, w: int, s: int, c: int)
    requires
        0 <= w,
        0 <= s,
        0 <= c,
        s + c <= 96,
        64 * w + s + c <= 64 * words.len(),
        s < 64 ==> w < words.len(),
    ensures
        ({
            let b = if w + 1 < words.len() { words[w + 1] } else { 0u64 };
            let x = (words[w] as u128) | ((b as u128) << 64u128);
            stream_value(words, 64 * w + s, c) == wide_value(x, s, c)
        }),
    decreases c,
{
    let b = if w + 1 < words.len() { words[w + 1] } else { 0u64 };
    let x = (words[w] as u128) | ((b as u128) << 64u128);
    if c > 0 {
        lemma_stream_is_wide(words, w, s + 1, c - 1);
        lemma_wide_bit(words[w], b, s as u128);
        let i = 64 * w + s;
        if s < 64 {
            assert(i / 64 == w && i % 64 == s);
        } else {
            assert(i / 64 == w + 1 && i % 64 == s - 64);
        }
    }
}

/// The `count` bits of the code from `offset` on, low bit first, as the
/// shader packs each field.
pub fn extract(words: &[u64], offset: usize, count: usize) -> (res: u32)
    requires
        1 <= count <= 32,
        offset + count <= 64 * words@.len(),
    ensures
        res == stream_value(words@, offset as int, count as int),
{
    let word = offset >> 6;
    let shift = offset & 63;
    assert(word == offset / 64 && shift == offset % 64) by (bit_vector)
        requires
            word == offset >> 6,
            shift == offset & 63,
    ;
    let a = words[word];
    let mut value = a >> (shift as u64);
    let ghost b = if word + 1 < words@.len() { words@[word + 1] } else { 0u64 };
    // `count <= 32`, so this branch implies `shift > 32` and the shift below
    // cannot reach 64.
    if shift + count > 64 {
        value = value | (words[word + 1] << ((64 - shift) as u64));
    }
    let res = if count >= 32 {
        #[verifier::truncate]
        (value as u32)
    } else {
        assert((1u64 << (count as u64)) >= 1) by (bit_vector)
            requires
                count < 32,
        ;
        #[verifier::truncate]
        ((value & ((1u64 << (count as u64)) - 1)) as u32)
    };
    proof {
        lemma_extract_words(a, b, shift as u64, count as u64);
        let x = (a as u128) | ((b as u128) << 64u128);
        lemma_wide_value(x, shift as int, count as int);
        lemma_stream_is_wide(words@, word as int, shift as int, count as int);
    }
    res
}

// ---------------------------------------------------------------------------
// Values
// ---------------------------------------------------------------------------

/// One decoded field. A clamped float is kept as the exact fraction
/// `code / mask`, which is 0 when `mask` is 0.
#[derive(Clone, Copy, Debug, PartialEq, Eq)]
pub enum DecodedValue {
    Fraction { code: u32, mask: u32 },
    Int(i32),
    Uint(u32),
    Bool(bool),
}

/// The low `bits` bits of `raw` read as a two's complement number; all of
/// `raw` when `bits` is 32 or more.
pub open spec fn sign_extend(raw: u32, bits: u32) -> int {
    let m: int = pow2(if bits < 32 { bits as nat } else { 32 }) as int;
    let low: int = raw as int % m;
    if low >= m / 2 {
        low - m
    } else {
        low
    }
}

/// The width of the float code: at most 24 bits.
pub open spec fn safe_len(bits: u32) -> u32 {
    if bits < 24 {
        bits
    } else {
        24
    }
}

/// What `decode_value` gives for a raw field.
pub open spec fn spec_decode_value(raw: u32, bits: u32, kind: Kind) -> DecodedValue {
    match kind {
        Kind::ClampedFloat => DecodedValue::Fraction {
            code: (raw as nat / pow2((bits - safe_len(bits)) as nat)) as u32,
            mask: (pow2(safe_len(bits) as nat) - 1) as u32,
        },
        Kind::Int => DecodedValue::Int(sign_extend(raw, bits) as i32),
        Kind::UInt => DecodedValue::Uint(raw),
        Kind::Bool => DecodedValue::Bool(raw % 2 == 1),
    }
}

/// The inputs on which `decode_value` does not overflow a shift.
pub open spec fn decode_ok(bits: u32, kind: Kind) -> bool {
    &&& kind == Kind::ClampedFloat ==> bits < 56
    &&& kind == Kind::Int ==> bits >= 1
}

proof fn lemma_sign_extend_bits(raw: u32, s: u32)
    by (bit_vector)
    requires
        s < 32,
    ensures
        ({
            let m = 1u64 << ((32 - s) as u64);
            let low = (raw as u64) & ((m - 1) as u64);
            ((((raw << s) as i32) >> s) as int) == if low >= m / 2 { low as int - m as int } else { low as int }
        }),
{
}

/// Reverses `EncodeParam` from the shader.
pub fn decode_value(raw: u32, bits: u32, kind: Kind) -> (res: DecodedValue)
    requires
        decode_ok(bits, kind),
    ensures
        res == spec_decode_value(raw, bits, kind),
{
    match kind {
        Kind::ClampedFloat => {
            // The shader caps the float scale at 24 bits so the product stays
            // exact. Longer fields repeat the top bits, so the top 24 bits
            // carry the value.
            let safe_len = if bits < 24 { bits } else { 24 };
            proof {
                lemma_u32_shr_is_div(raw, (bits - safe_len) as u32);
                lemma_u32_pow2_no_overflow(safe_len as nat);
                lemma_u32_shl_is_mul(1, safe_len);
            }
            let code = raw >> (bits - safe_len);
            let mask = (1u32 << safe_len) - 1;
            DecodedValue::Fraction { code, mask }
        },
        Kind::Int => {
            let shift = 32u32.saturating_sub(bits);
            let v = (#[verifier::truncate] ((raw << shift) as i32)) >> shift;
            proof {
                let n = (32 - shift) as nat;
                lemma_sign_extend_bits(raw, shift);
                lemma_u64_pow2_no_overflow(n);
                lemma_u64_shl_is_mul(1, n as u64);
                lemma_u64_low_bits_mask_is_mod(raw as u64, n);
            }
            DecodedValue::Int(v)
        },
        Kind::UInt => DecodedValue::Uint(raw),
        Kind::Bool => {
            assert((raw & 1 != 0) == (raw % 2 == 1)) by (bit_vector);
            DecodedValue::Bool(raw & 1 != 0)
        },
    }
}

// ---------------------------------------------------------------------------
// Reader geometry
// ---------------------------------------------------------------------------

/// Rows of bits needed for `total` bits at `pairs` bits per row.
pub open spec fn spec_data_rows(total: int, pairs: int) -> int {
    (total + pairs - 1) / pairs
}

/// The block rectangle of the band: `(ix_min, ix_max, iy_min, iy_max)`. It
/// covers the data rows plus the marker centre row above them, which carries
/// the calibration strip.
pub open spec fn band_blocks(layout: GridLayout, total: int) -> (int, int, int, int) {
    let pairs = layout.spec_pairs();
    let max_x = DATA_BORDER + pairs * 2 - 1;
    let max_y = DATA_BORDER + spec_data_rows(total, pairs) - 1;
    let min_x = MARKER_CENTER as int;
    let min_y = MARKER_BLOCKS as int;
    let (x0, x1) = if layout.flip_x { (layout.cols - 1 - max_x, layout.cols - 1 - min_x) } else { (min_x, max_x) };
    let (y0, y1) = if layout.flip_y { (layout.rows - 1 - max_y, layout.rows - 1 - min_y) } else { (min_y, max_y) };
    (x0, x1, y0, y1)
}

/// The layout has room for the code: at least one bit pair per row, and the
/// data rows and columns inside the grid.
pub open spec fn reader_fits(layout: GridLayout, total: int, n_fields: int) -> bool {
    let pairs = layout.spec_pairs();
    &&& pairs > 0
    &&& total > 0
    &&& n_fields > 0
    &&& DATA_BORDER + pairs * 2 - 1 < layout.cols
    &&& DATA_BORDER + spec_data_rows(total, pairs) - 1 < layout.rows
}

/// The pixel rectangle of the band: `(x, y, width, height)`.
pub open spec fn spec_band(layout: GridLayout, total: int) -> (int, int, int, int) {
    let (x0, x1, y0, y1) = band_blocks(layout, total);
    (
        layout.origin_x + x0 * layout.block_px,
        layout.origin_y + y0 * layout.block_px,
        (x1 - x0 + 1) * layout.block_px,
        (y1 - y0 + 1) * layout.block_px,
    )
}

/// The centre of block `(ix, iy)`, relative to the band.
pub open spec fn band_point(layout: GridLayout, total: int, ix: int, iy: int) -> (int, int) {
    let (bx, by, _, _) = spec_band(layout, total);
    let (cx, cy) = layout.spec_block_center(ix, iy);
    (cx - bx, cy - by)
}

/// The signed step of one block along x, or along y, after the flips.
pub open spec fn block_step(block: int, flip: bool) -> int {
    if flip {
        -block
    } else {
        block
    }
}

/// Reads the bit code out of a band of pixels, once a grid layout is known.
pub struct CodeReader {
    plan: Vec<FieldPlan>,
    total_bits: usize,
    pairs: usize,
    data_rows: usize,
    bits: Vec<u64>,
    // Sample geometry, band-relative pixels. The deltas already carry the
    // flip signs, so the read loop never branches on orientation.
    first: (i32, i32),
    high: (i32, i32),
    low: (i32, i32),
    /// sample a -> sample b of the same bit
    sub_dx: i32,
    /// bit -> next bit in the row
    pair_dx: i32,
    /// data row -> next data row
    row_dy: i32,
    // Checked against the current stride.
    cached_stride: usize,
    fits: bool,
    sample_radius: i32,
    sample_count: i32,
    pub band_x: i32,
    pub band_y: i32,
    pub band_width: i32,
    pub band_height: i32,
    pub layout: GridLayout,
    // Last frame, all scalars.
    pub contrast: i32,
    pub blank_bits: u32,
    /// The smallest bit magnitude, capped at the contrast.
    pub min_magnitude: i32,
    /// The sum of the bit magnitudes, each capped at the contrast.
    pub sum_magnitude: u64,
    pub is_id_frame: bool,
    pub id_bits: u32,
    /// Only touched on an ID frame.
    pub id_text: String,
}

impl CodeReader {
    pub closed spec fn spec_layout(&self) -> GridLayout {
        self.layout
    }

    pub closed spec fn spec_plan(&self) -> Seq<FieldPlan> {
        self.plan@
    }

    pub closed spec fn spec_total_bits(&self) -> int {
        self.total_bits as int
    }

    pub closed spec fn spec_pairs(&self) -> int {
        self.pairs as int
    }

    pub closed spec fn spec_data_rows(&self) -> int {
        self.data_rows as int
    }

    pub closed spec fn spec_bits(&self) -> Seq<u64> {
        self.bits@
    }

    pub closed spec fn spec_first(&self) -> (int, int) {
        (self.first.0 as int, self.first.1 as int)
    }

    pub closed spec fn spec_high(&self) -> (int, int) {
        (self.high.0 as int, self.high.1 as int)
    }

    pub closed spec fn spec_low(&self) -> (int, int) {
        (self.low.0 as int, self.low.1 as int)
    }

    pub closed spec fn spec_sub_dx(&self) -> int {
        self.sub_dx as int
    }

    pub closed spec fn spec_pair_dx(&self) -> int {
        self.pair_dx as int
    }

    pub closed spec fn spec_row_dy(&self) -> int {
        self.row_dy as int
    }

    pub closed spec fn spec_radius(&self) -> int {
        self.sample_radius as int
    }

    pub closed spec fn spec_cached_stride(&self) -> int {
        self.cached_stride as int
    }

    pub closed spec fn spec_fits(&self) -> bool {
        self.fits
    }

    /// The geometry stays inside the sizes that the grid allows, and the
    /// bit buffer has one spare word past the code.
    pub closed spec fn wf(&self) -> bool {
        let block = self.layout.block_px as int;
        &&& 1 <= self.total_bits <= i32::MAX
        &&& 1 <= self.pairs
        &&& self.data_rows == spec_data_rows(self.total_bits as int, self.pairs as int)
        &&& self.bits@.len() == (self.total_bits + 63) / 64 + 1
        &&& 1 <= block
        &&& (self.sub_dx == block || self.sub_dx == -block)
        &&& self.pair_dx == 2 * self.sub_dx
        &&& (self.row_dy == block || self.row_dy == -block)
        &&& 2 * self.pairs * block <= MAX_SIDE + 2
        &&& self.data_rows * block <= MAX_SIDE + 2
        &&& 0 <= self.sample_radius <= 2
        &&& self.sample_count == (2 * self.sample_radius + 1) * (2 * self.sample_radius + 1)
        &&& 1 <= self.band_width <= MAX_SIDE + 2
        &&& 1 <= self.band_height <= MAX_SIDE + 2
        &&& -2 * MAX_SIDE <= self.first.0 <= 2 * MAX_SIDE && -2 * MAX_SIDE <= self.first.1 <= 2 * MAX_SIDE
        &&& -2 * MAX_SIDE <= self.high.0 <= 2 * MAX_SIDE && -2 * MAX_SIDE <= self.high.1 <= 2 * MAX_SIDE
        &&& -2 * MAX_SIDE <= self.low.0 <= 2 * MAX_SIDE && -2 * MAX_SIDE <= self.low.1 <= 2 * MAX_SIDE
        &&& self.fits ==> self.points_fit()
    }

    /// The last sample point of the first row and the first sample point of
    /// the last row.
    pub closed spec fn last_x(&self) -> int {
        self.spec_first().0 + self.spec_pair_dx() * (self.spec_pairs() - 1) + self.spec_sub_dx()
    }

    pub closed spec fn last_y(&self) -> int {
        self.spec_first().1 + self.spec_row_dy() * (self.spec_data_rows() - 1)
    }

    /// A sample square of radius `r` around `x` lies inside the band width.
    pub closed spec fn x_fits(&self, x: int) -> bool {
        0 <= x - self.spec_radius() && x + self.spec_radius() < self.band_width
    }

    pub closed spec fn y_fits(&self, y: int) -> bool {
        0 <= y - self.spec_radius() && y + self.spec_radius() < self.band_height
    }

    /// Every sample square lands inside the band.
    pub closed spec fn points_fit(&self) -> bool {
        &&& self.x_fits(self.spec_first().0)
        &&& self.x_fits(self.last_x())
        &&& self.x_fits(self.spec_high().0)
        &&& self.x_fits(self.spec_low().0)
        &&& self.y_fits(self.spec_first().1)
        &&& self.y_fits(self.last_y())
        &&& self.y_fits(self.spec_high().1)
        &&& self.y_fits(self.spec_low().1)
    }

    /// The band rectangle in the frame: `(x, y, width, height)`.
    pub closed spec fn spec_band_rect(&self) -> (int, int, int, int) {
        (self.band_x as int, self.band_y as int, self.band_width as int, self.band_height as int)
    }

    /// A band of `len` pixels at this stride covers the band rectangle.
    pub open spec fn band_len_ok(&self, len: int, stride: int) -> bool {
        len >= (self.spec_band_rect().3 - 1) * stride + self.spec_band_rect().2
    }

    /// The fields lie inside the bit buffer, each 1 to 32 bits wide.
    pub closed spec fn plan_in_buffer(&self) -> bool {
        forall|j: int|
            0 <= j < self.spec_plan().len() ==> {
                let p = #[trigger] self.spec_plan()[j];
                &&& 1 <= p.bits <= 32
                &&& p.offset + p.bits <= 64 * self.spec_bits().len()
            }
    }

    /// What `new` builds from a schema, a code width and a layout.
    pub closed spec fn built_from(&self, schema: CamConfig, total: int, layout: GridLayout) -> bool {
        let pairs = layout.spec_pairs();
        let (bx, by, bw, bh) = spec_band(layout, total);
        &&& self.spec_plan().len() == schema.fields@.len()
        &&& forall|i: int| 0 <= i < schema.fields@.len() ==> #[trigger] self.spec_plan()[i] == spec_plan_of(schema.fields@, i)
        &&& self.spec_total_bits() == total
        &&& self.spec_pairs() == pairs
        &&& self.spec_data_rows() == spec_data_rows(total, pairs)
        &&& self.spec_bits().len() == (total + 63) / 64 + 1
        &&& forall|i: int| 0 <= i < self.spec_bits().len() ==> self.spec_bits()[i] == 0
        &&& self.band_x == bx && self.band_y == by && self.band_width == bw && self.band_height == bh
        &&& self.layout == layout
        &&& self.spec_first() == band_point(layout, total, DATA_BORDER as int, DATA_BORDER as int)
        &&& self.spec_high() == band_point(layout, total, MARKER_CENTER as int, DATA_BORDER as int)
        &&& self.spec_low() == band_point(layout, total, MARKER_CENTER as int, MARKER_BLOCKS as int)
        &&& self.spec_sub_dx() == block_step(layout.block_px as int, layout.flip_x)
        &&& self.spec_pair_dx() == 2 * block_step(layout.block_px as int, layout.flip_x)
        &&& self.spec_row_dy() == block_step(layout.block_px as int, layout.flip_y)
        &&& self.spec_radius() == layout.spec_sample_radius()
        &&& self.spec_cached_stride() == usize::MAX
        &&& !self.spec_fits()
        &&& self.contrast == 0 && self.blank_bits == 0 && self.min_magnitude == 0 && self.sum_magnitude == 0
        &&& !self.is_id_frame && self.id_bits == 0 && self.id_text@ == Seq::<char>::empty()
    }
}

/// The value fits an `i32`.
pub open spec fn fits_i32(v: int) -> bool {
    i32::MIN <= v <= i32::MAX
}

/// Every number that `new` works out for a layout with room for the code
/// fits an `i32`: the band corner and size, the three block centres and
/// their offsets from the band corner, and twice the block step either way.
pub open spec fn reader_arith_fits(layout: GridLayout, total: int) -> bool {
    let (x0, x1, y0, y1) = band_blocks(layout, total);
    let (bx, by, bw, bh) = spec_band(layout, total);
    let block = layout.block_px as int;
    let first = band_point(layout, total, DATA_BORDER as int, DATA_BORDER as int);
    let high = band_point(layout, total, MARKER_CENTER as int, DATA_BORDER as int);
    let low = band_point(layout, total, MARKER_CENTER as int, MARKER_BLOCKS as int);
    &&& fits_i32(2 * block) && fits_i32(-2 * block)
    &&& fits_i32(x0 * block)
    &&& fits_i32(y0 * block)
    &&& fits_i32(bx)
    &&& fits_i32(by)
    &&& fits_i32(bw)
    &&& fits_i32(bh)
    &&& layout.center_fits(DATA_BORDER as int, DATA_BORDER as int)
    &&& layout.center_fits(MARKER_CENTER as int, DATA_BORDER as int)
    &&& layout.center_fits(MARKER_CENTER as int, MARKER_BLOCKS as int)
    &&& fits_i32(first.0) && fits_i32(first.1)
    &&& fits_i32(high.0) && fits_i32(high.1)
    &&& fits_i32(low.0) && fits_i32(low.1)
}

/// A layout inside the detection range, with room for the code, fits the
/// arithmetic of `new`.
pub proof fn lemma_new_in_range(layout: GridLayout, total: int)
    requires
        layout_in_range(layout),
        1 <= total <= i32::MAX,
        reader_fits(layout, total, 1),
    ensures
        reader_arith_fits(layout, total),
{
    let pairs = layout.spec_pairs();
    lemma_data_rows(total, pairs);
    let (x0, x1, y0, y1) = band_blocks(layout, total);
    let block = layout.block_px as int;
    lemma_mul_le(x0, layout.cols as int, block);
    lemma_mul_le(y0, layout.rows as int, block);
    lemma_mul_le(x1 - x0 + 1, layout.cols as int, block);
    lemma_mul_le(y1 - y0 + 1, layout.rows as int, block);
    lemma_point_bound(layout, DATA_BORDER as int, DATA_BORDER as int, x0, y0);
    lemma_point_bound(layout, MARKER_CENTER as int, DATA_BORDER as int, x0, y0);
    lemma_point_bound(layout, MARKER_CENTER as int, MARKER_BLOCKS as int, x0, y0);
    lemma_center_fits(layout, DATA_BORDER as int, DATA_BORDER as int);
    lemma_center_fits(layout, MARKER_CENTER as int, DATA_BORDER as int);
    lemma_center_fits(layout, MARKER_CENTER as int, MARKER_BLOCKS as int);
}

proof fn lemma_mul_le(a: int, b: int, k: int)
    requires
        0 <= a <= b,
        0 <= k,
    ensures
        0 <= a * k <= b * k,
{
    assert(0 <= a * k <= b * k) by (nonlinear_arith)
        requires
            0 <= a <= b,
            0 <= k,
    ;
}

proof fn lemma_data_rows(total: int, pairs: int)
    requires
        1 <= total,
        1 <= pairs,
    ensures
        1 <= spec_data_rows(total, pairs) <= total,
        spec_data_rows(total, pairs) * pairs >= total,
        (spec_data_rows(total, pairs) - 1) * pairs < total,
{
    let d = spec_data_rows(total, pairs);
    assert(1 <= d <= total && d * pairs >= total && (d - 1) * pairs < total) by (nonlinear_arith)
        requires
            d == (total + pairs - 1) / pairs,
            1 <= total,
            1 <= pairs,
    ;
}

proof fn lemma_point_bound(layout: GridLayout, ix: int, iy: int, x0: int, y0: int)
    requires
        layout_in_range(layout),
        0 <= ix < layout.cols,
        0 <= iy < layout.rows,
        0 <= x0 < layout.cols,
        0 <= y0 < layout.rows,
    ensures
        ({
            let (cx, cy) = layout.spec_block_center(ix, iy);
            &&& -2 * MAX_SIDE <= cx - (layout.origin_x + x0 * layout.block_px) <= 2 * MAX_SIDE
            &&& -2 * MAX_SIDE <= cy - (layout.origin_y + y0 * layout.block_px) <= 2 * MAX_SIDE
        }),
{
    let (bx, by) = layout.spec_block_index(ix, iy);
    lemma_mul_le(bx, layout.cols as int, layout.block_px as int);
    lemma_mul_le(by, layout.rows as int, layout.block_px as int);
    lemma_mul_le(x0, layout.cols as int, layout.block_px as int);
    lemma_mul_le(y0, layout.rows as int, layout.block_px as int);
}

impl CodeReader {
    /// Builds the reader for a detected layout. `None` when the layout has no
    /// room for the code, the code is empty, or the schema has no fields.
    pub fn new(schema: &CamConfig, total_bits: u32, layout: GridLayout) -> (res: Option<Self>)
        requires
            layout.cols >= i32::MIN + DATA_BORDER * 2,
            total_bits <= i32::MAX,
            spec_fields_sum(schema.fields@) <= u32::MAX,
            reader_fits(layout, total_bits as int, schema.fields@.len() as int) ==> reader_arith_fits(
                layout,
                total_bits as int,
            ),
        ensures
            res is Some <==> reader_fits(layout, total_bits as int, schema.fields@.len() as int),
            res matches Some(r) ==> {
                &&& layout_in_range(layout) ==> r.wf()
                &&& r.built_from(*schema, total_bits as int, layout)
                &&& r.plan_in_buffer() <== (forall|i: int|
                    0 <= i < schema.fields@.len() ==> 1 <= #[trigger] schema.fields@[i].bits <= 32) && spec_fields_sum(
                    schema.fields@,
                ) <= 64 * ((total_bits + 63) / 64 + 1)
            },
    {
        let total = total_bits as usize;
        let pairs = layout.pairs();
        if pairs <= 0 || total == 0 || schema.fields.len() == 0 {
            return None;
        }
        let pairs_u = pairs as usize;
        let data_rows = ((total as i64 + pairs as i64 - 1) / pairs as i64) as usize;
        proof {
            lemma_data_rows(total as int, pairs as int);
        }
        let border = DATA_BORDER;
        let min_block_y = MARKER_BLOCKS;
        let min_block_x = MARKER_CENTER;
        let max_block_x = border + pairs * 2 - 1;
        if max_block_x >= layout.cols || border as i64 + data_rows as i64 - 1 >= layout.rows as i64 {
            return None;
        }
        let max_block_y = border + data_rows as i32 - 1;

        let (ix_min, ix_max) = if layout.flip_x {
            (layout.cols - 1 - max_block_x, layout.cols - 1 - min_block_x)
        } else {
            (min_block_x, max_block_x)
        };
        let (iy_min, iy_max) = if layout.flip_y {
            (layout.rows - 1 - max_block_y, layout.rows - 1 - min_block_y)
        } else {
            (min_block_y, max_block_y)
        };
        let block = layout.block_px;
        proof {
            // Inside the detection range the reader's own bounds hold too.
            if layout_in_range(layout) {
                lemma_mul_le(ix_min as int, layout.cols as int, block as int);
                lemma_mul_le(iy_min as int, layout.rows as int, block as int);
                lemma_mul_le((ix_max - ix_min + 1) as int, layout.cols as int, block as int);
                lemma_mul_le((iy_max - iy_min + 1) as int, layout.rows as int, block as int);
                lemma_mul_le(2 * pairs as int, layout.cols as int, block as int);
                lemma_mul_le(data_rows as int, layout.rows as int, block as int);
                assert((ix_max - ix_min + 1) * block >= 1 && (iy_max - iy_min + 1) * block >= 1) by (nonlinear_arith)
                    requires
                        ix_max >= ix_min,
                        iy_max >= iy_min,
                        block >= 1,
                ;
                lemma_point_bound(layout, border as int, border as int, ix_min as int, iy_min as int);
                lemma_point_bound(layout, MARKER_CENTER as int, border as int, ix_min as int, iy_min as int);
                lemma_point_bound(layout, MARKER_CENTER as int, MARKER_BLOCKS as int, ix_min as int, iy_min as int);
            }
        }

        let band_x = layout.origin_x + ix_min * block;
        let band_y = layout.origin_y + iy_min * block;
        let band_width = (ix_max - ix_min + 1) * block;
        let band_height = (iy_max - iy_min + 1) * block;

        // `block_center` mirrors the index under a flip, so one step in block
        // index is one negative step in pixels.
        let (fx, fy) = layout.block_center(border, border);
        // Strip block 4 is high and strip block 3 is low: the first strip
        // block after the ring is low.
        let (hx, hy) = layout.block_center(MARKER_CENTER, border);
        let (lx, ly) = layout.block_center(MARKER_CENTER, MARKER_BLOCKS);
        let sub_dx = if layout.flip_x { -block } else { block };
        let row_dy = if layout.flip_y { -block } else { block };

        let sample_radius = layout.sample_radius();
        let side = sample_radius * 2 + 1;
        assert(side * side <= 25) by (nonlinear_arith)
            requires
                1 <= side <= 5,
        ;

        // One spare word so `extract` can always read `word + 1`.
        let words = total / 64 + (if total % 64 != 0 { 1 } else { 0 }) + 1;
        assert(words == (total + 63) / 64 + 1);
        let bits = vec![0u64; words];
        let plan = plan_fields(schema);
        let r = CodeReader {
            plan,
            total_bits: total,
            pairs: pairs_u,
            data_rows,
            bits,
            first: (fx - band_x, fy - band_y),
            high: (hx - band_x, hy - band_y),
            low: (lx - band_x, ly - band_y),
            sub_dx,
            pair_dx: sub_dx * 2,
            row_dy,
            cached_stride: usize::MAX,
            fits: false,
            sample_radius,
            sample_count: side * side,
            band_x,
            band_y,
            band_width,
            band_height,
            layout,
            contrast: 0,
            blank_bits: 0,
            min_magnitude: 0,
            sum_magnitude: 0,
            is_id_frame: false,
            id_bits: 0,
            id_text: String::new(),
        };
        proof {
            if (forall|i: int| 0 <= i < schema.fields@.len() ==> 1 <= #[trigger] schema.fields@[i].bits <= 32)
                && spec_fields_sum(schema.fields@) <= 64 * ((total_bits + 63) / 64 + 1) {
                assert forall|j: int| 0 <= j < r.spec_plan().len() implies {
                    let p = #[trigger] r.spec_plan()[j];
                    &&& 1 <= p.bits <= 32
                    &&& p.offset + p.bits <= 64 * r.spec_bits().len()
                } by {
                    assert(r.spec_plan()[j] == spec_plan_of(schema.fields@, j));
                    assert(1 <= schema.fields@[j].bits <= 32);
                    lemma_bit_sum_mono(schema.fields@, j + 1, schema.fields@.len() as int);
                    assert(spec_bit_sum(schema.fields@, j + 1) == spec_bit_sum(schema.fields@, j)
                        + schema.fields@[j].bits);
                    lemma_bit_sum_mono(schema.fields@, 0, j);
                    assert(r.spec_plan()[j].offset == spec_bit_sum(schema.fields@, j));
                }
            }
        }
        Some(r)
    }
}

// ---------------------------------------------------------------------------
// Sampling
// ---------------------------------------------------------------------------

/// Sum of the luma of `n` pixels of `band` from index `start`.
pub open spec fn run_luma<P: Pixel>(band: Seq<P>, start: int, n: int) -> int
    decreases n,
{
    if n <= 0 {
        0
    } else {
        run_luma(band, start, n - 1) + luma_rgb(band[start + n - 1].spec_rgb())
    }
}

/// Sum of the luma of `rows` rows of `side` pixels, `stride` apart, from
/// index `start`.
pub open spec fn square_luma<P: Pixel>(band: Seq<P>, stride: int, start: int, side: int, rows: int) -> int
    decreases rows,
{
    if rows <= 0 {
        0
    } else {
        square_luma(band, stride, start, side, rows - 1) + run_luma(band, start + (rows - 1) * stride, side)
    }
}

/// The mean luma of the square of radius `r` around `(x, y)`.
pub open spec fn spec_sample<P: Pixel>(band: Seq<P>, stride: int, x: int, y: int, r: int) -> int {
    let side = 2 * r + 1;
    square_luma(band, stride, (y - r) * stride + x - r, side, side) / (side * side)
}

/// A square of radius `r` around `(x, y)` lies in `band`.
pub open spec fn square_in<P: Pixel>(band: Seq<P>, stride: int, x: int, y: int, r: int) -> bool {
    &&& r <= x
    &&& r <= y
    &&& (y + r) * stride + x + r < band.len()
}

proof fn lemma_row_in(stride: int, y: int, r: int, dy: int, x: int, dx: int)
    requires
        0 <= stride,
        r <= y,
        0 <= dy <= 2 * r,
        r <= x,
        0 <= dx <= 2 * r,
    ensures
        0 <= (y - r + dy) * stride,
        (y - r) * stride + x - r + dy * stride + dx == (y - r + dy) * stride + x - r + dx,
        (y - r + dy) * stride + x - r + dx <= (y + r) * stride + x + r,
{
    assert(0 <= (y - r + dy) * stride) by (nonlinear_arith)
        requires
            0 <= y - r + dy,
            0 <= stride,
    ;
    assert((y - r) * stride + dy * stride == (y - r + dy) * stride) by (nonlinear_arith);
    assert((y - r + dy) * stride <= (y + r) * stride) by (nonlinear_arith)
        requires
            y - r + dy <= y + r,
            0 <= stride,
    ;
}

/// Averages a small square at the centre of a block. The square stays away
/// from the block edge, where bloom from the neighbour block lands.
fn sample<P: Pixel>(band: &[P], stride: usize, x: i32, y: i32, radius: i32, count: i32) -> (res: i32)
    requires
        0 <= radius <= 2,
        count == (2 * radius + 1) * (2 * radius + 1),
        square_in(band@, stride as int, x as int, y as int, radius as int),
    ensures
        res == spec_sample(band@, stride as int, x as int, y as int, radius as int),
        0 <= res <= 255,
{
    let ghost s = stride as int;
    let n = band.len();
    proof {
        lemma_row_in(s, y as int, radius as int, 0, x as int, 0);
        assert(1 <= count <= 25) by (nonlinear_arith)
            requires
                count == (2 * radius + 1) * (2 * radius + 1),
                0 <= radius <= 2,
        ;
    }
    if radius == 0 {
        let v = luma(&band[y as usize * stride + x as usize]);
        proof {
            let st = (y - 0) * s + x - 0;
            assert(square_luma(band@, s, st, 1, 0) == 0);
            assert(run_luma(band@, st, 0) == 0);
            assert(run_luma(band@, st + 0 * s, 1) == luma_rgb(band@[st].spec_rgb()));
            assert(square_luma(band@, s, st, 1, 1) == run_luma(band@, st, 1));
            assert(square_luma(band@, s, st, 1, 1) / (1int * 1int) == square_luma(band@, s, st, 1, 1));
        }
        return v as i32;
    }
    let r = radius as usize;
    let side = r * 2 + 1;
    let start = (y as usize - r) * stride + (x as usize - r);
    let ghost st = (y - radius) * s + x - radius;
    assert(start == st);
    let mut sum: u32 = 0;
    let mut dy: usize = 0;
    while dy < side
        invariant
            1 <= r <= 2,
            side == 2 * r + 1,
            r == radius,
            s == stride,
            start == st,
            st == (y - radius) * s + x - radius,
            square_in(band@, s, x as int, y as int, radius as int),
            n == band@.len(),
            dy <= side,
            sum == square_luma(band@, s, st, side as int, dy as int),
            sum <= 255 * side * dy,
            count == side * side,
            1 <= count <= 25,
        decreases side - dy,
    {
        proof {
            lemma_row_in(s, y as int, radius as int, dy as int, x as int, 0);
            lemma_row_in(s, y as int, radius as int, dy as int, x as int, 2 * radius as int);
        }
        let row = start + dy * stride;
        let mut row_sum: u32 = 0;
        let mut dx: usize = 0;
        while dx < side
            invariant
                1 <= r <= 2,
                side == 2 * r + 1,
                r == radius,
                s == stride,
                row == st + dy * s,
                dy < side,
                row + side - 1 < band@.len(),
                n == band@.len(),
                dx <= side,
                row_sum == run_luma(band@, row as int, dx as int),
                row_sum <= 255 * dx,
            decreases side - dx,
        {
            row_sum = row_sum + luma(&band[row + dx]);
            dx += 1;
        }
        assert(255 * side * dy + 255 * side == 255 * side * (dy + 1)) by (nonlinear_arith);
        assert(255 * side * (dy + 1) <= 255 * 25) by (nonlinear_arith)
            requires
                dy + 1 <= side,
                side <= 5,
        ;
        sum = sum + row_sum;
        dy += 1;
    }
    assert(sum <= 255 * count) by (nonlinear_arith)
        requires
            sum <= 255 * side * side,
            count == side * side,
    ;
    assert((sum as int) / (count as int) <= 255) by (nonlinear_arith)
        requires
            sum <= 255 * count,
            count >= 1,
    ;
    assert(sum <= 6375);
    (sum as i32) / count
}

// ---------------------------------------------------------------------------
// One frame
// ---------------------------------------------------------------------------

/// The value of the `count` code bits from `offset` on, low bit first. Bits
/// past the end of the code read as 0.
pub open spec fn code_value(code: Seq<bool>, offset: int, count: int) -> int
    decreases count,
{
    if count <= 0 {
        0
    } else {
        (if 0 <= offset < code.len() && code[offset] { 1int } else { 0int }) + 2 * code_value(
            code,
            offset + 1,
            count - 1,
        )
    }
}

/// The value of the `n` code bits from `start` on, high bit first.
pub open spec fn msb_value(code: Seq<bool>, start: int, n: int) -> int
    decreases n,
{
    if n <= 0 {
        0
    } else {
        2 * msb_value(code, start, n - 1) + (if 0 <= start + n - 1 < code.len() && code[start + n - 1] {
            1int
        } else {
            0int
        })
    }
}

/// The character that an ID byte stands for: a space for 0.
pub open spec fn id_char(v: int) -> char {
    if v == 0 {
        ' '
    } else {
        v as char
    }
}

/// The ID string in the first `n` bytes of the code, high bit first, with
/// trailing white space trimmed.
pub open spec fn id_text_of(code: Seq<bool>, n: int) -> Seq<char> {
    spec_trim_end(Seq::new(n as nat, |k: int| id_char(msb_value(code, 8 * k, 8))))
}

pub open spec fn abs_diff(v: int) -> int {
    if v < 0 {
        -v
    } else {
        v
    }
}

pub open spec fn min_int(a: int, b: int) -> int {
    if a < b {
        a
    } else {
        b
    }
}

impl CodeReader {
    /// The band pixel of the first sample of bit `i`; the second sample is
    /// `sub_dx` further along the row.
    pub open spec fn bit_point(&self, i: int) -> (int, int) {
        (
            self.spec_first().0 + (i % self.spec_pairs()) * self.spec_pair_dx(),
            self.spec_first().1 + (i / self.spec_pairs()) * self.spec_row_dy(),
        )
    }

    /// First sample minus second sample of bit `i`.
    pub open spec fn bit_delta<P: Pixel>(&self, band: Seq<P>, stride: int, i: int) -> int {
        let (x, y) = self.bit_point(i);
        let r = self.spec_radius();
        spec_sample(band, stride, x, y, r) - spec_sample(band, stride, x + self.spec_sub_dx(), y, r)
    }

    /// High then low is a one; low then high is a zero.
    pub open spec fn code_bits<P: Pixel>(&self, band: Seq<P>, stride: int) -> Seq<bool> {
        Seq::new(self.spec_total_bits() as nat, |i: int| self.bit_delta(band, stride, i) > 0)
    }

    /// The high calibration block minus the low one.
    pub open spec fn frame_contrast<P: Pixel>(&self, band: Seq<P>, stride: int) -> int {
        let r = self.spec_radius();
        spec_sample(band, stride, self.spec_high().0, self.spec_high().1, r) - spec_sample(
            band,
            stride,
            self.spec_low().0,
            self.spec_low().1,
            r,
        )
    }

    /// How many of the first `n` bits are weaker than a quarter of the contrast.
    pub open spec fn blank_count<P: Pixel>(&self, band: Seq<P>, stride: int, n: int) -> int
        decreases n,
    {
        if n <= 0 {
            0
        } else {
            self.blank_count(band, stride, n - 1) + (if abs_diff(self.bit_delta(band, stride, n - 1))
                < self.frame_contrast(band, stride) / 4 {
                1int
            } else {
                0int
            })
        }
    }

    /// The first of the first `n` bits that is weaker than a quarter of the
    /// contrast, or -1.
    pub open spec fn first_blank<P: Pixel>(&self, band: Seq<P>, stride: int, n: int) -> int
        decreases n,
    {
        if n <= 0 {
            -1
        } else if self.first_blank(band, stride, n - 1) >= 0 {
            self.first_blank(band, stride, n - 1)
        } else if abs_diff(self.bit_delta(band, stride, n - 1)) < self.frame_contrast(band, stride) / 4 {
            n - 1
        } else {
            -1
        }
    }

    /// The smallest magnitude of the first `n` bits; `i32::MAX` for none.
    pub open spec fn min_magnitude_of<P: Pixel>(&self, band: Seq<P>, stride: int, n: int) -> int
        decreases n,
    {
        if n <= 0 {
            i32::MAX as int
        } else {
            min_int(self.min_magnitude_of(band, stride, n - 1), abs_diff(self.bit_delta(band, stride, n - 1)))
        }
    }

    /// The sum of the magnitudes of the first `n` bits, each capped at the
    /// contrast.
    pub open spec fn magnitude_sum<P: Pixel>(&self, band: Seq<P>, stride: int, n: int) -> int
        decreases n,
    {
        if n <= 0 {
            0
        } else {
            self.magnitude_sum(band, stride, n - 1) + min_int(
                abs_diff(self.bit_delta(band, stride, n - 1)),
                self.frame_contrast(band, stride),
            )
        }
    }

    /// Whether the sample points fit, as `read` finds it at this stride.
    pub open spec fn fits_for(&self, len: int, stride: int) -> bool {
        if stride != self.spec_cached_stride() {
            self.points_fit() && self.band_len_ok(len, stride)
        } else {
            self.spec_fits()
        }
    }

    /// `read` samples the frame: `out` has room, the points fit, and the
    /// calibration blocks are far enough apart.
    pub open spec fn scans<P: Pixel>(&self, band: Seq<P>, stride: int, out_len: int) -> bool {
        &&& out_len >= self.spec_plan().len()
        &&& self.fits_for(band.len() as int, stride)
        &&& self.frame_contrast(band, stride) >= MIN_CONTRAST
    }

    /// The shader painted the ID string: whole bytes of data, then only blank
    /// bits to the end of the code.
    pub open spec fn id_frame<P: Pixel>(&self, band: Seq<P>, stride: int) -> bool {
        let t = self.spec_total_bits();
        let blanks = self.blank_count(band, stride, t);
        let first = self.first_blank(band, stride, t);
        &&& blanks > 0
        &&& first > 0
        &&& first % 8 == 0
        &&& blanks == t - first
    }

    /// `read` writes the fields.
    pub open spec fn read_ok<P: Pixel>(&self, band: Seq<P>, stride: int, out_len: int) -> bool {
        self.scans(band, stride, out_len) && !self.id_frame(band, stride)
    }

    /// The two readers sample a band alike: the same field count, geometry,
    /// band rectangle and stride cache.
    pub closed spec fn reads_alike(&self, other: &Self) -> bool {
        &&& self.plan@.len() == other.plan@.len()
        &&& self.total_bits == other.total_bits
        &&& self.pairs == other.pairs
        &&& self.data_rows == other.data_rows
        &&& self.first == other.first
        &&& self.high == other.high
        &&& self.low == other.low
        &&& self.sub_dx == other.sub_dx
        &&& self.pair_dx == other.pair_dx
        &&& self.row_dy == other.row_dy
        &&& self.sample_radius == other.sample_radius
        &&& self.band_x == other.band_x
        &&& self.band_y == other.band_y
        &&& self.band_width == other.band_width
        &&& self.band_height == other.band_height
        &&& self.cached_stride == other.cached_stride
        &&& self.fits == other.fits
    }

    /// Everything but the cache, the bit words and the frame results agree.
    pub closed spec fn same_setup(&self, other: &Self) -> bool {
        &&& self.plan == other.plan
        &&& self.total_bits == other.total_bits
        &&& self.pairs == other.pairs
        &&& self.data_rows == other.data_rows
        &&& self.bits@.len() == other.bits@.len()
        &&& self.first == other.first
        &&& self.high == other.high
        &&& self.low == other.low
        &&& self.sub_dx == other.sub_dx
        &&& self.pair_dx == other.pair_dx
        &&& self.row_dy == other.row_dy
        &&& self.sample_radius == other.sample_radius
        &&& self.sample_count == other.sample_count
        &&& self.band_x == other.band_x
        &&& self.band_y == other.band_y
        &&& self.band_width == other.band_width
        &&& self.band_height == other.band_height
        &&& self.layout == other.layout
    }

    /// The frame results and the bit words agree.
    pub closed spec fn same_frame(&self, other: &Self) -> bool {
        &&& self.bits == other.bits
        &&& self.contrast == other.contrast
        &&& self.blank_bits == other.blank_bits
        &&& self.min_magnitude == other.min_magnitude
        &&& self.sum_magnitude == other.sum_magnitude
        &&& self.is_id_frame == other.is_id_frame
        &&& self.id_bits == other.id_bits
        &&& self.id_text == other.id_text
    }

    /// The frame results after `read` sampled `band`: the statistics, the bit
    /// words holding the code, and on an ID frame the ID string.
    pub closed spec fn scanned<P: Pixel>(&self, before: &Self, band: Seq<P>, stride: int) -> bool {
        let t = before.spec_total_bits();
        let code = before.code_bits(band, stride);
        let contrast = before.frame_contrast(band, stride);
        let first = before.first_blank(band, stride, t);
        &&& self.contrast == contrast
        &&& self.blank_bits == before.blank_count(band, stride, t)
        &&& self.min_magnitude == min_int(before.min_magnitude_of(band, stride, t), contrast)
        &&& self.sum_magnitude == before.magnitude_sum(band, stride, t)
        &&& forall|i: int| 0 <= i < 64 * self.bits@.len() ==> #[trigger] word_bit(self.bits@, i) == (i < t && code[i])
        &&& self.is_id_frame == before.id_frame(band, stride)
        &&& self.id_bits == (if self.is_id_frame { first } else { 0 })
        &&& self.id_text@ == (if self.is_id_frame { id_text_of(code, first / 8) } else { before.id_text@ })
    }
}

proof fn lemma_zero_word_bit(t: u64)
    by (bit_vector)
    ensures
        (0u64 >> t) & 1 == 0,
{
}

proof fn lemma_set_bit(v: u64, s: u64, t: u64)
    by (bit_vector)
    requires
        s < 64,
        t < 64,
    ensures
        (((v | (1u64 << s)) >> t) & 1 == 1) == (t == s || (v >> t) & 1 == 1),
{
}

/// Sets every word to 0.
fn clear_words(words: &mut Vec<u64>)
    ensures
        final(words)@.len() == old(words)@.len(),
        forall|i: int| 0 <= i < final(words)@.len() ==> final(words)@[i] == 0,
        forall|i: int| 0 <= i < 64 * final(words)@.len() ==> !#[trigger] word_bit(final(words)@, i),
{
    let mut k: usize = 0;
    while k < words.len()
        invariant
            k <= words@.len(),
            words@.len() == old(words)@.len(),
            forall|i: int| 0 <= i < k ==> words@[i] == 0,
        decreases words@.len() - k,
    {
        words.set(k, 0);
        k += 1;
    }
    assert forall|i: int| 0 <= i < 64 * words@.len() implies !#[trigger] word_bit(words@, i) by {
        lemma_zero_word_bit((i % 64) as u64);
    }
}

/// Sets bit `bit` of the code.
fn set_code_bit(words: &mut Vec<u64>, bit: usize)
    requires
        bit < 64 * old(words)@.len(),
    ensures
        final(words)@.len() == old(words)@.len(),
        forall|i: int|
            0 <= i < 64 * final(words)@.len() ==> #[trigger] word_bit(final(words)@, i) == (i == bit || word_bit(
                old(words)@,
                i,
            )),
{
    let w = bit / 64;
    let t = bit % 64;
    let cur = words[w];
    words.set(w, cur | (1u64 << (t as u64)));
    assert forall|i: int| 0 <= i < 64 * words@.len() implies #[trigger] word_bit(words@, i) == (i == bit
        || word_bit(old(words)@, i)) by {
        if i / 64 == w {
            lemma_set_bit(cur, t as u64, (i % 64) as u64);
        }
    }
}

proof fn lemma_code_stream(words: Seq<u64>, code: Seq<bool>, offset: int, count: int)
    requires
        0 <= offset,
        0 <= count,
        offset + count <= 64 * words.len(),
        forall|i: int| 0 <= i < 64 * words.len() ==> #[trigger] word_bit(words, i) == (i < code.len() && code[i]),
    ensures
        stream_value(words, offset, count) == code_value(code, offset, count),
    decreases count,
{
    if count > 0 {
        assert(word_bit(words, offset) == (offset < code.len() && code[offset]));
        lemma_code_stream(words, code, offset + 1, count - 1);
    }
}

proof fn lemma_push_bit(value: u32, bit: u64)
    by (bit_vector)
    requires
        value < 0x8000_0000,
    ensures
        ((value << 1u32) | (((bit & 1) as u32))) == 2 * value + (bit & 1),
        (bit & 1) == 0 || (bit & 1) == 1,
{
}

/// The ID string in the first `n` bytes of the code. `paintId` writes the
/// high bit of each byte first. Trailing spaces are trimmed.
fn id_string(words: &Vec<u64>, n: usize, Ghost(code): Ghost<Seq<bool>>) -> (res: String)
    requires
        8 * n <= 64 * words@.len(),
        8 * n <= i32::MAX,
        forall|i: int| 0 <= i < 64 * words@.len() ==> #[trigger] word_bit(words@, i) == (i < code.len() && code[i]),
    ensures
        res@ == id_text_of(code, n as int),
{
    let mut chars: Vec<char> = Vec::with_capacity(n);
    let mut i: usize = 0;
    while i < n
        invariant
            i <= n,
            8 * n <= 64 * words@.len(),
            8 * n <= i32::MAX,
            forall|k: int| 0 <= k < 64 * words@.len() ==> #[trigger] word_bit(words@, k) == (k < code.len() && code[k]),
            chars@.len() == i,
            forall|k: int| 0 <= k < i ==> chars@[k] == #[trigger] id_char(msb_value(code, 8 * k, 8)),
        decreases n - i,
    {
        let mut value: u32 = 0;
        let mut b: usize = 0;
        while b < 8
            invariant
                i < n,
                8 * n <= 64 * words@.len(),
                8 * n <= i32::MAX,
                forall|k: int| 0 <= k < 64 * words@.len() ==> #[trigger] word_bit(words@, k) == (k < code.len() && code[k]),
                b <= 8,
                value == msb_value(code, 8 * i, b as int),
                0 <= value < 256,
                value < (if b == 0 { 1int } else if b == 1 { 2 } else if b == 2 { 4 } else if b == 3 { 8 } else if b == 4 { 16 } else if b == 5 { 32 } else if b == 6 { 64 } else if b == 7 { 128 } else { 256 }),
            decreases 8 - b,
        {
            let index = i * 8 + b;
            let bit = (words[index / 64] >> ((index % 64) as u64)) & 1;
            proof {
                lemma_push_bit(value, words@[(index / 64) as int] >> ((index % 64) as u64));
                assert(word_bit(words@, index as int) == (bit == 1));
            }
            value = (value << 1) | (bit as u32);
            b += 1;
        }
        let c = if value == 0 { ' ' } else { (value as u8) as char };
        chars.push(c);
        i += 1;
    }
    let ghost all = chars@;
    assert(all =~= Seq::new(n as nat, |k: int| id_char(msb_value(code, 8 * k, 8))));
    let mut end = chars.len();
    assert(all.subrange(0, end as int) =~= all);
    while end > 0 && is_whitespace(chars[end - 1])
        invariant
            end <= chars@.len(),
            all == chars@,
            spec_trim_end(all) == spec_trim_end(all.subrange(0, end as int)),
        decreases end,
    {
        assert(all.subrange(0, end as int).drop_last() =~= all.subrange(0, end - 1));
        end -= 1;
    }
    assert(spec_trim_end(all.subrange(0, end as int)) == all.subrange(0, end as int));
    let mut text = String::new();
    let mut k: usize = 0;
    while k < end
        invariant
            k <= end <= chars@.len(),
            all == chars@,
            text@ == all.subrange(0, k as int),
        decreases end - k,
    {
        push_char(&mut text, chars[k]);
        assert(text@ =~= all.subrange(0, k + 1));
        k += 1;
    }
    text
}

proof fn lemma_between(f: int, m: int, n: int, step: int, lo: int, hi: int)
    requires
        0 <= m <= n,
        lo <= f <= hi,
        lo <= f + n * step <= hi,
    ensures
        lo <= f + m * step <= hi,
{
    assert(lo <= f + m * step <= hi) by (nonlinear_arith)
        requires
            0 <= m <= n,
            lo <= f <= hi,
            lo <= f + n * step <= hi,
    ;
}

proof fn lemma_step_bound(k: int, step: int, block: int, limit: int)
    requires
        0 <= k,
        step == block || step == -block,
        1 <= block,
        k * block <= limit,
    ensures
        -limit <= k * step <= limit,
        k * step == step * k,
{
    assert(k * step == step * k) by (nonlinear_arith);
    assert(-limit <= k * step <= limit) by (nonlinear_arith)
        requires
            0 <= k,
            step == block || step == -block,
            1 <= block,
            k * block <= limit,
    ;
}

/// What a reader that `new` built shows through its accessors: the band
/// rectangle of the layout, one plan entry per schema field, the code width,
/// an empty bit buffer with a spare word, and the three anchor points of the
/// band.
pub proof fn lemma_built_reader(r: CodeReader, schema: CamConfig, total: int, layout: GridLayout)
    requires
        r.built_from(schema, total, layout),
    ensures
        r.spec_band_rect() == spec_band(layout, total),
        r.spec_layout() == layout,
        r.spec_data_rows() == spec_data_rows(total, layout.spec_pairs()),
        r.spec_sub_dx() == block_step(layout.block_px as int, layout.flip_x),
        r.spec_pair_dx() == 2 * block_step(layout.block_px as int, layout.flip_x),
        r.spec_row_dy() == block_step(layout.block_px as int, layout.flip_y),
        r.spec_cached_stride() == usize::MAX,
        r.spec_plan().len() == schema.fields@.len(),
        forall|i: int| 0 <= i < schema.fields@.len() ==> #[trigger] r.spec_plan()[i] == spec_plan_of(schema.fields@, i),
        r.spec_total_bits() == total,
        r.spec_pairs() == layout.spec_pairs(),
        r.spec_bits().len() == (total + 63) / 64 + 1,
        forall|i: int| 0 <= i < r.spec_bits().len() ==> #[trigger] r.spec_bits()[i] == 0,
        r.spec_first() == band_point(layout, total, DATA_BORDER as int, DATA_BORDER as int),
        r.spec_high() == band_point(layout, total, MARKER_CENTER as int, DATA_BORDER as int),
        r.spec_low() == band_point(layout, total, MARKER_CENTER as int, MARKER_BLOCKS as int),
        r.spec_radius() == layout.spec_sample_radius(),
        !r.spec_fits(),
{
}

/// A read keeps the setup: the plan, the code width, the band rectangle and
/// the anchor points stay as they were.
pub proof fn lemma_same_setup(a: CodeReader, b: CodeReader)
    requires
        a.same_setup(&b),
    ensures
        a.spec_plan() == b.spec_plan(),
        a.spec_layout() == b.spec_layout(),
        a.spec_pairs() == b.spec_pairs(),
        a.spec_data_rows() == b.spec_data_rows(),
        a.spec_sub_dx() == b.spec_sub_dx(),
        a.spec_pair_dx() == b.spec_pair_dx(),
        a.spec_row_dy() == b.spec_row_dy(),
        a.spec_total_bits() == b.spec_total_bits(),
        a.spec_band_rect() == b.spec_band_rect(),
        a.spec_bits().len() == b.spec_bits().len(),
        a.spec_first() == b.spec_first(),
        a.spec_high() == b.spec_high(),
        a.spec_low() == b.spec_low(),
        a.spec_radius() == b.spec_radius(),
{
}

/// After a scan, bit `i` of the buffer is bit `i` of the frame's code below
/// the code width, and clear above it.
pub proof fn lemma_scanned_bits<P: Pixel>(after: CodeReader, before: CodeReader, band: Seq<P>, stride: int)
    requires
        after.scanned(&before, band, stride),
    ensures
        forall|i: int|
            0 <= i < 64 * after.spec_bits().len() ==> #[trigger] word_bit(after.spec_bits(), i) == (i
                < before.spec_total_bits() && before.code_bits(band, stride)[i]),
{
}

impl CodeReader {
    /// The band rectangle in the frame: `(x, y, width, height)`.
    pub fn band_rect(&self) -> (res: (i32, i32, i32, i32))
        ensures
            (res.0 as int, res.1 as int, res.2 as int, res.3 as int) == self.spec_band_rect(),
    {
        (self.band_x, self.band_y, self.band_width, self.band_height)
    }

    /// The grid layout that the reader was built for.
    pub fn layout(&self) -> (res: GridLayout)
        ensures
            res == self.spec_layout(),
    {
        self.layout
    }

    /// The number of fields that a successful `read` writes.
    pub fn field_count(&self) -> (res: usize)
        ensures
            res == self.spec_plan().len(),
    {
        self.plan.len()
    }

    /// The bit words of the last sampled frame.
    pub fn raw_bits(&self) -> (res: &[u64])
        ensures
            res@ == self.spec_bits(),
    {
        self.bits.as_slice()
    }

    /// Checks that every sample square lands inside the band at this stride.
    /// Runs once per stride change, so the read loop needs no bounds logic of
    /// its own.
    fn resolve(&mut self, band_len: usize, stride: usize)
        requires
            old(self).wf(),
        ensures
            final(self).wf(),
            final(self).same_setup(old(self)),
            final(self).same_frame(old(self)),
            final(self).cached_stride == old(self).cached_stride,
            final(self).fits == (old(self).points_fit() && old(self).band_len_ok(band_len as int, stride as int)),
    {
        self.fits = false;
        let r = self.sample_radius;
        let block = self.layout.block_px;
        proof {
            lemma_data_rows(self.total_bits as int, self.pairs as int);
            assert((self.pairs - 1) * (2 * block) <= 2 * self.pairs * block && self.pairs <= 2 * self.pairs * block)
                by (nonlinear_arith)
                requires
                    1 <= self.pairs,
                    1 <= block,
            ;
            assert((self.data_rows - 1) * block <= self.data_rows * block) by (nonlinear_arith)
                requires
                    1 <= self.data_rows,
                    1 <= block,
            ;
            lemma_step_bound((self.pairs - 1) as int, self.pair_dx as int, 2 * block as int, MAX_SIDE + 2);
            lemma_step_bound((self.data_rows - 1) as int, self.row_dy as int, block as int, MAX_SIDE + 2);
        }
        let last_x = self.first.0 + self.pair_dx * (self.pairs as i32 - 1) + self.sub_dx;
        let last_y = self.first.1 + self.row_dy * (self.data_rows as i32 - 1);
        let w = self.band_width;
        let h = self.band_height;
        if self.first.0 - r < 0 || self.first.0 + r >= w || last_x - r < 0 || last_x + r >= w {
            return;
        }
        if self.high.0 - r < 0 || self.high.0 + r >= w || self.low.0 - r < 0 || self.low.0 + r >= w {
            return;
        }
        if self.first.1 - r < 0 || self.first.1 + r >= h || last_y - r < 0 || last_y + r >= h {
            return;
        }
        if self.high.1 - r < 0 || self.high.1 + r >= h || self.low.1 - r < 0 || self.low.1 + r >= h {
            return;
        }
        // A band too short for the last row does not fit, and neither does
        // one whose size overflows.
        let needed = match ((h - 1) as usize).checked_mul(stride) {
            Some(v) => v.checked_add(w as usize),
            None => None,
        };
        match needed {
            Some(n) => {
                if band_len < n {
                    return;
                }
            },
            None => {
                assert((h - 1) * stride + w > band_len) by (nonlinear_arith)
                    requires
                        (h - 1) * stride + w > usize::MAX,
                        band_len <= usize::MAX,
                ;
                return;
            },
        }
        self.fits = true;
    }
}

proof fn lemma_square_fits(len: int, stride: int, x: int, y: int, r: int, w: int, h: int)
    requires
        0 <= stride,
        0 <= x - r,
        x + r < w,
        0 <= y - r,
        y + r < h,
        len >= (h - 1) * stride + w,
    ensures
        (y + r) * stride + x + r < len,
{
    assert((y + r) * stride <= (h - 1) * stride) by (nonlinear_arith)
        requires
            y + r <= h - 1,
            0 <= stride,
    ;
}

proof fn lemma_bit_place(g: CodeReader, bit: int, col: int, row: int, x: int, y: int)
    requires
        g.wf(),
        g.points_fit(),
        0 <= col < g.pairs,
        0 <= row,
        bit == row * g.pairs + col,
        bit < g.total_bits,
        x == g.first.0 + col * g.pair_dx,
        y == g.first.1 + row * g.row_dy,
    ensures
        g.bit_point(bit) == (x, y),
        g.x_fits(x),
        g.x_fits(x + g.sub_dx),
        g.y_fits(y),
        row < g.data_rows,
        -MAX_SIDE - 2 <= (col + 1) * g.pair_dx <= MAX_SIDE + 2,
        -MAX_SIDE - 2 <= (row + 1) * g.row_dy <= MAX_SIDE + 2,
        (col + 1) * g.pair_dx == col * g.pair_dx + g.pair_dx,
        (row + 1) * g.row_dy == row * g.row_dy + g.row_dy,
        (row + 1) * g.pairs == row * g.pairs + g.pairs,
{
    assert((row + 1) * g.pairs == row * g.pairs + g.pairs) by (nonlinear_arith);
    let pairs = g.pairs as int;
    let block = g.layout.block_px as int;
    let s = g.sub_dx as int;
    lemma_fundamental_div_mod_converse(bit, pairs, row, col);
    lemma_data_rows(g.total_bits as int, pairs);
    let rows = g.data_rows as int;
    assert(row < rows) by (nonlinear_arith)
        requires
            bit == row * pairs + col,
            0 <= col,
            bit < g.total_bits,
            g.total_bits <= rows * pairs,
            1 <= pairs,
    ;
    assert(col * g.pair_dx == (2 * col) * s && g.pair_dx * (pairs - 1) + s == (2 * pairs - 1) * s) by (nonlinear_arith)
        requires
            g.pair_dx == 2 * s,
    ;
    let lo = g.spec_radius();
    lemma_between(g.first.0 as int, 2 * col, 2 * pairs - 1, s, lo, g.band_width - 1 - lo);
    lemma_between(g.first.0 as int, 2 * col + 1, 2 * pairs - 1, s, lo, g.band_width - 1 - lo);
    assert(g.first.0 + (2 * col + 1) * s == x + s) by (nonlinear_arith)
        requires
            x == g.first.0 + (2 * col) * s,
    ;
    assert(g.row_dy * (rows - 1) == (rows - 1) * g.row_dy) by (nonlinear_arith);
    lemma_between(g.first.1 as int, row, rows - 1, g.row_dy as int, lo, g.band_height - 1 - lo);
    assert((col + 1) * (2 * block) <= 2 * pairs * block && (row + 1) * block <= rows * block) by (nonlinear_arith)
        requires
            col + 1 <= pairs,
            row + 1 <= rows,
            1 <= block,
    ;
    lemma_step_bound(col + 1, g.pair_dx as int, 2 * block, MAX_SIDE + 2);
    lemma_step_bound(row + 1, g.row_dy as int, block, MAX_SIDE + 2);
    assert((col + 1) * g.pair_dx == col * g.pair_dx + g.pair_dx) by (nonlinear_arith);
    assert((row + 1) * g.row_dy == row * g.row_dy + g.row_dy) by (nonlinear_arith);
}

proof fn lemma_frame_agrees<P: Pixel>(a: CodeReader, b: CodeReader, band: Seq<P>, stride: int, n: int)
    requires
        a.same_setup(&b),
    ensures
        a.frame_contrast(band, stride) == b.frame_contrast(band, stride),
        a.code_bits(band, stride) == b.code_bits(band, stride),
        a.blank_count(band, stride, n) == b.blank_count(band, stride, n),
        a.first_blank(band, stride, n) == b.first_blank(band, stride, n),
        a.min_magnitude_of(band, stride, n) == b.min_magnitude_of(band, stride, n),
        a.magnitude_sum(band, stride, n) == b.magnitude_sum(band, stride, n),
    decreases n,
{
    assert(a.code_bits(band, stride) =~= b.code_bits(band, stride));
    if n > 0 {
        lemma_frame_agrees(a, b, band, stride, n - 1);
    }
}

impl CodeReader {
    /// Reads one band and writes every field into `out`.
    ///
    /// Returns true only when this call writes all fields into `out`. A false
    /// result means the frame holds no values for the caller; the layout stays
    /// valid.
    pub fn read<P: Pixel>(&mut self, band: &[P], stride: usize, out: &mut [DecodedValue]) -> (res: bool)
        requires
            old(self).wf(),
            old(self).plan_in_buffer(),
            stride == old(self).spec_cached_stride() && old(self).spec_fits() ==> old(self).band_len_ok(
                band@.len() as int,
                stride as int,
            ),
        ensures
            final(self).wf(),
            final(self).same_setup(old(self)),
            final(self).plan_in_buffer(),
            res == old(self).read_ok(band@, stride as int, old(out)@.len() as int),
            final(out)@.len() == old(out)@.len(),
            old(out)@.len() < old(self).spec_plan().len() ==> final(self).spec_cached_stride()
                == old(self).spec_cached_stride() && final(self).spec_fits() == old(self).spec_fits(),
            old(out)@.len() >= old(self).spec_plan().len() ==> final(self).spec_cached_stride() == stride
                && final(self).spec_fits() == old(self).fits_for(band@.len() as int, stride as int),
            old(self).scans(band@, stride as int, old(out)@.len() as int) ==> final(self).scanned(
                old(self),
                band@,
                stride as int,
            ),
            !old(self).scans(band@, stride as int, old(out)@.len() as int) ==> final(self).same_frame(old(self)),
            res ==> forall|j: int|
                0 <= j < old(self).spec_plan().len() ==> #[trigger] final(out)@[j] == spec_decode_value(
                    code_value(
                        old(self).code_bits(band@, stride as int),
                        old(self).spec_plan()[j].offset as int,
                        old(self).spec_plan()[j].bits as int,
                    ) as u32,
                    old(self).spec_plan()[j].bits,
                    old(self).spec_plan()[j].kind,
                ),
            res ==> forall|j: int|
                0 <= j < final(self).spec_plan().len() ==> #[trigger] final(out)@[j] == spec_decode_value(
                    stream_value(
                        final(self).spec_bits(),
                        final(self).spec_plan()[j].offset as int,
                        final(self).spec_plan()[j].bits as int,
                    ) as u32,
                    final(self).spec_plan()[j].bits,
                    final(self).spec_plan()[j].kind,
                ),
            forall|j: int|
                0 <= j < old(out)@.len() && (!res || j >= old(self).spec_plan().len()) ==> #[trigger] final(out)@[j]
                    == old(out)@[j],
    {
        if out.len() < self.plan.len() {
            return false;
        }
        if stride != self.cached_stride {
            self.cached_stride = stride;
            self.resolve(band.len(), stride);
        }
        if !self.fits {
            return false;
        }
        let ghost g = *self;
        let ghost s = stride as int;
        proof {
            lemma_frame_agrees(g, *old(self), band@, s, g.total_bits as int);
        }
        let r = self.sample_radius;
        let count = self.sample_count;
        proof {
            lemma_square_fits(band@.len() as int, s, g.high.0 as int, g.high.1 as int, r as int, g.band_width as int, g.band_height as int);
            lemma_square_fits(band@.len() as int, s, g.low.0 as int, g.low.1 as int, r as int, g.band_width as int, g.band_height as int);
        }
        let high = sample(band, stride, self.high.0, self.high.1, r, count);
        let low = sample(band, stride, self.low.0, self.low.1, r, count);
        let contrast = high - low;
        if contrast < MIN_CONTRAST {
            // A game screenshot has no calibration blocks. This is the normal
            // result for most frames. It is not an error, and the layout is
            // still good.
            return false;
        }
        let blank_limit = contrast / 4;
        let ghost code = g.code_bits(band@, s);

        let mut words: Vec<u64> = Vec::new();
        std::mem::swap(&mut words, &mut self.bits);
        clear_words(&mut words);

        let total = self.total_bits;
        let pairs = self.pairs;
        let sub_dx = self.sub_dx;
        let pair_dx = self.pair_dx;
        let row_dy = self.row_dy;
        let fx = self.first.0;

        let mut min_mag: i32 = i32::MAX;
        let mut sum_mag: u64 = 0;
        let mut blanks: u32 = 0;
        let mut first_blank: i32 = -1;

        let mut bit: usize = 0;
        let mut col: usize = 0;
        let mut x: i32 = fx;
        let mut y: i32 = self.first.1;
        let ghost mut row: int = 0;
        assert(0 * g.pairs + 0 == 0);
        while bit < total
            invariant
                g.wf(),
                g.points_fit(),
                g.band_len_ok(band@.len() as int, s),
                s == stride,
                code == g.code_bits(band@, s),
                total == g.total_bits,
                pairs == g.pairs,
                sub_dx == g.sub_dx,
                pair_dx == g.pair_dx,
                row_dy == g.row_dy,
                fx == g.first.0,
                r == g.sample_radius,
                count == g.sample_count,
                contrast == g.frame_contrast(band@, s),
                contrast >= MIN_CONTRAST,
                blank_limit == contrast / 4,
                bit <= total,
                0 <= col < pairs,
                0 <= row,
                bit == row * pairs + col,
                x == fx + col * pair_dx,
                y == g.first.1 + row * row_dy,
                min_mag == g.min_magnitude_of(band@, s, bit as int),
                sum_mag == g.magnitude_sum(band@, s, bit as int),
                sum_mag <= 255 * bit,
                blanks == g.blank_count(band@, s, bit as int),
                blanks <= bit,
                first_blank == g.first_blank(band@, s, bit as int),
                -1 <= first_blank < bit,
                words@.len() == g.bits@.len(),
                forall|i: int| 0 <= i < 64 * words@.len() ==> #[trigger] word_bit(words@, i) == (i < bit && code[i]),
            decreases total - bit,
        {
            proof {
                lemma_bit_place(g, bit as int, col as int, row, x as int, y as int);
                lemma_square_fits(band@.len() as int, s, x as int, y as int, r as int, g.band_width as int, g.band_height as int);
                lemma_square_fits(band@.len() as int, s, x + sub_dx, y as int, r as int, g.band_width as int, g.band_height as int);
                lemma_data_rows(g.total_bits as int, g.pairs as int);
                assert(64 * words@.len() > total) by (nonlinear_arith)
                    requires
                        words@.len() == (total + 63) / 64 + 1,
                ;
            }
            let a = sample(band, stride, x, y, r, count);
            let b = sample(band, stride, x + sub_dx, y, r, count);
            let delta = a - b;
            let magnitude = if delta < 0 { -delta } else { delta };
            assert(delta == g.bit_delta(band@, s, bit as int));
            // High then low is a one. Low then high is a zero.
            if delta > 0 {
                set_code_bit(&mut words, bit);
            }
            if magnitude < min_mag {
                min_mag = magnitude;
            }
            sum_mag = sum_mag + (if magnitude < contrast { magnitude } else { contrast }) as u64;
            if magnitude < blank_limit {
                blanks = blanks + 1;
                if first_blank < 0 {
                    first_blank = bit as i32;
                }
            }
            bit = bit + 1;
            col = col + 1;
            if col == pairs {
                col = 0;
                x = fx;
                y = y + row_dy;
                proof {
                    row = row + 1;
                }
            } else {
                x = x + pair_dx;
            }
        }
        self.bits = words;
        self.contrast = contrast;
        self.blank_bits = blanks;
        self.min_magnitude = if min_mag < contrast { min_mag } else { contrast };
        self.sum_magnitude = sum_mag;
        self.is_id_frame = false;
        self.id_bits = 0;

        // The shader can paint the ID string in place of the values. It paints
        // whole bytes and leaves the rest of the area black. This call writes
        // nothing into `out`, so it returns false. Read `id_text` for the
        // string.
        assert(first_blank > 0 ==> ((first_blank & 7 == 0) == (first_blank % 8 == 0))) by (bit_vector);
        if blanks > 0 && first_blank > 0 && first_blank & 7 == 0 && blanks as usize == total - first_blank as usize {
            self.is_id_frame = true;
            self.id_bits = first_blank as u32;
            proof {
                assert(64 * self.bits@.len() > total) by (nonlinear_arith)
                    requires
                        self.bits@.len() == (total + 63) / 64 + 1,
                ;
            }
            self.id_text = id_string(&self.bits, first_blank as usize / 8, Ghost(code));
            return false;
        }

        let mut j: usize = 0;
        while j < self.plan.len()
            invariant
                g.plan_in_buffer(),
                self.plan@ == g.plan@,
                self.bits@.len() == g.bits@.len(),
                forall|i: int| 0 <= i < 64 * self.bits@.len() ==> #[trigger] word_bit(self.bits@, i) == (i < total && code[i]),
                total == g.total_bits,
                code == g.code_bits(band@, s),
                j <= self.plan@.len(),
                self.plan@.len() <= out@.len(),
                out@.len() == old(out)@.len(),
                forall|k: int|
                    0 <= k < j ==> #[trigger] out@[k] == spec_decode_value(
                        code_value(code, g.plan@[k].offset as int, g.plan@[k].bits as int) as u32,
                        g.plan@[k].bits,
                        g.plan@[k].kind,
                    ) && out@[k] == spec_decode_value(
                        stream_value(self.bits@, g.plan@[k].offset as int, g.plan@[k].bits as int) as u32,
                        g.plan@[k].bits,
                        g.plan@[k].kind,
                    ),
                forall|k: int| j <= k < out@.len() ==> #[trigger] out@[k] == old(out)@[k],
            decreases self.plan@.len() - j,
        {
            let p = self.plan[j];
            assert(g.plan@[j as int] == p);
            let raw = extract(self.bits.as_slice(), p.offset as usize, p.bits as usize);
            proof {
                lemma_code_stream(self.bits@, code, p.offset as int, p.bits as int);
            }
            out[j] = decode_value(raw, p.bits, p.kind);
            j += 1;
        }
        true
    }
}

/// Two readers that `new` builds from the same schema, width and layout
/// read alike.
pub proof fn lemma_built_readers_alike(a: CodeReader, b: CodeReader, schema: CamConfig, total: int, layout: GridLayout)
    requires
        a.built_from(schema, total, layout),
        b.built_from(schema, total, layout),
    ensures
        a.reads_alike(&b),
{
}

proof fn lemma_alike_counts<P: Pixel>(a: CodeReader, b: CodeReader, band: Seq<P>, stride: int, n: int)
    requires
        a.reads_alike(&b),
    ensures
        a.blank_count(band, stride, n) == b.blank_count(band, stride, n),
        a.first_blank(band, stride, n) == b.first_blank(band, stride, n),
    decreases n,
{
    if n > 0 {
        lemma_alike_counts(a, b, band, stride, n - 1);
        assert(a.bit_delta(band, stride, n - 1) == b.bit_delta(band, stride, n - 1));
    }
}

/// Readers that read alike succeed on the same bands, and cover the same
/// rectangle of the frame.
pub proof fn lemma_alike_read_ok<P: Pixel>(a: CodeReader, b: CodeReader, band: Seq<P>, stride: int, out_len: int)
    requires
        a.reads_alike(&b),
    ensures
        a.read_ok(band, stride, out_len) == b.read_ok(band, stride, out_len),
        a.spec_band_rect() == b.spec_band_rect(),
{
    lemma_alike_counts(a, b, band, stride, a.spec_total_bits());
    assert(a.points_fit() == b.points_fit());
    assert(a.frame_contrast(band, stride) == b.frame_contrast(band, stride));
}

} // verus!
