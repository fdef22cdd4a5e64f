//! Zero-copy reading of the first message of an OSC packet.
//!
//! The reader accepts one message with one scalar argument, or one float
//! array, and descends into the first element of a bundle.
use vstd::prelude::*;
use vstd::utf8::*;
use vstd::string::*;
use vstd::arithmetic::power2::{lemma2_to64, lemma_pow2_adds, lemma_pow2_pos, lemma_pow2_strictly_increases, pow2};

use crate::text::{chars_of, spec_eq_ignore_ascii_case, spec_trim, spec_trim_end_nuls, trim_bounds};

verus! {

/// The first bytes of an OSC bundle: `#bundle`.
pub const BUNDLE_TAG: [u8; 7] = [35u8, 98u8, 117u8, 110u8, 100u8, 108u8, 101u8];

/// "/" + null + ",F" {no bytes allocated}
pub const MIN_PACKET_BYTES: i32 = 4;

/// Why a packet or an argument could not be read.
#[derive(Debug, Clone, Copy, PartialEq, Eq)]
pub enum OscError {
    /// A bundle is shorter than its 20 byte header.
    TruncatedBundleHeader,
    /// The size of the first bundle element runs past the packet.
    BundleElementOutOfRange,
    /// The address has no terminating null.
    AddressNotTerminated,
    /// The address is not UTF-8.
    AddressNotUtf8,
    /// The argument bytes run past the packet.
    ArgumentsOutOfRange,
    /// The type-tag string does not begin with ','.
    TagMissingComma,
    /// The type-tag string has no terminating null.
    TagNotTerminated,
    /// The type-tag string holds no type.
    EmptyTypeTag,
    /// The type-tag string holds more than one argument.
    MultiArgumentTag,
    /// A scalar type tag this reader does not know.
    UnsupportedType(u8),
    /// An array element type other than 'f'.
    UnsupportedArrayElement(u8),
    /// An array with no closing ']'.
    ArrayNotClosed,
    /// An array with no element.
    EmptyArray,
    /// An array with more than six floats.
    UnsupportedArrayLength(usize),
    /// The type does not coerce into a vector.
    NotVector,
    /// The argument bytes hold fewer than the type needs.
    BufferTooSmall,
    /// Nil does not coerce into a number.
    NilNotNumber,
    /// A string does not coerce into a number.
    StringNotNumber,
    /// Infinitum is an error value.
    InfinitumNotNumber,
}

/// The argument type of one message.
#[derive(Debug, Clone, Copy, PartialEq, Eq)]
pub enum MsgType {
    BoolTrue,
    BoolFalse,
    F32,
    I32,
    ArrayF32X2,
    ArrayF32X3,
    ArrayF32X4,
    ArrayF32X5,
    ArrayF32X6,
    String,
    Infinitum,
    Nill,
}

/// One message, borrowed from the packet.
pub struct RefMessage<'a> {
    /// Has some number of trailing null values.
    pub addr: &'a str,
    pub t: MsgType,
    pub contents: &'a [u8],
}

/// What a message means, independent of where its bytes live.
pub struct SpecMessage {
    pub addr: Seq<u8>,
    pub t: MsgType,
    pub contents: Seq<u8>,
}

/// The source of a float value: a constant, the bits of an IEEE float, or an
/// integer that the caller divides by 255 and clamps (`Scaled`) or converts as is.
#[derive(Debug, Clone, Copy, PartialEq, Eq)]
pub enum F32Source {
    /// 1.0 for true, 0.0 for false.
    Constant(bool),
    /// The big-endian bits of an `f32`.
    Bits(u32),
    /// `value / 255`, clamped to 0..=1.
    Scaled(i32),
    /// `value` as a float, unclamped.
    Raw(i32),
}

// ---------------------------------------------------------------------------
// Specification
// ---------------------------------------------------------------------------

/// `i` is the first index of `s` that holds `b`.
pub open spec fn is_first_index(s: Seq<u8>, b: u8, i: int) -> bool {
    &&& 0 <= i < s.len()
    &&& s[i] == b
    &&& forall|j: int| 0 <= j < i ==> s[j] != b
}

/// The first index of `b` in `s`.
pub open spec fn first_index_of(s: Seq<u8>, b: u8) -> Option<int> {
    if exists|i: int| is_first_index(s, b, i) {
        Some(choose|i: int| is_first_index(s, b, i))
    } else {
        None
    }
}

/// `i` is the first index of `s` whose byte is not `b`.
pub open spec fn is_first_other(s: Seq<u8>, b: u8, i: int) -> bool {
    &&& 0 <= i < s.len()
    &&& s[i] != b
    &&& forall|j: int| 0 <= j < i ==> s[j] == b
}

/// The first index of `s` that does not hold `b`.
pub open spec fn first_other_than(s: Seq<u8>, b: u8) -> Option<int> {
    if exists|i: int| is_first_other(s, b, i) {
        Some(choose|i: int| is_first_other(s, b, i))
    } else {
        None
    }
}

/// OSC strings are null terminated and padded to a multiple of four bytes;
/// a string of `n` content bytes takes `n + (4 - n % 4)` bytes.
pub open spec fn spec_padded_len(n: int) -> int {
    n + (4 - n % 4)
}

/// The big-endian value of four bytes.
pub open spec fn be_u32(b0: u8, b1: u8, b2: u8, b3: u8) -> int {
    b0 * 16777216 + b1 * 65536 + b2 * 256 + b3
}

/// The two's complement reading of a 32 bit pattern.
pub open spec fn as_i32(u: int) -> int {
    if u >= 0x8000_0000 { u - 0x1_0000_0000 } else { u }
}

pub open spec fn bundle_tag() -> Seq<u8> {
    seq![35u8, 98u8, 117u8, 110u8, 100u8, 108u8, 101u8]
}

pub open spec fn spec_scalar(c: u8) -> Result<MsgType, OscError> {
    if c == 102 {
        Ok(MsgType::F32)
    } else if c == 105 {
        Ok(MsgType::I32)
    } else if c == 115 {
        Ok(MsgType::String)
    } else if c == 84 {
        Ok(MsgType::BoolTrue)
    } else if c == 70 {
        Ok(MsgType::BoolFalse)
    } else if c == 78 {
        Ok(MsgType::Nill)
    } else if c == 73 {
        Ok(MsgType::Infinitum)
    } else {
        Err(OscError::UnsupportedType(c))
    }
}

pub open spec fn spec_count_to_type(count: int) -> Result<MsgType, OscError> {
    if count == 1 {
        Ok(MsgType::F32)
    } else if count == 2 {
        Ok(MsgType::ArrayF32X2)
    } else if count == 3 {
        Ok(MsgType::ArrayF32X3)
    } else if count == 4 {
        Ok(MsgType::ArrayF32X4)
    } else if count == 5 {
        Ok(MsgType::ArrayF32X5)
    } else if count == 6 {
        Ok(MsgType::ArrayF32X6)
    } else if count == 0 {
        Err(OscError::EmptyArray)
    } else {
        Err(OscError::UnsupportedArrayLength(count as usize))
    }
}

/// An array tag `[ff...]`: the run of `f` after the `[` must end in `]`.
pub open spec fn spec_array_type(tags: Seq<u8>) -> Result<MsgType, OscError> {
    let rest = tags.drop_first();
    match first_other_than(rest, 102u8) {
        None => Err(OscError::ArrayNotClosed),
        Some(k) => if rest[k] == 93u8 {
            spec_count_to_type(k)
        } else {
            Err(OscError::UnsupportedArrayElement(rest[k]))
        },
    }
}

/// The type of the tag characters between ',' and the null.
pub open spec fn spec_tag_type(tags: Seq<u8>) -> Result<MsgType, OscError> {
    if tags.len() == 0 {
        Err(OscError::EmptyTypeTag)
    } else if tags[0] == 91u8 {
        spec_array_type(tags)
    } else if tags.len() == 1 {
        spec_scalar(tags[0])
    } else {
        Err(OscError::MultiArgumentTag)
    }
}

/// The type of the tag string at `tag_start` and the index of the first
/// argument byte.
pub open spec fn spec_get_type(bytes: Seq<u8>, tag_start: int) -> Result<(MsgType, int), OscError> {
    if !(0 <= tag_start < bytes.len() && bytes[tag_start] == 44u8) {
        Err(OscError::TagMissingComma)
    } else {
        match first_index_of(bytes.subrange(tag_start, bytes.len() as int), 0u8) {
            None => Err(OscError::TagNotTerminated),
            Some(r) => match spec_tag_type(bytes.subrange(tag_start + 1, tag_start + r)) {
                Ok(t) => Ok((t, tag_start + spec_padded_len(r))),
                Err(e) => Err(e),
            },
        }
    }
}

/// The number of argument bytes that a type takes.
pub open spec fn spec_size(t: MsgType) -> int {
    match t {
        MsgType::F32 | MsgType::I32 => 4,
        MsgType::ArrayF32X2 => 8,
        MsgType::ArrayF32X3 => 12,
        MsgType::ArrayF32X4 => 16,
        MsgType::ArrayF32X5 => 20,
        MsgType::ArrayF32X6 => 24,
        _ => 0,
    }
}

/// The message at the start of `bytes`, once the type is known.
pub open spec fn spec_message_body(bytes: Seq<u8>, addr_len: int) -> Result<SpecMessage, OscError> {
    if !valid_utf8(bytes.subrange(0, addr_len)) {
        Err(OscError::AddressNotUtf8)
    } else {
        match spec_get_type(bytes, spec_padded_len(addr_len)) {
            Err(e) => Err(e),
            Ok((t, args)) => {
                let len = spec_size(t);
                if len > 0 && args + len > bytes.len() {
                    Err(OscError::ArgumentsOutOfRange)
                } else {
                    Ok(SpecMessage {
                        addr: bytes.subrange(0, addr_len),
                        t,
                        contents: if len > 0 { bytes.subrange(args, args + len) } else { Seq::empty() },
                    })
                }
            },
        }
    }
}

/// The first singular message of an OSC packet. A bundle yields the first
/// message of its first element.
pub open spec fn spec_first_message(bytes: Seq<u8>) -> Result<SpecMessage, OscError>
    decreases bytes.len(),
{
    if bytes.len() >= 7 && bytes.subrange(0, 7) == bundle_tag() {
        if bytes.len() < 20 {
            Err(OscError::TruncatedBundleHeader)
        } else {
            let size = be_u32(bytes[16], bytes[17], bytes[18], bytes[19]);
            if 20 + size > bytes.len() {
                Err(OscError::BundleElementOutOfRange)
            } else {
                spec_first_message(bytes.subrange(20, 20 + size))
            }
        }
    } else {
        match first_index_of(bytes, 0u8) {
            None => Err(OscError::AddressNotTerminated),
            Some(n) => spec_message_body(bytes, n),
        }
    }
}

/// The four argument bytes at `off`, if present.
pub open spec fn spec_word(buff: Seq<u8>, off: int) -> Option<Seq<u8>> {
    if off + 4 <= buff.len() {
        Some(buff.subrange(off, off + 4))
    } else {
        None
    }
}

/// The signed big-endian value of the first four bytes.
pub open spec fn spec_word_i32(w: Seq<u8>) -> int {
    as_i32(be_u32(w[0], w[1], w[2], w[3]))
}

/// True when the IEEE single whose big-endian bits are `w` compares greater
/// than 0.5. Positive floats order like their bit patterns; 0.5 is
/// 0x3F000000, +infinity is 0x7F800000, and the patterns above it are NaN.
pub open spec fn spec_f32_bits_above_half(w: Seq<u8>) -> bool {
    let u = be_u32(w[0], w[1], w[2], w[3]);
    0x3F00_0000 < u && u <= 0x7F80_0000
}

/// The sign of the IEEE single whose big-endian bytes are `w`.
pub open spec fn f32_negative(w: Seq<u8>) -> bool {
    w[0] >= 128
}

/// The 8-bit biased exponent of the IEEE single whose big-endian bytes are
/// `w`: the low 7 bits of the first byte, then the top bit of the second.
pub open spec fn f32_exponent(w: Seq<u8>) -> int {
    (w[0] % 128) * 2 + w[1] / 128
}

/// The 23-bit fraction of the IEEE single whose big-endian bytes are `w`.
pub open spec fn f32_fraction(w: Seq<u8>) -> int {
    (w[1] % 128) * 65536 + w[2] * 256 + w[3]
}

/// The magnitude of a finite IEEE single times 2^149, which is a whole
/// number: `(2^23 + m) * 2^(e - 1)` for a normal exponent `e`, and `m` for
/// the subnormal exponent 0.
pub open spec fn f32_scaled_magnitude(e: int, m: int) -> int {
    if e == 0 {
        m
    } else {
        (0x80_0000 + m) * pow2((e - 1) as nat)
    }
}

/// The IEEE single whose big-endian bytes are `w` compares greater than
/// 0.5: it is not negative, and it is +infinity (all-ones exponent, zero
/// fraction) or finite with a magnitude above 1/2, that is 2^148 once scaled
/// by 2^149. NaN (all-ones exponent, non-zero fraction) compares with
/// nothing.
pub open spec fn f32_exceeds_half(w: Seq<u8>) -> bool {
    let e = f32_exponent(w);
    let m = f32_fraction(w);
    &&& !f32_negative(w)
    &&& if e == 255 {
        m == 0
    } else {
        f32_scaled_magnitude(e, m) > pow2(148)
    }
}

proof fn lemma_f32_fields(b0: u8, b1: u8, b2: u8, b3: u8)
    ensures
        be_u32(b0, b1, b2, b3) == (if b0 >= 128 { 0x8000_0000int } else { 0 }) + f32_exponent(seq![b0, b1, b2, b3])
            * 0x80_0000 + f32_fraction(seq![b0, b1, b2, b3]),
        0 <= f32_exponent(seq![b0, b1, b2, b3]) < 256,
        0 <= f32_fraction(seq![b0, b1, b2, b3]) < 0x80_0000,
{
    let w = seq![b0, b1, b2, b3];
    assert(w[0] == b0 && w[1] == b1 && w[2] == b2 && w[3] == b3);
    let hi = b0 % 128;
    let top = b1 / 128;
    let lo = b1 % 128;
    assert(b0 == (if b0 >= 128 { 128int } else { 0 }) + hi);
    assert(b1 == top * 128 + lo);
    assert(0 <= top <= 1 && 0 <= lo < 128 && 0 <= hi < 128);
    assert(b0 * 16777216 == (if b0 >= 128 { 0x8000_0000int } else { 0 }) + hi * 16777216) by (nonlinear_arith)
        requires
            b0 == (if b0 >= 128 { 128int } else { 0 }) + hi,
    ;
    assert(b1 * 65536 == top * 0x80_0000 + lo * 65536) by (nonlinear_arith)
        requires
            b1 == top * 128 + lo,
    ;
}

proof fn lemma_scaled_vs_half(e: int, m: int)
    requires
        0 <= e < 255,
        0 <= m < 0x80_0000,
    ensures
        f32_scaled_magnitude(e, m) > pow2(148) <==> (e > 126 || (e == 126 && m > 0)),
{
    lemma2_to64();
    lemma_pow2_adds(23, 125);
    lemma_pow2_adds(24, 124);
    lemma_pow2_adds(23, 126);
    lemma_pow2_strictly_increases(23, 148);
    lemma_pow2_strictly_increases(148, 149);
    lemma_pow2_pos(125);
    if e == 0 {
    } else {
        let p = pow2((e - 1) as nat);
        let s = f32_scaled_magnitude(e, m);
        assert(s == (0x80_0000 + m) * p);
        lemma_pow2_pos((e - 1) as nat);
        if e >= 127 {
            if e - 1 > 126 {
                lemma_pow2_strictly_increases(126, (e - 1) as nat);
            }
            assert(s >= 0x80_0000 * pow2(126)) by (nonlinear_arith)
                requires
                    s == (0x80_0000 + m) * p,
                    p >= pow2(126),
                    m >= 0,
            ;
        } else if e == 126 {
            assert(pow2(148) == 0x80_0000 * pow2(125));
            assert(s - pow2(148) == m * pow2(125)) by (nonlinear_arith)
                requires
                    s == (0x80_0000 + m) * pow2(125),
                    pow2(148) == 0x80_0000 * pow2(125),
            ;
            assert(m > 0 ==> m * pow2(125) > 0) by (nonlinear_arith)
                requires
                    pow2(125) > 0,
            ;
        } else {
            if e - 1 < 124 {
                lemma_pow2_strictly_increases((e - 1) as nat, 124);
            }
            assert(pow2(148) == 0x100_0000 * pow2(124));
            assert(s < 0x100_0000 * pow2(124)) by (nonlinear_arith)
                requires
                    s == (0x80_0000 + m) * p,
                    p <= pow2(124),
                    p > 0,
                    0 <= m < 0x80_0000,
            ;
        }
    }
}

/// A float argument reads as a boolean that is true exactly when the float
/// compares greater than 0.5, whether integers are scaled or not.
pub proof fn lemma_float_bool_above_half(t: MsgType, buff: Seq<u8>, scale_ints: bool)
    requires
        t is F32 || t is ArrayF32X2 || t is ArrayF32X3 || t is ArrayF32X4 || t is ArrayF32X5 || t is ArrayF32X6,
        buff.len() >= 4,
    ensures
        spec_parse_bool(t, buff, scale_ints) == Some(f32_exceeds_half(buff.subrange(0, 4))),
{
    let w = buff.subrange(0, 4);
    assert(w =~= seq![w[0], w[1], w[2], w[3]]);
    lemma_f32_fields(w[0], w[1], w[2], w[3]);
    let e = f32_exponent(w);
    let m = f32_fraction(w);
    if e < 255 {
        lemma_scaled_vs_half(e, m);
    }
}

/// `true` or `false` in any ASCII case, after trailing nulls and then
/// surrounding white space are dropped.
pub open spec fn spec_text_bool(chars: Seq<char>) -> Option<bool> {
    let t = spec_trim(spec_trim_end_nuls(chars));
    if spec_eq_ignore_ascii_case(t, seq!['t', 'r', 'u', 'e']) {
        Some(true)
    } else if spec_eq_ignore_ascii_case(t, seq!['f', 'a', 'l', 's', 'e']) {
        Some(false)
    } else {
        None
    }
}

pub open spec fn is_float_type(t: MsgType) -> bool {
    match t {
        MsgType::F32 | MsgType::ArrayF32X2 | MsgType::ArrayF32X3 | MsgType::ArrayF32X4
        | MsgType::ArrayF32X5 | MsgType::ArrayF32X6 => true,
        _ => false,
    }
}

pub open spec fn spec_parse_bool(t: MsgType, buff: Seq<u8>, scale_ints: bool) -> Option<bool> {
    match t {
        MsgType::BoolTrue => Some(true),
        MsgType::BoolFalse => Some(false),
        MsgType::I32 => match spec_word(buff, 0) {
            None => None,
            Some(w) => Some(if scale_ints { spec_word_i32(w) > 128 } else { spec_word_i32(w) >= 1 }),
        },
        MsgType::Infinitum | MsgType::Nill => None,
        MsgType::String => if valid_utf8(buff) {
            spec_text_bool(decode_utf8(buff))
        } else {
            None
        },
        _ => match spec_word(buff, 0) {
            None => None,
            Some(w) => Some(spec_f32_bits_above_half(w)),
        },
    }
}

pub open spec fn spec_f32_source(t: MsgType, buff: Seq<u8>, scale_ints: bool) -> Result<F32Source, OscError> {
    match t {
        MsgType::BoolFalse => Ok(F32Source::Constant(false)),
        MsgType::BoolTrue => Ok(F32Source::Constant(true)),
        MsgType::Nill => Err(OscError::NilNotNumber),
        MsgType::String => Err(OscError::StringNotNumber),
        MsgType::Infinitum => Err(OscError::InfinitumNotNumber),
        _ => match spec_word(buff, 0) {
            None => Err(OscError::BufferTooSmall),
            Some(w) => if t == MsgType::I32 {
                if scale_ints {
                    Ok(F32Source::Scaled(spec_word_i32(w) as i32))
                } else {
                    Ok(F32Source::Raw(spec_word_i32(w) as i32))
                }
            } else {
                Ok(F32Source::Bits(be_u32(w[0], w[1], w[2], w[3]) as u32))
            },
        },
    }
}

pub open spec fn spec_vec3_bits(t: MsgType, buff: Seq<u8>) -> Result<(u32, u32, u32), OscError> {
    match t {
        MsgType::ArrayF32X3 | MsgType::ArrayF32X4 | MsgType::ArrayF32X5 | MsgType::ArrayF32X6 => {
            if buff.len() < 12 {
                Err(OscError::BufferTooSmall)
            } else {
                Ok((
                    be_u32(buff[0], buff[1], buff[2], buff[3]) as u32,
                    be_u32(buff[4], buff[5], buff[6], buff[7]) as u32,
                    be_u32(buff[8], buff[9], buff[10], buff[11]) as u32,
                ))
            }
        },
        _ => Err(OscError::NotVector),
    }
}

// ---------------------------------------------------------------------------
// Outside calls
// ---------------------------------------------------------------------------

/// Calls `memchr::memchr`, which returns the index of the first byte of
/// `haystack` that equals `needle`, or `None` when no byte does.
#[verifier::external_body]
fn find_byte(needle: u8, haystack: &[u8]) -> (res: Option<usize>)
    ensures
        match res {
            Some(i) => is_first_index(haystack@, needle, i as int),
            None => forall|j: int| 0 <= j < haystack@.len() ==> haystack@[j] != needle,
        },
{
    memchr::memchr(needle, haystack)
}

/// Calls `std::str::from_utf8`, which accepts a byte slice exactly when it is
/// well-formed UTF-8, and then reads the same bytes as a `str`.
#[verifier::external_body]
fn utf8_str(bytes: &[u8]) -> (res: Option<&str>)
    ensures
        match res {
            Some(s) => valid_utf8(bytes@) && s.spec_bytes() == bytes@ && s@ == decode_utf8(bytes@),
            None => !valid_utf8(bytes@),
        },
{
    std::str::from_utf8(bytes).ok()
}

// ---------------------------------------------------------------------------
// Reading
// ---------------------------------------------------------------------------

proof fn lemma_first_index_of(s: Seq<u8>, b: u8, i: int)
    requires
        is_first_index(s, b, i),
    ensures
        first_index_of(s, b) == Some(i),
{
    let c = choose|k: int| is_first_index(s, b, k);
    assert(is_first_index(s, b, c));
    if c < i {
        assert(s[c] != b);
    } else if i < c {
        assert(s[i] != b);
    }
}

proof fn lemma_no_index_of(s: Seq<u8>, b: u8)
    requires
        forall|j: int| 0 <= j < s.len() ==> s[j] != b,
    ensures
        first_index_of(s, b) is None,
{
}

proof fn lemma_first_other(s: Seq<u8>, b: u8, i: int)
    requires
        is_first_other(s, b, i),
    ensures
        first_other_than(s, b) == Some(i),
{
    let c = choose|k: int| is_first_other(s, b, k);
    assert(is_first_other(s, b, c));
    if c < i {
        assert(s[c] == b);
    } else if i < c {
        assert(s[i] == b);
    }
}

/// Pad a null-terminated string.
/// Rust -> C style OscStrings
fn padded_len(content_len: usize) -> (res: usize)
    requires
        content_len + 4 <= usize::MAX,
    ensures
        res == spec_padded_len(content_len as int),
{
    content_len + (4 - content_len % 4)
}

/// Returns the first singular message of a buffer containing an OSC packet.
pub fn first_message(bytes: &[u8]) -> (res: Result<RefMessage<'_>, OscError>)
    requires
        bytes@.len() <= isize::MAX,
    ensures
        match (res, spec_first_message(bytes@)) {
            (Ok(m), Ok(s)) => m.addr.spec_bytes() == s.addr && m.t == s.t && m.contents@ == s.contents,
            (Err(e), Err(f)) => e == f,
            _ => false,
        },
    decreases bytes@.len(),
{
    if bytes.len() >= 7 && bytes[0] == BUNDLE_TAG[0] && bytes[1] == BUNDLE_TAG[1]
        && bytes[2] == BUNDLE_TAG[2] && bytes[3] == BUNDLE_TAG[3] && bytes[4] == BUNDLE_TAG[4]
        && bytes[5] == BUNDLE_TAG[5] && bytes[6] == BUNDLE_TAG[6] {
        assert(bytes@.subrange(0, 7) =~= bundle_tag());
        if bytes.len() < 20 {
            return Err(OscError::TruncatedBundleHeader);
        }
        let size = word_u32(bytes, 16);
        if size as usize > bytes.len() - 20 {
            return Err(OscError::BundleElementOutOfRange);
        }
        let element = &bytes[20..20 + size as usize];
        return first_message(element);
    }
    proof {
        if bytes@.len() >= 7 {
            if bytes@.subrange(0, 7) == bundle_tag() {
                assert(bytes@[0] == bundle_tag()[0]);
                assert(bytes@[1] == bundle_tag()[1]);
                assert(bytes@[2] == bundle_tag()[2]);
                assert(bytes@[3] == bundle_tag()[3]);
                assert(bytes@[4] == bundle_tag()[4]);
                assert(bytes@[5] == bundle_tag()[5]);
                assert(bytes@[6] == bundle_tag()[6]);
            }
        }
    }

    // finds address locations
    let addr_null = match find_byte(0u8, bytes) {
        Some(n) => n,
        None => {
            proof { lemma_no_index_of(bytes@, 0u8); }
            return Err(OscError::AddressNotTerminated);
        },
    };
    proof { lemma_first_index_of(bytes@, 0u8, addr_null as int); }
    let addr = match utf8_str(&bytes[0..addr_null]) {
        Some(a) => a,
        None => return Err(OscError::AddressNotUtf8),
    };
    let tag_start = padded_len(addr_null);

    let (osc_type, args_start) = match get_type(bytes, tag_start) {
        Ok(v) => v,
        Err(e) => return Err(e),
    };
    let len = osc_type.size() as usize;
    let contents: &[u8] = if len > 0 {
        if args_start > bytes.len() || len > bytes.len() - args_start {
            return Err(OscError::ArgumentsOutOfRange);
        }
        &bytes[args_start..args_start + len]
    } else {
        &bytes[0..0]
    };
    proof {
        if len == 0 {
            assert(contents@ =~= Seq::<u8>::empty());
        }
    }
    Ok(RefMessage { addr, t: osc_type, contents })
}

/// The big-endian `u32` at `off`.
fn word_u32(buff: &[u8], off: usize) -> (res: u32)
    requires
        off + 4 <= buff@.len(),
    ensures
        res == be_u32(buff@[off as int], buff@[off + 1], buff@[off + 2], buff@[off + 3]),
{
    (buff[off] as u32) * 16777216 + (buff[off + 1] as u32) * 65536 + (buff[off + 2] as u32) * 256
        + (buff[off + 3] as u32)
}

/// returns type and the null byte index of the tag string
pub fn get_type(bytes: &[u8], tag_start: usize) -> (res: Result<(MsgType, usize), OscError>)
    requires
        bytes@.len() <= isize::MAX,
    ensures
        match (res, spec_get_type(bytes@, tag_start as int)) {
            (Ok((t, a)), Ok((st, sa))) => t == st && a == sa,
            (Err(e), Err(f)) => e == f,
            _ => false,
        },
{
    if tag_start >= bytes.len() || bytes[tag_start] != 44u8 {
        return Err(OscError::TagMissingComma);
    }
    let tail = &bytes[tag_start..bytes.len()];
    let rel_null = match find_byte(0u8, tail) {
        Some(r) => r,
        None => {
            proof { lemma_no_index_of(tail@, 0u8); }
            return Err(OscError::TagNotTerminated);
        },
    };
    proof { lemma_first_index_of(tail@, 0u8, rel_null as int); }
    let tag_null = tag_start + rel_null;
    let args_start = tag_start + padded_len(rel_null);

    let tags = &bytes[tag_start + 1..tag_null];
    let t = if tags.len() == 0 {
        return Err(OscError::EmptyTypeTag);
    } else if tags[0] == 91u8 {
        match array_type(tags) {
            Ok(t) => t,
            Err(e) => return Err(e),
        }
    } else if tags.len() == 1 {
        match scalar(tags[0]) {
            Ok(t) => t,
            Err(e) => return Err(e),
        }
    } else {
        return Err(OscError::MultiArgumentTag);
    };
    Ok((t, args_start))
}

fn scalar(c: u8) -> (res: Result<MsgType, OscError>)
    ensures
        res == spec_scalar(c),
{
    match c {
        102u8 => Ok(MsgType::F32),
        105u8 => Ok(MsgType::I32),
        115u8 => Ok(MsgType::String),
        84u8 => Ok(MsgType::BoolTrue),
        70u8 => Ok(MsgType::BoolFalse),
        78u8 => Ok(MsgType::Nill),
        73u8 => Ok(MsgType::Infinitum),
        other => Err(OscError::UnsupportedType(other)),
    }
}

/// comma stripped tag slices
fn array_type(tags: &[u8]) -> (res: Result<MsgType, OscError>)
    requires
        tags@.len() >= 1,
        tags@[0] == 91u8,
    ensures
        res == spec_array_type(tags@),
{
    let ghost rest = tags@.drop_first();
    let mut count = 0usize;
    let mut i: usize = 1;
    while i < tags.len()
        invariant
            1 <= i <= tags@.len(),
            count == i - 1,
            rest == tags@.drop_first(),
            forall|j: int| 0 <= j < count ==> rest[j] == 102u8,
        decreases tags@.len() - i,
    {
        let b = tags[i];
        if b == 102u8 {
            count += 1;
        } else if b == 93u8 {
            proof { lemma_first_other(rest, 102u8, count as int); }
            return count_to_type(count);
        } else {
            proof { lemma_first_other(rest, 102u8, count as int); }
            return Err(OscError::UnsupportedArrayElement(b));
        }
        i += 1;
    }
    proof {
        if exists|k: int| is_first_other(rest, 102u8, k) {
            let k = choose|k: int| is_first_other(rest, 102u8, k);
            assert(rest[k] == 102u8);
        }
    }
    Err(OscError::ArrayNotClosed)
}

fn count_to_type(count: usize) -> (res: Result<MsgType, OscError>)
    ensures
        res == spec_count_to_type(count as int),
{
    match count {
        1 => Ok(MsgType::F32),
        2 => Ok(MsgType::ArrayF32X2),
        3 => Ok(MsgType::ArrayF32X3),
        4 => Ok(MsgType::ArrayF32X4),
        5 => Ok(MsgType::ArrayF32X5),
        6 => Ok(MsgType::ArrayF32X6),
        0 => Err(OscError::EmptyArray),
        n => Err(OscError::UnsupportedArrayLength(n)),
    }
}

impl<'a> RefMessage<'a> {
    /// Reads the argument as a boolean, scaling integers to the 0..255 range.
    pub fn into_bool(&self) -> (res: Option<bool>)
        ensures
            res == spec_parse_bool(self.t, self.contents@, true),
    {
        self.t.parse_bool(self.contents, true)
    }

    /// Where the float value of the argument comes from, scaling integers.
    pub fn f32_source(&self) -> (res: Result<F32Source, OscError>)
        ensures
            res == spec_f32_source(self.t, self.contents@, true),
    {
        self.t.f32_source(self.contents, true)
    }

    /// The bits of the first three floats of an array argument.
    pub fn vec3_bits(&self) -> (res: Result<(u32, u32, u32), OscError>)
        ensures
            res == spec_vec3_bits(self.t, self.contents@),
    {
        self.t.vec3_bits(self.contents)
    }
}

/// The four bytes at `off`, if the buffer holds them.
fn word(buff: &[u8], off: usize) -> (res: Option<[u8; 4]>)
    requires
        off + 4 <= usize::MAX,
    ensures
        match (res, spec_word(buff@, off as int)) {
            (Some(a), Some(w)) => a@ == w,
            (None, None) => true,
            _ => false,
        },
{
    if off > buff.len() || buff.len() - off < 4 {
        return None;
    }
    let a = [buff[off], buff[off + 1], buff[off + 2], buff[off + 3]];
    proof {
        assert(a@ =~= buff@.subrange(off as int, off + 4));
    }
    Some(a)
}

impl MsgType {
    /// The signed big-endian value of a word.
    pub fn to_i32(buff: [u8; 4]) -> (res: i32)
        ensures
            res == spec_word_i32(buff@),
    {
        let u = (buff[0] as u32) * 16777216 + (buff[1] as u32) * 65536 + (buff[2] as u32) * 256
            + (buff[3] as u32);
        if u >= 0x8000_0000 {
            ((u - 0x8000_0000) as i32) + i32::MIN
        } else {
            u as i32
        }
    }

    fn word_above_half(buff: [u8; 4]) -> (res: bool)
        ensures
            res == spec_f32_bits_above_half(buff@),
    {
        let u = (buff[0] as u32) * 16777216 + (buff[1] as u32) * 65536 + (buff[2] as u32) * 256
            + (buff[3] as u32);
        0x3F00_0000 < u && u <= 0x7F80_0000
    }

    /// Reads the argument as a boolean. A float is true above 0.5; an integer
    /// is true above 128 when scaled, and at 1 or more when not; a string is
    /// `true` or `false` in any ASCII case.
    pub fn parse_bool(&self, buff: &[u8], scale_ints: bool) -> (res: Option<bool>)
        ensures
            res == spec_parse_bool(*self, buff@, scale_ints),
    {
        match self {
            MsgType::BoolTrue => Some(true),
            MsgType::BoolFalse => Some(false),
            MsgType::F32 | MsgType::ArrayF32X2 | MsgType::ArrayF32X3 | MsgType::ArrayF32X4
            | MsgType::ArrayF32X5 | MsgType::ArrayF32X6 => {
                match word(buff, 0) {
                    Some(w) => Some(Self::word_above_half(w)),
                    None => None,
                }
            },
            MsgType::I32 => {
                match word(buff, 0) {
                    Some(w) => {
                        let val = Self::to_i32(w);
                        Some(if scale_ints { val > 128 } else { val >= 1 })
                    },
                    None => None,
                }
            },
            MsgType::Infinitum | MsgType::Nill => None,
            MsgType::String => {
                let s = match utf8_str(buff) {
                    Some(s) => s,
                    None => return None,
                };
                let chars = chars_of(s);
                let (lo, hi) = trim_bounds(&chars);
                if is_word_ignore_case(&chars, lo, hi, true) {
                    Some(true)
                } else if is_word_ignore_case(&chars, lo, hi, false) {
                    Some(false)
                } else {
                    None
                }
            },
        }
    }

    /// Where the float value of an argument comes from.
    pub fn f32_source(&self, buff: &[u8], scale_ints: bool) -> (res: Result<F32Source, OscError>)
        ensures
            res == spec_f32_source(*self, buff@, scale_ints),
    {
        match self {
            MsgType::BoolFalse => return Ok(F32Source::Constant(false)),
            MsgType::BoolTrue => return Ok(F32Source::Constant(true)),
            MsgType::Nill => return Err(OscError::NilNotNumber),
            MsgType::String => return Err(OscError::StringNotNumber),
            MsgType::Infinitum => return Err(OscError::InfinitumNotNumber),
            _ => {},
        }
        let chunk = match word(buff, 0) {
            Some(c) => c,
            None => return Err(OscError::BufferTooSmall),
        };
        match self {
            MsgType::I32 => {
                let val = Self::to_i32(chunk);
                if scale_ints {
                    Ok(F32Source::Scaled(val))
                } else {
                    Ok(F32Source::Raw(val))
                }
            },
            _ => {
                let u = (chunk[0] as u32) * 16777216 + (chunk[1] as u32) * 65536
                    + (chunk[2] as u32) * 256 + (chunk[3] as u32);
                Ok(F32Source::Bits(u))
            },
        }
    }

    /// The bits of the first three floats of an array of three to six floats.
    pub fn vec3_bits(&self, buff: &[u8]) -> (res: Result<(u32, u32, u32), OscError>)
        ensures
            res == spec_vec3_bits(*self, buff@),
    {
        match self {
            MsgType::ArrayF32X3 | MsgType::ArrayF32X4 | MsgType::ArrayF32X5 | MsgType::ArrayF32X6 => {
                if buff.len() < 12 {
                    return Err(OscError::BufferTooSmall);
                }
                Ok((word_u32(buff, 0), word_u32(buff, 4), word_u32(buff, 8)))
            },
            _ => Err(OscError::NotVector),
        }
    }

    /// The number of argument bytes of this type.
    pub fn size(&self) -> (res: u16)
        ensures
            res == spec_size(*self),
    {
        match self {
            MsgType::BoolFalse | MsgType::BoolTrue | MsgType::Infinitum | MsgType::Nill
            | MsgType::String => 0,
            MsgType::F32 | MsgType::I32 => 4,
            MsgType::ArrayF32X2 => 8,
            MsgType::ArrayF32X3 => 12,
            MsgType::ArrayF32X4 => 16,
            MsgType::ArrayF32X5 => 20,
            MsgType::ArrayF32X6 => 24,
        }
    }
}

/// True when `chars[lo..hi]` is `true` (or `false`) in any ASCII case.
fn is_word_ignore_case(chars: &Vec<char>, lo: usize, hi: usize, which: bool) -> (res: bool)
    requires
        lo <= hi <= chars@.len(),
    ensures
        res == spec_eq_ignore_ascii_case(
            chars@.subrange(lo as int, hi as int),
            if which { seq!['t', 'r', 'u', 'e'] } else { seq!['f', 'a', 'l', 's', 'e'] },
        ),
{
    let word: Vec<char> = if which { vec!['t', 'r', 'u', 'e'] } else { vec!['f', 'a', 'l', 's', 'e'] };
    assert(word@ =~= if which { seq!['t', 'r', 'u', 'e'] } else { seq!['f', 'a', 'l', 's', 'e'] });
    crate::text::eq_ignore_ascii_case_range(chars, lo, hi, &word)
}


// ---------------------------------------------------------------------------
// Laws
// ---------------------------------------------------------------------------

/// `n` null bytes.
pub open spec fn nulls(n: int) -> Seq<u8> {
    Seq::new(n as nat, |i: int| 0u8)
}

/// The bytes of a message with address `addr`, the one-letter type tag `tag`
/// and the argument bytes `args`, laid out as OSC lays them out.
pub open spec fn encode_message(addr: Seq<u8>, tag: u8, args: Seq<u8>) -> Seq<u8> {
    addr + nulls(4 - addr.len() % 4) + seq![44u8, tag] + nulls(2) + args
}

/// A bundle whose first element is `element`, followed by `rest`.
pub open spec fn encode_bundle(time: Seq<u8>, element: Seq<u8>, rest: Seq<u8>) -> Seq<u8> {
    let n = element.len();
    bundle_tag() + nulls(1) + time + seq![
        (n / 16777216) as u8,
        ((n / 65536) % 256) as u8,
        ((n / 256) % 256) as u8,
        (n % 256) as u8,
    ] + element + rest
}

/// A message written with an OSC address (a UTF-8 string that begins with
/// '/' and holds no null), a supported one-letter type tag and the argument
/// bytes that the type takes reads back as the same address, type and
/// arguments.
pub proof fn lemma_read_encoded_message(addr: Seq<u8>, tag: u8, args: Seq<u8>)
    requires
        addr.len() >= 1,
        addr[0] == 47u8,
        forall|i: int| 0 <= i < addr.len() ==> addr[i] != 0u8,
        valid_utf8(addr),
        spec_scalar(tag) is Ok,
        args.len() == spec_size(spec_scalar(tag)->Ok_0),
    ensures
        spec_first_message(encode_message(addr, tag, args)) == Ok::<SpecMessage, OscError>(SpecMessage {
            addr,
            t: spec_scalar(tag)->Ok_0,
            contents: args,
        }),
{
    let bytes = encode_message(addr, tag, args);
    let n = addr.len() as int;
    let pad = 4 - n % 4;
    let tag_start = n + pad;
    let t = spec_scalar(tag)->Ok_0;
    assert(bytes.len() == tag_start + 4 + args.len());
    assert(bytes[0] == 47u8);
    assert(!(bytes.subrange(0, 7) == bundle_tag())) by {
        if bytes.len() >= 7 && bytes.subrange(0, 7) == bundle_tag() {
            assert(bytes.subrange(0, 7)[0] == bytes[0]);
        }
    }
    assert forall|j: int| 0 <= j < n implies bytes[j] != 0u8 by {
        assert(bytes[j] == addr[j]);
    }
    assert(bytes[n] == 0u8);
    lemma_first_index_of(bytes, 0u8, n);
    assert(bytes.subrange(0, n) =~= addr);
    assert(spec_padded_len(n) == tag_start);
    assert(bytes[tag_start] == 44u8);
    assert(bytes[tag_start + 1] == tag);
    let tail = bytes.subrange(tag_start, bytes.len() as int);
    assert(tail[0] == 44u8);
    assert(tail[1] == tag);
    assert(tail[2] == 0u8);
    assert(tag != 0u8);
    lemma_first_index_of(tail, 0u8, 2);
    assert(bytes.subrange(tag_start + 1, tag_start + 2) =~= seq![tag]);
    assert(tag != 91u8);
    assert(spec_padded_len(2) == 4);
    if spec_size(t) > 0 {
        assert(bytes.subrange(tag_start + 4, tag_start + 4 + spec_size(t)) =~= args);
    } else {
        assert(args =~= Seq::<u8>::empty());
    }
}

/// A bundle yields the first message of its first element, whatever the time
/// tag and whatever follows the element.
pub proof fn lemma_bundle_reads_first_element(time: Seq<u8>, element: Seq<u8>, rest: Seq<u8>)
    requires
        time.len() == 8,
        element.len() < 0x1_0000_0000,
    ensures
        spec_first_message(encode_bundle(time, element, rest)) == spec_first_message(element),
{
    let bytes = encode_bundle(time, element, rest);
    let n = element.len() as int;
    assert(bytes.subrange(0, 7) =~= bundle_tag());
    assert(bytes[16] == (n / 16777216) as u8);
    assert(bytes[17] == ((n / 65536) % 256) as u8);
    assert(bytes[18] == ((n / 256) % 256) as u8);
    assert(bytes[19] == (n % 256) as u8);
    assert(be_u32(bytes[16], bytes[17], bytes[18], bytes[19]) == n) by (nonlinear_arith)
        requires
            0 <= n < 0x1_0000_0000,
            bytes[16] == (n / 16777216) as u8,
            bytes[17] == ((n / 65536) % 256) as u8,
            bytes[18] == ((n / 256) % 256) as u8,
            bytes[19] == (n % 256) as u8,
    {
    }
    assert(bytes.subrange(20, 20 + n) =~= element);
}

} // verus!
