use haptic_core::osc::parse::{first_message, F32Source, MsgType, OscError, RefMessage};

/// The float that a source stands for, as the application converts it.
fn to_f32(src: F32Source) -> f32 {
    match src {
        F32Source::Constant(b) => {
            if b {
                1.0
            } else {
                0.0
            }
        }
        F32Source::Bits(u) => f32::from_bits(u),
        F32Source::Scaled(v) => (v as f32 / 255.0).clamp(0.0, 1.0),
        F32Source::Raw(v) => v as f32,
    }
}

fn bytes_of(v: &[f32]) -> Vec<u8> {
    v.iter().flat_map(|f| f.to_be_bytes()).collect()
}

fn vec3_of(bits: (u32, u32, u32)) -> (f32, f32, f32) {
    (f32::from_bits(bits.0), f32::from_bits(bits.1), f32::from_bits(bits.2))
}

#[test]
fn f32_roundtrip() {
    assert_eq!(to_f32(MsgType::F32.f32_source(&1.5f32.to_be_bytes(), true).unwrap()), 1.5);
}

#[test]
fn bool_consts_as_f32() {
    assert_eq!(to_f32(MsgType::BoolTrue.f32_source(&[], true).unwrap()), 1.0);
    assert_eq!(to_f32(MsgType::BoolFalse.f32_source(&[], true).unwrap()), 0.0);
}

#[test]
fn i32_scaled() {
    assert_eq!(to_f32(MsgType::I32.f32_source(&255i32.to_be_bytes(), true).unwrap()), 1.0);
    assert_eq!(to_f32(MsgType::I32.f32_source(&0i32.to_be_bytes(), true).unwrap()), 0.0);
    let mid = to_f32(MsgType::I32.f32_source(&128i32.to_be_bytes(), true).unwrap());
    assert!((mid - 128.0 / 255.0).abs() < 1e-6);
}

#[test]
fn i32_unscaled_raw() {
    assert_eq!(to_f32(MsgType::I32.f32_source(&7i32.to_be_bytes(), false).unwrap()), 7.0);
}

#[test]
fn f32_short_buffer_errors() {
    assert!(MsgType::F32.f32_source(&[0, 0, 0], true).is_err());
}

#[test]
fn vec3_ok() {
    let b = bytes_of(&[1.0, 2.0, 3.0]);
    assert_eq!(vec3_of(MsgType::ArrayF32X3.vec3_bits(&b).unwrap()), (1.0, 2.0, 3.0));
}

#[test]
fn vec3_x4_reads_first_three() {
    let b = bytes_of(&[1.0, 2.0, 3.0, 4.0]);
    assert_eq!(vec3_of(MsgType::ArrayF32X4.vec3_bits(&b).unwrap()), (1.0, 2.0, 3.0));
}

#[test]
fn vec3_rejects_scalar() {
    assert!(MsgType::F32.vec3_bits(&bytes_of(&[1.0])).is_err());
}

#[test]
fn vec3_short_buffer_errors() {
    assert!(MsgType::ArrayF32X3.vec3_bits(&bytes_of(&[1.0, 2.0])).is_err());
}

#[test]
fn bool_from_f32() {
    assert_eq!(MsgType::F32.parse_bool(&0.7f32.to_be_bytes(), true), Some(true));
    assert_eq!(MsgType::F32.parse_bool(&0.2f32.to_be_bytes(), true), Some(false));
}

#[test]
fn bool_from_i32() {
    assert_eq!(MsgType::I32.parse_bool(&200i32.to_be_bytes(), true), Some(true));
    assert_eq!(MsgType::I32.parse_bool(&100i32.to_be_bytes(), true), Some(false));
    assert_eq!(MsgType::I32.parse_bool(&1i32.to_be_bytes(), false), Some(true));
}

#[test]
fn bool_from_string() {
    assert_eq!(MsgType::String.parse_bool(b"true\0\0\0\0", true), Some(true));
    assert_eq!(MsgType::String.parse_bool(b"TRUE", true), Some(true));
    assert_eq!(MsgType::String.parse_bool(b"false", true), Some(false));
    assert_eq!(MsgType::String.parse_bool(b"nope", true), None);
}

#[test]
fn via_refmessage() {
    let b = 2.5f32.to_be_bytes();
    let m = RefMessage { addr: "/x", t: MsgType::F32, contents: &b };
    assert_eq!(to_f32(m.f32_source().unwrap()), 2.5);
    assert_eq!(m.into_bool(), Some(true));
}

// ---------------------------------------------------------------------------
// Reading packets
// ---------------------------------------------------------------------------

/// An OSC message: the address and the type tag, each padded to four bytes,
/// then the argument.
fn packet(addr: &str, tag: &str, arg: &[u8]) -> Vec<u8> {
    let mut out = addr.as_bytes().to_vec();
    out.push(0);
    while out.len() % 4 != 0 {
        out.push(0);
    }
    out.extend_from_slice(tag.as_bytes());
    out.push(0);
    while out.len() % 4 != 0 {
        out.push(0);
    }
    out.extend_from_slice(arg);
    out
}

#[test]
fn reads_a_float_message() {
    let p = packet("/avatar/parameters/x", ",f", &0.25f32.to_be_bytes());
    let m = first_message(&p).unwrap();
    assert_eq!(m.addr.trim_end_matches('\0'), "/avatar/parameters/x");
    assert_eq!(m.t, MsgType::F32);
    assert_eq!(to_f32(m.f32_source().unwrap()), 0.25);
}

#[test]
fn reads_a_bool_tag() {
    let p = packet("/a", ",T", &[]);
    let m = first_message(&p).unwrap();
    assert_eq!(m.t, MsgType::BoolTrue);
    assert_eq!(m.into_bool(), Some(true));
}

#[test]
fn reads_the_first_bundle_element() {
    let inner = packet("/in", ",i", &7i32.to_be_bytes());
    let mut p = b"#bundle\0".to_vec();
    p.extend_from_slice(&[0u8; 8]);
    p.extend_from_slice(&(inner.len() as u32).to_be_bytes());
    p.extend_from_slice(&inner);
    let m = first_message(&p).unwrap();
    assert_eq!(m.t, MsgType::I32);
    assert_eq!(MsgType::to_i32([0, 0, 0, 7]), 7);
    assert_eq!(to_f32(m.f32_source().unwrap()), 7.0 / 255.0);
}

#[test]
fn rejects_a_short_bundle() {
    let p = b"#bundle\0\0\0".to_vec();
    assert_eq!(first_message(&p).err(), Some(OscError::TruncatedBundleHeader));
}

#[test]
fn reads_float_arrays() {
    let p = packet("/v", ",[fff]", &bytes_of(&[1.0, 2.0, 3.0]));
    let m = first_message(&p).unwrap();
    assert_eq!(m.t, MsgType::ArrayF32X3);
    assert_eq!(vec3_of(m.vec3_bits().unwrap()), (1.0, 2.0, 3.0));
}

#[test]
fn sizes_of_types() {
    assert_eq!(MsgType::F32.size(), 4);
    assert_eq!(MsgType::ArrayF32X6.size(), 24);
    assert_eq!(MsgType::String.size(), 0);
}

#[test]
fn negative_i32_words() {
    assert_eq!(MsgType::to_i32((-5i32).to_be_bytes()), -5);
    assert_eq!(MsgType::to_i32(i32::MIN.to_be_bytes()), i32::MIN);
}

#[test]
fn bool_from_nil_and_short_buffers() {
    assert_eq!(MsgType::Nill.parse_bool(&[], true), None);
    assert_eq!(MsgType::F32.parse_bool(&[1, 2], true), None);
    assert_eq!(MsgType::String.parse_bool(b"  False \0", true), Some(false));
}

#[test]
fn string_is_no_number() {
    assert_eq!(MsgType::String.f32_source(b"1", true), Err(OscError::StringNotNumber));
    assert_eq!(MsgType::Nill.f32_source(b"", true), Err(OscError::NilNotNumber));
    assert_eq!(MsgType::Infinitum.f32_source(b"", true), Err(OscError::InfinitumNotNumber));
}

fn raw(bytes: &[u8]) -> Option<OscError> {
    first_message(bytes).err()
}

#[test]
fn packet_errors_by_kind() {
    let mut b = b"#bundle\0".to_vec();
    b.extend_from_slice(&[0; 8]);
    b.extend_from_slice(&100u32.to_be_bytes());
    assert_eq!(raw(&b), Some(OscError::BundleElementOutOfRange));
    assert_eq!(raw(b"/abc"), Some(OscError::AddressNotTerminated));
    assert_eq!(raw(b"/\xff\0\0,f\0\0\0\0\0\0"), Some(OscError::AddressNotUtf8));
    assert_eq!(raw(&packet("/a", ",f", &[0, 0])), Some(OscError::ArgumentsOutOfRange));
    assert_eq!(raw(b"/a\0\0xf\0\0"), Some(OscError::TagMissingComma));
    assert_eq!(raw(b"/a\0\0,f"), Some(OscError::TagNotTerminated));
    assert_eq!(raw(&packet("/a", ",", &[])), Some(OscError::EmptyTypeTag));
    assert_eq!(raw(&packet("/a", ",ff", &[0; 8])), Some(OscError::MultiArgumentTag));
    assert_eq!(raw(&packet("/a", ",d", &[0; 8])), Some(OscError::UnsupportedType(b'd')));
    assert_eq!(raw(&packet("/a", ",[fi]", &[0; 8])), Some(OscError::UnsupportedArrayElement(b'i')));
    assert_eq!(raw(&packet("/a", ",[ff", &[0; 8])), Some(OscError::ArrayNotClosed));
    assert_eq!(raw(&packet("/a", ",[]", &[])), Some(OscError::EmptyArray));
    assert_eq!(raw(&packet("/a", ",[fffffff]", &[0; 28])), Some(OscError::UnsupportedArrayLength(7)));
}

#[test]
fn one_element_array_is_a_float() {
    let p = packet("/a", ",[f]", &1.0f32.to_be_bytes());
    let m = first_message(&p).ok().unwrap();
    assert_eq!(m.t, MsgType::F32);
    assert_eq!(to_f32(m.f32_source().unwrap()), 1.0);
}
