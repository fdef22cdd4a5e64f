use haptic_core::api::cam_schema::{CamConfig, CamField, CamType};
use haptic_core::vrc::cam::algo::Decoder;
use haptic_core::vrc::cam::center::{decode_value, DecodedValue, Kind, ReadError};
use haptic_core::vrc::cam::ffi::DrdStatusCode;
use haptic_core::vrc::cam::grid::DetectError;
use haptic_core::vrc::cam::{poll_period_ms, spout_decoded, spout_poll, spout_start, SpoutAction, SpoutPoll, SpoutState, State};

#[test]
fn clamped_floats_keep_the_top_bits() {
    assert_eq!(decode_value(0xff, 8, Kind::ClampedFloat), DecodedValue::Fraction { code: 255, mask: 255 });
    assert_eq!(decode_value(0x80, 8, Kind::ClampedFloat), DecodedValue::Fraction { code: 128, mask: 255 });
    // A 32 bit field keeps its top 24 bits.
    assert_eq!(
        decode_value(0xffff_ff00, 32, Kind::ClampedFloat),
        DecodedValue::Fraction { code: 0xff_ffff, mask: 0xff_ffff }
    );
    assert_eq!(decode_value(5, 0, Kind::ClampedFloat), DecodedValue::Fraction { code: 5, mask: 0 });
}

#[test]
fn ints_are_sign_extended() {
    assert_eq!(decode_value(0xff, 8, Kind::Int), DecodedValue::Int(-1));
    assert_eq!(decode_value(0x7f, 8, Kind::Int), DecodedValue::Int(127));
    assert_eq!(decode_value(0x80, 8, Kind::Int), DecodedValue::Int(-128));
    assert_eq!(decode_value(0xffff_ffff, 32, Kind::Int), DecodedValue::Int(-1));
    assert_eq!(decode_value(0x1ff, 8, Kind::Int), DecodedValue::Int(-1));
}

#[test]
fn uints_and_bools_decode() {
    assert_eq!(decode_value(300, 9, Kind::UInt), DecodedValue::Uint(300));
    assert_eq!(decode_value(3, 1, Kind::Bool), DecodedValue::Bool(true));
    assert_eq!(decode_value(2, 1, Kind::Bool), DecodedValue::Bool(false));
}

#[test]
fn read_error_messages() {
    assert_eq!(
        ReadError::OutTooShort { need: 4, got: 2 }.message(),
        "out holds 2 values, the schema needs 4"
    );
    assert_eq!(ReadError::BandTooSmall.message(), "the sample points fall outside the band");
    assert_eq!(
        ReadError::NoContrast { high: 10, low: 40 }.message(),
        "calibration gap is -30 (high 10, low 40)"
    );
}

#[test]
fn detect_error_messages() {
    assert_eq!(DetectError::BadFrame.message(), "The frame buffer does not match the frame size.");
    assert_eq!(
        DetectError::Dark { peak: 12 }.message(),
        "The frame is dark (peak luma 12). Turn the shader on and check that the sender shows the code."
    );
    assert_eq!(DetectError::NoBrightPixels.message(), "The frame holds no bright pixels.");
    assert_eq!(
        DetectError::ShortMarkerRun { run: 2 }.message(),
        "The marker run is 2 pixels. The detector needs at least 3."
    );
    assert_eq!(
        DetectError::NoBlockSize { span_x: 100, span_y: 50, run: 7 }.message(),
        "No block size fits a 100x50 pixel code with a 7 pixel marker run."
    );
}

#[test]
fn status_codes_of_the_native_library() {
    assert_eq!(DrdStatusCode::from_raw(0), DrdStatusCode::Success);
    assert_eq!(DrdStatusCode::from_raw(1), DrdStatusCode::Waiting);
    assert_eq!(DrdStatusCode::from_raw(2), DrdStatusCode::Skipped);
    assert_eq!(DrdStatusCode::from_raw(-3), DrdStatusCode::ClosedHandle);
    assert_eq!(DrdStatusCode::from_raw(42), DrdStatusCode::Unknown(42));
    assert!(!DrdStatusCode::Skipped.is_error());
    assert!(DrdStatusCode::InvalidArgument.is_error());
    assert!(!DrdStatusCode::InvalidArgument.is_fatal());
    assert!(DrdStatusCode::BadConfig.is_fatal());
    assert!(DrdStatusCode::Unknown(9).is_error());
    assert!(!DrdStatusCode::Unknown(9).is_fatal());
}

#[test]
fn receiver_loop_states() {
    let s = spout_start();
    assert_eq!(s, SpoutState { state: State::Cold, seen_sender: false, active: false });
    assert_eq!(poll_period_ms(State::Cold), 1000);
    assert_eq!(poll_period_ms(State::Hot), 2);
    let (s, a) = spout_poll(s, SpoutPoll::NewFrame);
    assert_eq!(a, SpoutAction::Decode);
    assert!(s.seen_sender);
    let (s, publish) = spout_decoded(s, true);
    assert!(publish);
    assert_eq!(s.state, State::Hot);
    assert!(s.active);
    let (s2, a) = spout_poll(s, SpoutPoll::Updated { width: 640, height: 480 });
    assert_eq!(a, SpoutAction::Resize { width: 640, height: 480 });
    assert_eq!(s2.state, State::Hot);
    let (s3, a) = spout_poll(s2, SpoutPoll::Updated { width: 0, height: 480 });
    assert_eq!(a, SpoutAction::Wait);
    assert_eq!(s3, SpoutState { state: State::Cold, seen_sender: true, active: false });
    let (s4, _) = spout_poll(s, SpoutPoll::NotConnected);
    assert_eq!(s4.state, State::Cold);
    assert!(s4.active);
    let (s5, a) = spout_poll(s, SpoutPoll::Failed);
    assert_eq!(a, SpoutAction::Wait);
    assert!(!s5.active);
    let (s6, publish) = spout_decoded(s5, false);
    assert!(!publish);
    assert_eq!(s6, s5);
}

fn schema() -> CamConfig {
    CamConfig {
        id: "c".to_string(),
        version: 1,
        shader: "s".to_string(),
        total_bits: 0,
        fields: vec![CamField { osc: "a".to_string(), kind: CamType::Uint, bits: 8 }],
    }
}

#[test]
fn a_dark_frame_yields_no_values() {
    let mut d = Decoder::new(schema());
    assert_eq!((d.w, d.h), (0, 0));
    let mut out = [DecodedValue::Bool(false); 1];
    assert!(!d.process_frame(&mut out));
    d.resize(64, 32);
    assert_eq!(d.img.0.len(), 64 * 32 * 3);
    assert!(matches!(d.detect_grid(8), Err(DetectError::Dark { peak: 0 })));
    assert!(!d.process_frame(&mut out));
    assert_eq!(out, [DecodedValue::Bool(false); 1]);
    assert!(d.reader().is_none());
}

const BLOCK: usize = 6;
const COLS: usize = 17;
const ROWS: usize = 11;
const MARGIN: usize = 5;

fn paint_block(d: &mut Decoder, bx: usize, by: usize) {
    let w = d.w as usize;
    for y in 0..BLOCK {
        for x in 0..BLOCK {
            let px = MARGIN + bx * BLOCK + x;
            let py = MARGIN + by * BLOCK + y;
            let at = (py * w + px) * 3;
            d.img.0[at] = 255;
            d.img.0[at + 1] = 255;
            d.img.0[at + 2] = 255;
        }
    }
}

fn paint_marker(d: &mut Decoder, bx: usize, by: usize) {
    for dy in 0..3 {
        for dx in 0..3 {
            if !(dx == 1 && dy == 1) {
                paint_block(d, bx + dx, by + dy);
            }
        }
    }
}

/// Paints a code with three markers, the two calibration strips, and the
/// given bits in pairs of blocks: a bright block before a dark one is a one.
fn paint_code(d: &mut Decoder, bits: &[bool]) {
    paint_marker(d, 0, 0);
    paint_marker(d, COLS - 3, 0);
    paint_marker(d, 0, ROWS - 3);
    for i in 0..6 {
        if i % 2 == 1 {
            paint_block(d, 1, 3 + i);
            paint_block(d, 3 + i, 1);
        }
    }
    let pairs = (COLS - 8) / 2;
    for (k, &one) in bits.iter().enumerate() {
        let row = 4 + k / pairs;
        let col = 4 + 2 * (k % pairs);
        if one {
            paint_block(d, col, row);
        } else {
            paint_block(d, col + 1, row);
        }
    }
}

#[test]
fn a_painted_code_is_detected_and_read() {
    let mut d = Decoder::new(schema());
    d.resize((COLS * BLOCK + 2 * MARGIN) as u32, (ROWS * BLOCK + 2 * MARGIN) as u32);
    let raw: u32 = 0xA6;
    let bits: Vec<bool> = (0..8).map(|i| raw >> i & 1 == 1).collect();
    paint_code(&mut d, &bits);
    let layout = d.detect_grid(8).ok().unwrap();
    assert_eq!(
        (layout.origin_x, layout.origin_y, layout.block_px, layout.cols, layout.rows, layout.flip_x, layout.flip_y),
        (MARGIN as i32, MARGIN as i32, BLOCK as i32, COLS as i32, ROWS as i32, false, false)
    );
    let mut out = [DecodedValue::Bool(false); 1];
    assert!(d.process_frame(&mut out));
    assert_eq!(out[0], DecodedValue::Fraction { code: 0xA6, mask: 255 });
    assert!(d.reader().is_some());
    // The next frame reuses the layout.
    let mut again = [DecodedValue::Bool(false); 1];
    assert!(d.process_frame(&mut again));
    assert_eq!(again[0], out[0]);
}

#[test]
fn detection_errors_by_kind() {
    let mut d = Decoder::new(schema());
    assert!(matches!(d.detect_grid(8), Err(DetectError::BadFrame)));
    d.resize(40, 40);
    // One bright pixel on a sampled row: the rows beside it hold no run.
    let at = (9 * 40 + 10) * 3;
    d.img.0[at..at + 3].copy_from_slice(&[255, 255, 255]);
    assert!(matches!(d.detect_grid(8), Err(DetectError::ShortMarkerRun { run: 0 })));
    // A plain bright square: the runs are long, but no block size fits.
    d.resize(40, 40);
    for y in 10..20 {
        for x in 10..20 {
            let at = (y * 40 + x) * 3;
            d.img.0[at..at + 3].copy_from_slice(&[255, 255, 255]);
        }
    }
    assert!(matches!(d.detect_grid(8), Err(DetectError::NoBlockSize { span_x: 10, span_y: 10, run: 10 })));
}
