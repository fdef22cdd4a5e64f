//! The status codes and plain records of the native decoder ABI, version 1.
//!
//! Loading the library and calling into it is the application's part; the
//! library holds the values that the calls exchange.
use vstd::prelude::*;

verus! {

/// The ABI version that this module reads.
pub const DRD_ABI_VERSION: u32 = 1;

// Field kind codes. `DrdField::kind` shares them.
pub const DRD_KIND_FLOAT: u32 = 0;
pub const DRD_KIND_INT: u32 = 1;
pub const DRD_KIND_UINT: u32 = 2;
pub const DRD_KIND_BOOL: u32 = 3;

/// Config flag bit 0. The library calls back only on a bit change.
pub const DRD_CONFIG_ON_CHANGE: u32 = 1;

/// Frame flag bit 0. The frame carries an ID string, not field data.
pub const DRD_FRAME_ID: u32 = 1;

/// Frame flag bit 1. The bits match the last frame.
pub const DRD_FRAME_SAME: u32 = 2;

/// The status code that every entry point returns.
#[derive(Copy, Clone, Debug, PartialEq, Eq)]
pub enum DrdStatusCode {
    /// The callback ran.
    Success,
    /// No sender, no grid, or no contrast. Sleep and call again.
    Waiting,
    /// The frame decoded. A gate dropped it.
    Skipped,
    /// A pointer or a size is out of range.
    InvalidArgument,
    /// The config failed the schema rules.
    BadConfig,
    /// The handle is dead.
    ClosedHandle,
    /// Direct3D or the sender failed.
    DeviceError,
    /// The library caught an exception.
    Internal,
    /// The library returned a code that this build does not know.
    Unknown(i32),
}

/// The status that a raw code stands for.
pub open spec fn spec_from_raw(code: i32) -> DrdStatusCode {
    if code == 0 {
        DrdStatusCode::Success
    } else if code == 1 {
        DrdStatusCode::Waiting
    } else if code == 2 {
        DrdStatusCode::Skipped
    } else if code == -1 {
        DrdStatusCode::InvalidArgument
    } else if code == -2 {
        DrdStatusCode::BadConfig
    } else if code == -3 {
        DrdStatusCode::ClosedHandle
    } else if code == -4 {
        DrdStatusCode::DeviceError
    } else if code == -5 {
        DrdStatusCode::Internal
    } else {
        DrdStatusCode::Unknown(code)
    }
}

/// The raw code of a status.
pub open spec fn spec_raw(s: DrdStatusCode) -> int {
    match s {
        DrdStatusCode::Success => 0,
        DrdStatusCode::Waiting => 1,
        DrdStatusCode::Skipped => 2,
        DrdStatusCode::InvalidArgument => -1,
        DrdStatusCode::BadConfig => -2,
        DrdStatusCode::ClosedHandle => -3,
        DrdStatusCode::DeviceError => -4,
        DrdStatusCode::Internal => -5,
        DrdStatusCode::Unknown(c) => c as int,
    }
}

impl DrdStatusCode {
    pub fn from_raw(code: i32) -> (res: Self)
        ensures
            res == spec_from_raw(code),
    {
        match code {
            0 => DrdStatusCode::Success,
            1 => DrdStatusCode::Waiting,
            2 => DrdStatusCode::Skipped,
            -1 => DrdStatusCode::InvalidArgument,
            -2 => DrdStatusCode::BadConfig,
            -3 => DrdStatusCode::ClosedHandle,
            -4 => DrdStatusCode::DeviceError,
            -5 => DrdStatusCode::Internal,
            other => DrdStatusCode::Unknown(other),
        }
    }

    /// True when the code means a failure, not a frame outcome.
    pub fn is_error(self) -> (res: bool)
        ensures
            res == !(self is Success || self is Waiting || self is Skipped),
    {
        !matches!(self, DrdStatusCode::Success | DrdStatusCode::Waiting | DrdStatusCode::Skipped)
    }

    /// True when the handle cannot serve more frames.
    pub fn is_fatal(self) -> (res: bool)
        ensures
            res == (self is ClosedHandle || self is DeviceError || self is Internal || self is BadConfig),
    {
        matches!(
            self,
            DrdStatusCode::ClosedHandle | DrdStatusCode::DeviceError | DrdStatusCode::Internal
                | DrdStatusCode::BadConfig
        )
    }
}

/// Reading a raw code gives the code back: every code maps to a status that
/// carries it.
pub proof fn lemma_from_raw_keeps_code(code: i32)
    ensures
        spec_raw(spec_from_raw(code)) == code,
{
}

/// A fatal status is an error.
pub proof fn lemma_fatal_is_error(s: DrdStatusCode)
    ensures
        (s is ClosedHandle || s is DeviceError || s is Internal || s is BadConfig) ==> !(s is Success || s is Waiting
            || s is Skipped),
{
}

/// One field of the packed code. The order gives the bit offsets.
#[derive(Copy, Clone, Debug, PartialEq, Eq)]
pub struct DrdField {
    pub bits: u32,
    pub kind: u32,
}

/// The state of one handle. The library reports a flag as an `int`, not a
/// bool, because the ABI carries blittable types only.
#[derive(Copy, Clone, Debug)]
pub struct DrdStatus {
    /// Non zero when the sender exists.
    pub connected: i32,
    /// Non zero when the detector found the grid.
    pub detected: i32,
    pub frame_width: i32,
    pub frame_height: i32,
    pub band_x: i32,
    pub band_y: i32,
    pub band_width: i32,
    pub band_height: i32,
    /// The side of one cell in pixels.
    pub block_px: i32,
    pub cols: i32,
    pub rows: i32,
    pub flip_x: i32,
    pub flip_y: i32,
    pub reserved: u32,
    pub frames: u64,
}

impl Default for DrdStatus {
    fn default() -> (res: Self)
        ensures
            res == (DrdStatus {
                connected: 0,
                detected: 0,
                frame_width: 0,
                frame_height: 0,
                band_x: 0,
                band_y: 0,
                band_width: 0,
                band_height: 0,
                block_px: 0,
                cols: 0,
                rows: 0,
                flip_x: 0,
                flip_y: 0,
                reserved: 0,
                frames: 0,
            }),
    {
        DrdStatus {
            connected: 0,
            detected: 0,
            frame_width: 0,
            frame_height: 0,
            band_x: 0,
            band_y: 0,
            band_width: 0,
            band_height: 0,
            block_px: 0,
            cols: 0,
            rows: 0,
            flip_x: 0,
            flip_y: 0,
            reserved: 0,
            frames: 0,
        }
    }
}

} // verus!
