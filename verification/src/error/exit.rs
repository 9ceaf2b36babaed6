//! Exit codes are a stable contract. A script distinguishes a refusal (the
//! tool worked, the device or input was wrong) from a transport fault (the
//! cable or sim failed) from a decode fault (the bytes were malformed)
//! without reading a word of output.
use vstd::prelude::*;

verus! {

/// Everything the command was asked to do succeeded.
pub const OK: i32 = 0;

/// A boundary refusal: proto, magic, manufacturer, region-bounds or
/// decoder-id mismatch, or a headerless capture. The tool is fine; the device
/// or the input is not what was claimed.
pub const REFUSED: i32 = 2;

/// The transport failed: the cable would not open, a shift errored, the sim
/// faulted. Nothing was concluded about the instrument.
pub const TRANSPORT: i32 = 3;

/// The bytes were read but would not decode: a malformed header, a short
/// region. Distinct from `REFUSED` because the boundary check passed and the
/// payload is the problem.
pub const DECODE: i32 = 4;

/// The command line could not be understood.
pub const USAGE: i32 = 64;

} // verus!
