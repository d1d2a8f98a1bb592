//! The ways in which decoding a telemetry block can fail.

use vstd::prelude::*;

verus! {

/// Every failure is fatal: decoding stops at the first one.
#[derive(Debug, Clone, Copy, PartialEq, Eq, Structural)]
pub enum ParseError {
    /// Opening, seeking or reading the byte source failed.
    IoFailure,
    /// The input is shorter than a fixed-size region it must hold.
    Truncated,
    /// The trailer does not end with the magic signature.
    BadSignature,
    /// The frame right before the trailer is not the index frame.
    UnexpectedFrameType,
    /// The index payload is not a whole number of index entries.
    Misaligned,
    /// A computed offset or size reaches outside the file.
    OutOfBounds,
    /// A GPS payload is not a whole number of GPS records.
    IncompleteRecord,
    /// A hemisphere byte is none of `N`, `S` (latitude) or `E`, `W` (longitude).
    InvalidHemisphereCode,
}

} // verus!
