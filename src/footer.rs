//! Frame footers: the six bytes that follow each frame's payload.

use vstd::prelude::*;
use crate::bytes::{byte_to_i8, le_at, read_i32_le, signed32, signed8};
use crate::error::ParseError;
use crate::frame_type::{frame_type_of, FrameType};
use crate::layout::FOOTER_SIZE;

verus! {

/// Describes the payload right before it; `frame_size` leaves the footer out
/// and is not checked here.
#[derive(Debug, Clone, Copy, PartialEq, Eq, Structural)]
pub struct FrameFooter {
    pub frame_version: u8,
    pub frame_type: FrameType,
    pub frame_size: i32,
}

/// The footer that the six bytes of `s` at `at` encode: a version byte, a
/// signed type code and a little-endian signed size.
pub open spec fn footer_at(s: Seq<u8>, at: int) -> FrameFooter {
    FrameFooter {
        frame_version: s[at],
        frame_type: frame_type_of(signed8(s[at + 1]) as i8),
        frame_size: signed32(le_at(s, at + 2, 4)) as i32,
    }
}

/// The outcome of decoding a footer at `at`.
pub open spec fn spec_footer(s: Seq<u8>, at: int) -> Result<FrameFooter, ParseError> {
    if at + 6 > s.len() {
        Err(ParseError::Truncated)
    } else {
        Ok(footer_at(s, at))
    }
}

/// Decodes the footer at `start`; fails only when fewer than six bytes are
/// left there.
pub fn frame_trailer(bytes: &[u8], start: usize) -> (r: Result<FrameFooter, ParseError>)
    ensures
        r == spec_footer(bytes@, start as int),
{
    let len = bytes.len();
    if start > len || len - start < FOOTER_SIZE {
        return Err(ParseError::Truncated);
    }
    let code = byte_to_i8(bytes[start + 1]);
    let size = read_i32_le(bytes, start + 2);
    Ok(
        FrameFooter {
            frame_version: bytes[start],
            frame_type: FrameType::from_code(code),
            frame_size: size,
        },
    )
}

} // verus!
