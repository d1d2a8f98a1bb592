//! The index frame: a table locating every other frame.

use vstd::prelude::*;
use crate::bytes::{byte_to_i8, le_at, read_u32_le, signed8};
use crate::error::ParseError;
use crate::frame_type::{frame_type_of, FrameType};
use crate::layout::INDEX_ENTRY_SIZE;

verus! {

/// One frame of the metadata block; `frame_offset` counts from the metadata
/// anchor, not from the start of the file.
#[derive(Debug, Clone, Copy, PartialEq, Eq, Structural)]
pub struct IndexEntry {
    pub frame_version: u8,
    pub frame_type: FrameType,
    pub frame_size: u32,
    pub frame_offset: u32,
}

/// The entry that the ten bytes of `s` at `at` encode: a signed type code, a
/// version byte, then size and offset as little-endian `u32`s.
pub open spec fn entry_at(s: Seq<u8>, at: int) -> IndexEntry {
    IndexEntry {
        frame_version: s[at + 1],
        frame_type: frame_type_of(signed8(s[at]) as i8),
        frame_size: le_at(s, at + 2, 4) as u32,
        frame_offset: le_at(s, at + 6, 4) as u32,
    }
}

/// The outcome of decoding an index payload.
pub open spec fn spec_index_frame(s: Seq<u8>) -> Result<Seq<IndexEntry>, ParseError> {
    if s.len() % 10 != 0 {
        Err(ParseError::Misaligned)
    } else {
        Ok(Seq::new(s.len() / 10, |i: int| entry_at(s, 10 * i)))
    }
}

/// The outcome of decoding one entry at `at`: fewer than ten bytes there are
/// a partial entry, which is never accepted.
pub open spec fn spec_index_entry(s: Seq<u8>, at: int) -> Result<IndexEntry, ParseError> {
    if at + 10 > s.len() {
        Err(ParseError::Misaligned)
    } else {
        Ok(entry_at(s, at))
    }
}

/// Decodes the entry at `start`; fails with `Misaligned` when fewer than ten
/// bytes are left there.
pub fn parse_index(bytes: &[u8], start: usize) -> (r: Result<IndexEntry, ParseError>)
    ensures
        r == spec_index_entry(bytes@, start as int),
        start + 10 > bytes@.len() ==> r == Err::<IndexEntry, ParseError>(ParseError::Misaligned),
{
    let len = bytes.len();
    if start > len || len - start < INDEX_ENTRY_SIZE {
        return Err(ParseError::Misaligned);
    }
    let code = byte_to_i8(bytes[start]);
    Ok(
        IndexEntry {
            frame_version: bytes[start + 1],
            frame_type: FrameType::from_code(code),
            frame_size: read_u32_le(bytes, start + 2),
            frame_offset: read_u32_le(bytes, start + 6),
        },
    )
}

/// Decodes an index payload into its entries, in order. The payload must be
/// a whole number of entries.
pub fn parse_index_frame(payload: &[u8]) -> (r: Result<Vec<IndexEntry>, ParseError>)
    ensures
        match r {
            Ok(v) => spec_index_frame(payload@) == Ok::<Seq<IndexEntry>, ParseError>(v@),
            Err(e) => spec_index_frame(payload@) == Err::<Seq<IndexEntry>, ParseError>(e),
        },
{
    let len = payload.len();
    if len % INDEX_ENTRY_SIZE != 0 {
        return Err(ParseError::Misaligned);
    }
    let n = len / INDEX_ENTRY_SIZE;
    let mut entries: Vec<IndexEntry> = Vec::new();
    let mut i: usize = 0;
    while i < n
        invariant
            len == payload@.len(),
            n == len / 10,
            len % 10 == 0,
            i <= n,
            entries@ =~= Seq::new(i as nat, |k: int| entry_at(payload@, 10 * k)),
        decreases n - i,
    {
        proof {
            assert(10 * i + 10 <= len) by (nonlinear_arith)
                requires
                    i < n,
                    n == len / 10,
                    len % 10 == 0,
            ;
        }
        match parse_index(payload, i * INDEX_ENTRY_SIZE) {
            Ok(entry) => entries.push(entry),
            Err(e) => {
                return Err(e);
            },
        }
        i = i + 1;
    }
    Ok(entries)
}

/// An index payload whose length is not a whole number of entries fails
/// with `Misaligned`.
pub proof fn lemma_misaligned_index_rejected(payload: Seq<u8>)
    requires
        payload.len() % 10 != 0,
    ensures
        spec_index_frame(payload) == Err::<Seq<IndexEntry>, ParseError>(ParseError::Misaligned),
{
}

} // verus!
