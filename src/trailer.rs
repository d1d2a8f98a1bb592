//! The trailer at the very end of the file.

use vstd::prelude::*;
use crate::bytes::{le_at, read_i32_le, read_u16_le, read_u32_le, signed32};
use crate::error::ParseError;
use crate::layout::{signature, signature_bytes, TrailerLayout, DESCRIPTOR_SIZE, SIGNATURE_SIZE};

verus! {

/// One entry of the trailer's descriptor table.
#[derive(Debug, Clone, Copy, PartialEq, Eq, Structural)]
pub struct Descriptor {
    pub id: u16,
    pub size: u32,
}

/// A decoded trailer. `metadata_total_size`, the size of the metadata block
/// that ends the file, is the size field of the last descriptor.
#[derive(Debug)]
pub struct Trailer {
    pub version: i32,
    pub signature: Vec<u8>,
    pub descriptors: Vec<Descriptor>,
    pub metadata_total_size: u32,
}

pub ghost struct TrailerView {
    pub version: i32,
    pub signature: Seq<u8>,
    pub descriptors: Seq<Descriptor>,
    pub metadata_total_size: u32,
}

impl View for Trailer {
    type V = TrailerView;

    open spec fn view(&self) -> TrailerView {
        TrailerView {
            version: self.version,
            signature: self.signature@,
            descriptors: self.descriptors@,
            metadata_total_size: self.metadata_total_size,
        }
    }
}

/// The descriptor that the six bytes of `s` at `at` encode: a little-endian
/// `u16` id and a little-endian `u32` size.
pub open spec fn descriptor_at(s: Seq<u8>, at: int) -> Descriptor {
    Descriptor { id: le_at(s, at, 2) as u16, size: le_at(s, at + 2, 4) as u32 }
}

/// Where the trailer of `layout` starts in `s`.
pub open spec fn trailer_start(layout: TrailerLayout, s: Seq<u8>) -> int {
    s.len() - layout.spec_trailer_size()
}

/// Where the version number starts in `s`: after the descriptor table.
pub open spec fn version_at(layout: TrailerLayout, s: Seq<u8>) -> int {
    trailer_start(layout, s) + 6 * layout.spec_descriptor_count()
}

/// The outcome of decoding the trailer of `layout` at the end of `s`.
pub open spec fn spec_trailer(layout: TrailerLayout, s: Seq<u8>) -> Result<TrailerView, ParseError> {
    let b = trailer_start(layout, s);
    let c = layout.spec_descriptor_count();
    if s.len() < layout.spec_trailer_size() {
        Err(ParseError::Truncated)
    } else if s.subrange(version_at(layout, s) + 4, s.len() as int) != signature() {
        Err(ParseError::BadSignature)
    } else {
        Ok(
            TrailerView {
                version: signed32(le_at(s, version_at(layout, s), 4)) as i32,
                signature: signature(),
                descriptors: Seq::new(c, |i: int| descriptor_at(s, b + 6 * i)),
                metadata_total_size: descriptor_at(s, b + 6 * (c - 1)).size,
            },
        )
    }
}

/// The outcome of decoding one descriptor at `at`.
pub open spec fn spec_descriptor(s: Seq<u8>, at: int) -> Result<Descriptor, ParseError> {
    if at + 6 > s.len() {
        Err(ParseError::Truncated)
    } else {
        Ok(descriptor_at(s, at))
    }
}

/// Decodes the descriptor at `start`; fails with `Truncated` when fewer than
/// six bytes are left there.
pub fn parse_trailer_metadata(bytes: &[u8], start: usize) -> (r: Result<Descriptor, ParseError>)
    ensures
        r == spec_descriptor(bytes@, start as int),
        start + 6 > bytes@.len() ==> r == Err::<Descriptor, ParseError>(ParseError::Truncated),
{
    let len = bytes.len();
    if start > len || len - start < DESCRIPTOR_SIZE {
        return Err(ParseError::Truncated);
    }
    Ok(Descriptor { id: read_u16_le(bytes, start), size: read_u32_le(bytes, start + 2) })
}

/// Decodes the trailer of `layout` from the last bytes of `bytes`: the
/// descriptor table, the version number, then the signature, which must
/// match exactly.
pub fn header_parser(layout: TrailerLayout, bytes: &[u8]) -> (r: Result<Trailer, ParseError>)
    ensures
        match r {
            Ok(t) => spec_trailer(layout, bytes@) == Ok::<TrailerView, ParseError>(t@),
            Err(e) => spec_trailer(layout, bytes@) == Err::<TrailerView, ParseError>(e),
        },
{
    let len = bytes.len();
    let size = layout.trailer_size();
    if len < size {
        return Err(ParseError::Truncated);
    }
    let base = len - size;
    let count = layout.descriptor_count();
    let version_start = base + count * DESCRIPTOR_SIZE;
    let sig_start = version_start + 4;
    let expected = signature_bytes();
    let mut k: usize = 0;
    while k < SIGNATURE_SIZE
        invariant
            len == bytes@.len(),
            sig_start + 32 == len,
            size == layout.spec_trailer_size(),
            size <= len,
            version_at(layout, bytes@) + 4 == sig_start,
            expected@ == signature(),
            k <= 32,
            bytes@.subrange(sig_start as int, sig_start + k) =~= signature().subrange(0, k as int),
        decreases 32 - k,
    {
        if bytes[sig_start + k] != expected[k] {
            proof {
                let found = bytes@.subrange(sig_start as int, len as int);
                assert(found[k as int] != signature()[k as int]);
                assert(found != signature());
            }
            return Err(ParseError::BadSignature);
        }
        k = k + 1;
    }
    assert(bytes@.subrange(sig_start as int, len as int) =~= signature());
    let mut descriptors: Vec<Descriptor> = Vec::new();
    let mut i: usize = 0;
    while i < count
        invariant
            len == bytes@.len(),
            base + 6 * count + 36 == len,
            i <= count,
            descriptors@ =~= Seq::new(i as nat, |j: int| descriptor_at(bytes@, base + 6 * j)),
        decreases count - i,
    {
        match parse_trailer_metadata(bytes, base + i * DESCRIPTOR_SIZE) {
            Ok(d) => descriptors.push(d),
            Err(e) => {
                return Err(e);
            },
        }
        i = i + 1;
    }
    let last = descriptors[count - 1];
    let version = read_i32_le(bytes, version_start);
    Ok(
        Trailer {
            version,
            signature: expected,
            descriptors,
            metadata_total_size: last.size,
        },
    )
}

} // verus!
