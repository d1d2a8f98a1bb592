//! From the trailer to the frames: the anchor, the backward walk to the
//! index frame, and the absolute byte range of every indexed frame.

use vstd::prelude::*;
use vstd::slice::slice_subrange;
use crate::error::ParseError;
use crate::footer::{footer_at, frame_trailer, FrameFooter};
use crate::frame_type::FrameType;
use crate::gps::{parse_gps_frame, spec_gps_frame, GpsRecord};
use crate::index::{parse_index_frame, spec_index_frame, IndexEntry};
use crate::layout::{signature, GpsLayout, TrailerLayout, FOOTER_SIZE, INDEX_FOOTER_END};
use crate::trailer::{header_parser, spec_trailer, TrailerView};

verus! {

/// A frame placed in the file: its payload is the `size` bytes at `offset`.
#[derive(Debug, Clone, Copy, PartialEq, Eq, Structural)]
pub struct ResolvedFrame {
    pub frame_type: FrameType,
    pub frame_version: u8,
    pub offset: u64,
    pub size: u32,
}

/// The outcome of placing the metadata block, `total` bytes long, at the end
/// of a file of `file_len` bytes: the block must start inside the file.
pub open spec fn spec_anchor(file_len: nat, total: u32) -> Result<u64, ParseError> {
    if total == 0 || total > file_len {
        Err(ParseError::OutOfBounds)
    } else {
        Ok((file_len - total) as u64)
    }
}

/// Computes the metadata anchor: the file length less the metadata size.
pub fn metadata_anchor(file_len: u64, metadata_total_size: u32) -> (r: Result<u64, ParseError>)
    ensures
        r == spec_anchor(file_len as nat, metadata_total_size),
{
    if metadata_total_size == 0 || metadata_total_size as u64 > file_len {
        Err(ParseError::OutOfBounds)
    } else {
        Ok(file_len - metadata_total_size as u64)
    }
}

/// The outcome of locating the index frame's footer in a file of `file_len`
/// bytes.
pub open spec fn spec_index_footer_start(file_len: nat) -> Result<u64, ParseError> {
    if file_len < 78 {
        Err(ParseError::Truncated)
    } else {
        Ok((file_len - 78) as u64)
    }
}

/// Where the index frame's footer starts: 72 bytes before the end of the
/// file, and six bytes long.
pub fn index_footer_start(file_len: u64) -> (r: Result<u64, ParseError>)
    ensures
        r == spec_index_footer_start(file_len as nat),
{
    if file_len < (INDEX_FOOTER_END + FOOTER_SIZE) as u64 {
        Err(ParseError::Truncated)
    } else {
        Ok(file_len - (INDEX_FOOTER_END + FOOTER_SIZE) as u64)
    }
}

/// The outcome of stepping back from the footer at `footer_start` over its
/// payload: the footer must be the index frame's, and its payload must fit
/// before it.
pub open spec fn spec_index_payload_start(footer_start: u64, footer: FrameFooter) -> Result<
    u64,
    ParseError,
> {
    if footer.frame_type != FrameType::Index {
        Err(ParseError::UnexpectedFrameType)
    } else if footer.frame_size < 0 || footer.frame_size > footer_start {
        Err(ParseError::OutOfBounds)
    } else {
        Ok((footer_start - footer.frame_size) as u64)
    }
}

/// Where the index frame's payload starts, given its footer.
pub fn index_payload_start(footer_start: u64, footer: &FrameFooter) -> (r: Result<
    u64,
    ParseError,
>)
    ensures
        r == spec_index_payload_start(footer_start, *footer),
{
    if !matches!(footer.frame_type, FrameType::Index) {
        return Err(ParseError::UnexpectedFrameType);
    }
    if footer.frame_size < 0 || footer.frame_size as u64 > footer_start {
        return Err(ParseError::OutOfBounds);
    }
    Ok(footer_start - footer.frame_size as u64)
}

/// Whether the frame of `entry`, placed from `anchor`, ends inside the file.
pub open spec fn entry_in_bounds(file_len: nat, anchor: u64, entry: IndexEntry) -> bool {
    anchor + entry.frame_offset + entry.frame_size <= file_len
}

/// The frame of `entry` placed from `anchor`.
pub open spec fn placed(anchor: u64, entry: IndexEntry) -> ResolvedFrame {
    ResolvedFrame {
        frame_type: entry.frame_type,
        frame_version: entry.frame_version,
        offset: (anchor + entry.frame_offset) as u64,
        size: entry.frame_size,
    }
}

/// The outcome of placing every entry: all of them must end inside the file.
pub open spec fn spec_resolve(file_len: nat, anchor: u64, entries: Seq<IndexEntry>) -> Result<
    Seq<ResolvedFrame>,
    ParseError,
> {
    if exists|i: int| 0 <= i < entries.len() && !entry_in_bounds(file_len, anchor, #[trigger] entries[i]) {
        Err(ParseError::OutOfBounds)
    } else {
        Ok(entries.map_values(|e: IndexEntry| placed(anchor, e)))
    }
}

/// Places every index entry in the file, in order, checking that each one
/// ends inside it.
pub fn resolve_frames(file_len: u64, anchor: u64, entries: &Vec<IndexEntry>) -> (r: Result<
    Vec<ResolvedFrame>,
    ParseError,
>)
    ensures
        match r {
            Ok(v) => spec_resolve(file_len as nat, anchor, entries@) == Ok::<
                Seq<ResolvedFrame>,
                ParseError,
            >(v@),
            Err(e) => spec_resolve(file_len as nat, anchor, entries@) == Err::<
                Seq<ResolvedFrame>,
                ParseError,
            >(e),
        },
{
    let mut frames: Vec<ResolvedFrame> = Vec::new();
    let mut i: usize = 0;
    while i < entries.len()
        invariant
            i <= entries@.len(),
            forall|k: int| 0 <= k < i ==> entry_in_bounds(file_len as nat, anchor, #[trigger] entries@[k]),
            frames@ =~= entries@.subrange(0, i as int).map_values(|e: IndexEntry| placed(anchor, e)),
        decreases entries@.len() - i,
    {
        let entry = entries[i];
        if entry.frame_offset as u64 > file_len || anchor > file_len - entry.frame_offset as u64
            || entry.frame_size as u64 > file_len - entry.frame_offset as u64 - anchor {
            assert(!entry_in_bounds(file_len as nat, anchor, entries@[i as int]));
            return Err(ParseError::OutOfBounds);
        }
        let offset = anchor + entry.frame_offset as u64;
        frames.push(
            ResolvedFrame {
                frame_type: entry.frame_type,
                frame_version: entry.frame_version,
                offset,
                size: entry.frame_size,
            },
        );
        i = i + 1;
    }
    assert(entries@.subrange(0, entries@.len() as int) =~= entries@);
    Ok(frames)
}

/// The outcome of decoding, in order, the GPS frames among `frames` from
/// `file`; frames of other types are skipped.
pub open spec fn spec_gps_of_frames(layout: GpsLayout, file: Seq<u8>, frames: Seq<ResolvedFrame>) -> Result<
    Seq<GpsRecord>,
    ParseError,
>
    decreases frames.len(),
{
    if frames.len() == 0 {
        Ok(Seq::empty())
    } else {
        let f = frames.last();
        match spec_gps_of_frames(layout, file, frames.drop_last()) {
            Err(e) => Err(e),
            Ok(done) => if f.frame_type != FrameType::Gps {
                Ok(done)
            } else if f.offset + f.size > file.len() {
                Err(ParseError::OutOfBounds)
            } else {
                match spec_gps_frame(layout, file.subrange(f.offset as int, f.offset + f.size)) {
                    Err(e) => Err(e),
                    Ok(more) => Ok(done + more),
                }
            },
        }
    }
}

/// A failure on a prefix of the frames is the failure of the whole walk.
proof fn lemma_failure_persists(layout: GpsLayout, file: Seq<u8>, frames: Seq<ResolvedFrame>, j: int)
    requires
        0 <= j <= frames.len(),
        spec_gps_of_frames(layout, file, frames.subrange(0, j)) is Err,
    ensures
        spec_gps_of_frames(layout, file, frames) == spec_gps_of_frames(
            layout,
            file,
            frames.subrange(0, j),
        ),
    decreases frames.len(),
{
    if j == frames.len() {
        assert(frames.subrange(0, j) =~= frames);
    } else {
        let shorter = frames.drop_last();
        assert(shorter.subrange(0, j) =~= frames.subrange(0, j));
        lemma_failure_persists(layout, file, shorter, j);
    }
}

/// Decodes the GPS frames among `frames` from `file`, in order, and skips
/// the others.
pub fn decode_gps_frames(layout: GpsLayout, file: &[u8], frames: &Vec<ResolvedFrame>) -> (r: Result<
    Vec<GpsRecord>,
    ParseError,
>)
    ensures
        match r {
            Ok(v) => spec_gps_of_frames(layout, file@, frames@) == Ok::<
                Seq<GpsRecord>,
                ParseError,
            >(v@),
            Err(e) => spec_gps_of_frames(layout, file@, frames@) == Err::<
                Seq<GpsRecord>,
                ParseError,
            >(e),
        },
{
    let len = file.len();
    let mut records: Vec<GpsRecord> = Vec::new();
    let mut i: usize = 0;
    while i < frames.len()
        invariant
            len == file@.len(),
            i <= frames@.len(),
            spec_gps_of_frames(layout, file@, frames@.subrange(0, i as int)) == Ok::<
                Seq<GpsRecord>,
                ParseError,
            >(records@),
        decreases frames@.len() - i,
    {
        let frame = frames[i];
        proof {
            assert(frames@.subrange(0, i + 1).drop_last() =~= frames@.subrange(0, i as int));
            assert(frames@.subrange(0, i + 1).last() == frame);
        }
        if frame.frame_type.is_gps() {
            if frame.offset > len as u64 || frame.size as u64 > len as u64 - frame.offset {
                proof {
                    lemma_failure_persists(layout, file@, frames@, i + 1);
                }
                return Err(ParseError::OutOfBounds);
            }
            let start = frame.offset as usize;
            let payload = slice_subrange(file, start, start + frame.size as usize);
            match parse_gps_frame(layout, payload) {
                Err(e) => {
                    proof {
                        lemma_failure_persists(layout, file@, frames@, i + 1);
                    }
                    return Err(e);
                },
                Ok(more) => {
                    let mut more = more;
                    records.append(&mut more);
                },
            }
        }
        i = i + 1;
    }
    assert(frames@.subrange(0, frames@.len() as int) =~= frames@);
    Ok(records)
}

/// The outcome of decoding every GPS record of the telemetry block at the
/// end of `file`: the trailer, the anchor, the index frame right before the
/// trailer, the placed frames, then the GPS frames in index order.
pub open spec fn spec_extract(tl: TrailerLayout, gl: GpsLayout, file: Seq<u8>) -> Result<
    Seq<GpsRecord>,
    ParseError,
> {
    let len = file.len();
    match spec_trailer(tl, file) {
        Err(e) => Err(e),
        Ok(t) => match spec_anchor(len, t.metadata_total_size) {
            Err(e) => Err(e),
            Ok(anchor) => match spec_index_footer_start(len) {
                Err(e) => Err(e),
                Ok(fs) => match spec_index_payload_start(fs, footer_at(file, fs as int)) {
                    Err(e) => Err(e),
                    Ok(ps) => match spec_index_frame(file.subrange(ps as int, fs as int)) {
                        Err(e) => Err(e),
                        Ok(entries) => match spec_resolve(len, anchor, entries) {
                            Err(e) => Err(e),
                            Ok(frames) => spec_gps_of_frames(gl, file, frames),
                        },
                    },
                },
            },
        },
    }
}

/// Decodes every GPS record of the telemetry block at the end of `file`.
pub fn extract_gps(tl: TrailerLayout, gl: GpsLayout, file: &[u8]) -> (r: Result<
    Vec<GpsRecord>,
    ParseError,
>)
    ensures
        match r {
            Ok(v) => spec_extract(tl, gl, file@) == Ok::<Seq<GpsRecord>, ParseError>(v@),
            Err(e) => spec_extract(tl, gl, file@) == Err::<Seq<GpsRecord>, ParseError>(e),
        },
{
    let len = file.len();
    let file_len = len as u64;
    let trailer = match header_parser(tl, file) {
        Err(e) => {
            return Err(e);
        },
        Ok(t) => t,
    };
    let anchor = match metadata_anchor(file_len, trailer.metadata_total_size) {
        Err(e) => {
            return Err(e);
        },
        Ok(a) => a,
    };
    let footer_start = match index_footer_start(file_len) {
        Err(e) => {
            return Err(e);
        },
        Ok(f) => f,
    };
    let footer = match frame_trailer(file, footer_start as usize) {
        Err(e) => {
            return Err(e);
        },
        Ok(f) => f,
    };
    assert(footer == footer_at(file@, footer_start as int));
    let payload_start = match index_payload_start(footer_start, &footer) {
        Err(e) => {
            return Err(e);
        },
        Ok(p) => p,
    };
    let payload = slice_subrange(file, payload_start as usize, footer_start as usize);
    let entries = match parse_index_frame(payload) {
        Err(e) => {
            return Err(e);
        },
        Ok(v) => v,
    };
    let frames = match resolve_frames(file_len, anchor, &entries) {
        Err(e) => {
            return Err(e);
        },
        Ok(v) => v,
    };
    decode_gps_frames(gl, file, &frames)
}

/// A file whose last 32 bytes differ from the magic signature, in even one
/// bit, fails with `BadSignature`, whatever the rest of it holds: nothing
/// past the trailer is looked at.
pub proof fn lemma_bad_signature_stops(tl: TrailerLayout, gl: GpsLayout, file: Seq<u8>)
    requires
        file.len() >= tl.spec_trailer_size(),
        file.subrange(file.len() - 32, file.len() as int) != signature(),
    ensures
        spec_extract(tl, gl, file) == Err::<Seq<GpsRecord>, ParseError>(ParseError::BadSignature),
{
}

/// A frame whose type is not GPS, an unrecognized code among them, takes no
/// part in GPS decoding: the walk neither fails on it nor decodes it, and
/// gives what it gives without that frame.
pub proof fn lemma_other_frames_skipped(
    layout: GpsLayout,
    file: Seq<u8>,
    frames: Seq<ResolvedFrame>,
    k: int,
)
    requires
        0 <= k < frames.len(),
        frames[k].frame_type != FrameType::Gps,
    ensures
        spec_gps_of_frames(layout, file, frames) == spec_gps_of_frames(
            layout,
            file,
            frames.remove(k),
        ),
    decreases frames.len(),
{
    if k == frames.len() - 1 {
        assert(frames.remove(k) =~= frames.drop_last());
    } else {
        let shorter = frames.drop_last();
        lemma_other_frames_skipped(layout, file, shorter, k);
        assert(frames.remove(k).drop_last() =~= shorter.remove(k));
        assert(frames.remove(k).last() == frames.last());
    }
}

/// Placing entries never fails on a type code: when every entry ends inside
/// the file, placing succeeds, and an entry with an unrecognized code is
/// placed like any other, keeping its code.
pub proof fn lemma_unrecognized_entry_placed(file_len: nat, anchor: u64, entries: Seq<IndexEntry>, k: int)
    requires
        0 <= k < entries.len(),
        entries[k].frame_type is Unrecognized,
        forall|i: int| 0 <= i < entries.len() ==> entry_in_bounds(file_len, anchor, #[trigger] entries[i]),
    ensures
        spec_resolve(file_len, anchor, entries) is Ok,
        spec_resolve(file_len, anchor, entries)->Ok_0[k] == placed(anchor, entries[k]),
        spec_resolve(file_len, anchor, entries)->Ok_0[k].frame_type == entries[k].frame_type,
{
}

} // verus!
