//! The sizes and the magic signature of the container, per format revision.

use vstd::prelude::*;

verus! {

/// Size of a frame footer: version, type code and payload size.
pub const FOOTER_SIZE: usize = 6;

/// Size of one index entry: type code, version, size and offset.
pub const INDEX_ENTRY_SIZE: usize = 10;

/// Size of one trailer descriptor: an id and a size.
pub const DESCRIPTOR_SIZE: usize = 6;

/// Size of the magic signature that ends the trailer.
pub const SIGNATURE_SIZE: usize = 32;

/// Size of one encoded GPS record, in either revision.
pub const GPS_RECORD_SIZE: usize = 53;

/// Distance from the end of the file to the end of the index frame's footer.
/// It is the size of the six-descriptor trailer, which the footer precedes;
/// in the seven-descriptor layout the footer fills the first descriptor slot.
pub const INDEX_FOOTER_END: usize = 72;

/// The trailer revisions: they differ in the number of descriptors.
#[derive(Debug, Clone, Copy, PartialEq, Eq, Structural)]
pub enum TrailerLayout {
    /// 72 bytes: six descriptors, the version and the signature.
    SixDescriptors,
    /// 78 bytes: seven descriptors, the version and the signature.
    SevenDescriptors,
}

impl TrailerLayout {
    pub open spec fn spec_descriptor_count(self) -> nat {
        match self {
            TrailerLayout::SixDescriptors => 6,
            TrailerLayout::SevenDescriptors => 7,
        }
    }

    pub open spec fn spec_trailer_size(self) -> nat {
        self.spec_descriptor_count() * 6 + 4 + 32
    }

    pub fn descriptor_count(&self) -> (r: usize)
        ensures
            r == self.spec_descriptor_count(),
    {
        match self {
            TrailerLayout::SixDescriptors => 6,
            TrailerLayout::SevenDescriptors => 7,
        }
    }

    /// The trailer's size in bytes.
    pub fn trailer_size(&self) -> (r: usize)
        ensures
            r == self.spec_trailer_size(),
    {
        self.descriptor_count() * DESCRIPTOR_SIZE + 4 + SIGNATURE_SIZE
    }
}

/// The GPS record revisions: they differ in the width of the timestamp, and
/// unused bytes after it keep the record's size the same.
#[derive(Debug, Clone, Copy, PartialEq, Eq, Structural)]
pub enum GpsLayout {
    /// A 64-bit timestamp followed by 3 unused bytes.
    Timestamp64,
    /// A 32-bit timestamp followed by 7 unused bytes.
    Timestamp32,
}

impl GpsLayout {
    pub open spec fn spec_timestamp_width(self) -> nat {
        match self {
            GpsLayout::Timestamp64 => 8,
            GpsLayout::Timestamp32 => 4,
        }
    }

    pub fn timestamp_width(&self) -> (r: usize)
        ensures
            r == self.spec_timestamp_width(),
    {
        match self {
            GpsLayout::Timestamp64 => 8,
            GpsLayout::Timestamp32 => 4,
        }
    }
}

/// The magic signature: the ASCII text `8db42d694ccc418790edff439fe026bf`.
pub open spec fn signature() -> Seq<u8> {
    seq![
        0x38u8, 0x64, 0x62, 0x34, 0x32, 0x64, 0x36, 0x39, 0x34, 0x63, 0x63, 0x63, 0x34, 0x31,
        0x38, 0x37, 0x39, 0x30, 0x65, 0x64, 0x66, 0x66, 0x34, 0x33, 0x39, 0x66, 0x65, 0x30,
        0x32, 0x36, 0x62, 0x66,
    ]
}

/// The magic signature as bytes.
pub fn signature_bytes() -> (r: Vec<u8>)
    ensures
        r@ == signature(),
{
    let r: Vec<u8> = vec![
        0x38u8, 0x64, 0x62, 0x34, 0x32, 0x64, 0x36, 0x39, 0x34, 0x63, 0x63, 0x63, 0x34, 0x31,
        0x38, 0x37, 0x39, 0x30, 0x65, 0x64, 0x66, 0x66, 0x34, 0x33, 0x39, 0x66, 0x65, 0x30,
        0x32, 0x36, 0x62, 0x66,
    ];
    assert(r@ =~= signature());
    r
}

} // verus!
