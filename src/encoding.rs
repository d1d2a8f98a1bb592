//! The byte layouts written out, as spec functions: the inverse of decoding.
//! Decoding what they produce gives back exactly what was encoded.

use vstd::prelude::*;
use crate::bytes::{
    le_bytes, lemma_le_bytes_len, lemma_le_round_trip, lemma_pow256_values, pow256, signed32,
    signed8,
};
use crate::error::ParseError;
use crate::footer::footer_at;
use crate::frame_type::{frame_type_of, FrameType};
use crate::gps::{
    flip_sign, nth_valid, record_at, record_valid, sign_set, spec_gps_frame, GpsRecord, EAST,
    NORTH, SOUTH, WEST,
};
use crate::index::{entry_at, spec_index_frame, IndexEntry};
use crate::layout::{signature, GpsLayout, TrailerLayout};
use crate::resolver::{
    entry_in_bounds, placed, spec_anchor, spec_extract, spec_gps_of_frames,
    spec_index_footer_start, spec_index_payload_start, spec_resolve, ResolvedFrame,
};
use crate::trailer::{descriptor_at, spec_trailer, Descriptor, TrailerView};

verus! {

/// The chunks one after the other.
pub open spec fn concat(chunks: Seq<Seq<u8>>) -> Seq<u8>
    decreases chunks.len(),
{
    if chunks.len() == 0 {
        Seq::empty()
    } else {
        concat(chunks.drop_last()) + chunks.last()
    }
}

/// Chunks of one width `k` sit at multiples of `k` in their concatenation.
pub proof fn lemma_concat_placement(chunks: Seq<Seq<u8>>, k: nat)
    requires
        forall|i: int| 0 <= i < chunks.len() ==> (#[trigger] chunks[i]).len() == k,
    ensures
        concat(chunks).len() == k * chunks.len(),
        forall|i: int|
            0 <= i < chunks.len() ==> concat(chunks).subrange(k * i, k * i + k)
                == #[trigger] chunks[i],
    decreases chunks.len(),
{
    if chunks.len() > 0 {
        let init = chunks.drop_last();
        let n = chunks.len() - 1;
        assert forall|i: int| 0 <= i < init.len() implies (#[trigger] init[i]).len() == k by {
            assert(init[i] == chunks[i]);
        }
        lemma_concat_placement(init, k);
        let head = concat(init);
        let all = concat(chunks);
        assert(all == head + chunks.last());
        assert(k * chunks.len() == k * n + k) by (nonlinear_arith)
            requires
                n == chunks.len() - 1,
        ;
        assert forall|i: int| 0 <= i < chunks.len() implies all.subrange(k * i, k * i + k)
            == #[trigger] chunks[i] by {
            if i < n {
                assert(init[i] == chunks[i]);
                assert(k * i + k <= k * n) by (nonlinear_arith)
                    requires
                        i < n,
                ;
                assert(0 <= k * i) by (nonlinear_arith)
                    requires
                        0 <= i,
                ;
                assert(all.subrange(k * i, k * i + k) =~= head.subrange(k * i, k * i + k));
            } else {
                assert(all.subrange(k * i, k * i + k) =~= chunks.last());
            }
        }
    }
}

/// A coordinate's bit pattern with the sign bit cleared.
pub open spec fn magnitude(bits: u64) -> u64 {
    if sign_set(bits) {
        flip_sign(bits)
    } else {
        bits
    }
}

/// Whether `r` can be written in `layout` with `unused` as the bytes after
/// the timestamp: the timestamp fits its field, and `unused` fills the rest
/// of the eleven bytes.
pub open spec fn well_formed(layout: GpsLayout, r: GpsRecord, unused: Seq<u8>) -> bool {
    &&& r.timestamp < pow256(layout.spec_timestamp_width())
    &&& unused.len() == 11 - layout.spec_timestamp_width()
}

/// The 53 bytes of one record: the sign of each coordinate goes into its
/// hemisphere byte, and `unused` follows the timestamp.
pub open spec fn encode_record(layout: GpsLayout, r: GpsRecord, unused: Seq<u8>) -> Seq<u8> {
    let w = layout.spec_timestamp_width();
    le_bytes(r.timestamp as nat, w) + unused + le_bytes(magnitude(r.latitude_bits) as nat, 8)
        + seq![if sign_set(r.latitude_bits) { SOUTH } else { NORTH }] + le_bytes(
        magnitude(r.longitude_bits) as nat,
        8,
    ) + seq![if sign_set(r.longitude_bits) { WEST } else { EAST }] + le_bytes(
        r.speed_bits as nat,
        8,
    ) + le_bytes(r.track_bits as nat, 8) + le_bytes(r.altitude_bits as nat, 8)
}

/// The records one after the other, the `i`-th with `unused[i]` after its
/// timestamp.
pub open spec fn encode_records(layout: GpsLayout, rs: Seq<GpsRecord>, unused: Seq<Seq<u8>>) -> Seq<
    u8,
> {
    concat(Seq::new(rs.len(), |i: int| encode_record(layout, rs[i], unused[i])))
}

/// One encoded record decodes to itself, whatever its unused bytes hold.
pub proof fn lemma_record_round_trip(layout: GpsLayout, r: GpsRecord, unused: Seq<u8>)
    requires
        well_formed(layout, r, unused),
    ensures
        encode_record(layout, r, unused).len() == 53,
        record_valid(encode_record(layout, r, unused), 0),
        record_at(layout, encode_record(layout, r, unused), 0) == r,
{
    let w = layout.spec_timestamp_width();
    let e = encode_record(layout, r, unused);
    let lat = magnitude(r.latitude_bits);
    let lon = magnitude(r.longitude_bits);
    lemma_pow256_values();
    lemma_le_round_trip(r.timestamp as nat, w);
    lemma_le_round_trip(lat as nat, 8);
    lemma_le_round_trip(lon as nat, 8);
    lemma_le_round_trip(r.speed_bits as nat, 8);
    lemma_le_round_trip(r.track_bits as nat, 8);
    lemma_le_round_trip(r.altitude_bits as nat, 8);
    assert(e.len() == 53);
    assert(e.subrange(0, w as int) =~= le_bytes(r.timestamp as nat, w));
    assert(e.subrange(11, 19) =~= le_bytes(lat as nat, 8));
    assert(e.subrange(20, 28) =~= le_bytes(lon as nat, 8));
    assert(e.subrange(29, 37) =~= le_bytes(r.speed_bits as nat, 8));
    assert(e.subrange(37, 45) =~= le_bytes(r.track_bits as nat, 8));
    assert(e.subrange(45, 53) =~= le_bytes(r.altitude_bits as nat, 8));
    assert(e[19] == if sign_set(r.latitude_bits) { SOUTH } else { NORTH });
    assert(e[28] == if sign_set(r.longitude_bits) { WEST } else { EAST });
    assert(record_at(layout, e, 0).latitude_bits == r.latitude_bits);
    assert(record_at(layout, e, 0).longitude_bits == r.longitude_bits);
}

/// A record is decoded from its own 53 bytes alone.
pub proof fn lemma_record_window(layout: GpsLayout, s: Seq<u8>, at: int, t: Seq<u8>)
    requires
        0 <= at,
        at + 53 <= s.len(),
        s.subrange(at, at + 53) == t,
    ensures
        record_valid(s, at) == record_valid(t, 0),
        record_at(layout, s, at) == record_at(layout, t, 0),
{
    let w = layout.spec_timestamp_width() as int;
    assert(s.subrange(at, at + w) =~= t.subrange(0, w));
    assert(s.subrange(at + 11, at + 19) =~= t.subrange(11, 19));
    assert(s.subrange(at + 20, at + 28) =~= t.subrange(20, 28));
    assert(s.subrange(at + 29, at + 37) =~= t.subrange(29, 37));
    assert(s.subrange(at + 37, at + 45) =~= t.subrange(37, 45));
    assert(s.subrange(at + 45, at + 53) =~= t.subrange(45, 53));
    assert(s[at + 19] == t[19]);
    assert(s[at + 28] == t[28]);
}

/// A payload of `N` well-formed records, for any `N` and whatever their
/// unused bytes hold, decodes to exactly those `N` records, in order.
pub proof fn lemma_gps_round_trip(layout: GpsLayout, rs: Seq<GpsRecord>, unused: Seq<Seq<u8>>)
    requires
        unused.len() == rs.len(),
        forall|i: int| 0 <= i < rs.len() ==> well_formed(layout, #[trigger] rs[i], unused[i]),
    ensures
        encode_records(layout, rs, unused).len() == 53 * rs.len(),
        spec_gps_frame(layout, encode_records(layout, rs, unused)) == Ok::<
            Seq<GpsRecord>,
            ParseError,
        >(rs),
{
    let chunks = Seq::new(rs.len(), |i: int| encode_record(layout, rs[i], unused[i]));
    let s = encode_records(layout, rs, unused);
    let n = rs.len();
    assert forall|i: int| 0 <= i < chunks.len() implies (#[trigger] chunks[i]).len() == 53 by {
        lemma_record_round_trip(layout, rs[i], unused[i]);
    }
    lemma_concat_placement(chunks, 53);
    assert(s.len() % 53 == 0 && s.len() / 53 == n);
    assert forall|i: int| 0 <= i < n implies nth_valid(s, i) && record_at(layout, s, 53 * i)
        == #[trigger] rs[i] by {
        lemma_record_round_trip(layout, rs[i], unused[i]);
        assert(s.subrange(53 * i, 53 * i + 53) == chunks[i]);
        lemma_record_window(layout, s, 53 * i, chunks[i]);
    }
    assert forall|i: int| 0 <= i < n implies #[trigger] nth_valid(s, i) by {
        assert(record_at(layout, s, 53 * i) == rs[i]);
    }
    assert(Seq::new(n, |i: int| record_at(layout, s, 53 * i)) =~= rs);
}

/// The ten bytes of an index entry: type code, version, size, offset.
pub open spec fn encode_entry(code: u8, version: u8, size: nat, offset: nat) -> Seq<u8> {
    seq![code, version] + le_bytes(size, 4) + le_bytes(offset, 4)
}

/// The entries, given as (type code, version, size, offset), one after the
/// other.
pub open spec fn encode_index(es: Seq<(u8, u8, u32, u32)>) -> Seq<u8> {
    concat(Seq::new(es.len(), |i: int| encode_entry(es[i].0, es[i].1, es[i].2 as nat, es[i].3 as nat)))
}

/// The entry that (type code, version, size, offset) stands for.
pub open spec fn decoded_entry(e: (u8, u8, u32, u32)) -> IndexEntry {
    IndexEntry {
        frame_version: e.1,
        frame_type: frame_type_of(signed8(e.0) as i8),
        frame_size: e.2,
        frame_offset: e.3,
    }
}

proof fn lemma_entry_round_trip(e: (u8, u8, u32, u32))
    ensures
        encode_entry(e.0, e.1, e.2 as nat, e.3 as nat).len() == 10,
        entry_at(encode_entry(e.0, e.1, e.2 as nat, e.3 as nat), 0) == decoded_entry(e),
{
    let b = encode_entry(e.0, e.1, e.2 as nat, e.3 as nat);
    lemma_pow256_values();
    lemma_le_round_trip(e.2 as nat, 4);
    lemma_le_round_trip(e.3 as nat, 4);
    assert(b.subrange(2, 6) =~= le_bytes(e.2 as nat, 4));
    assert(b.subrange(6, 10) =~= le_bytes(e.3 as nat, 4));
}

/// An index payload of any number of entries decodes to exactly those
/// entries, in order; a code outside the known ones comes back as
/// `Unrecognized` with that code.
pub proof fn lemma_index_round_trip(es: Seq<(u8, u8, u32, u32)>)
    ensures
        encode_index(es).len() == 10 * es.len(),
        spec_index_frame(encode_index(es)) == Ok::<Seq<IndexEntry>, ParseError>(
            Seq::new(es.len(), |i: int| decoded_entry(es[i])),
        ),
{
    let chunks = Seq::new(es.len(), |i: int| encode_entry(es[i].0, es[i].1, es[i].2 as nat, es[i].3 as nat));
    let s = encode_index(es);
    assert forall|i: int| 0 <= i < chunks.len() implies (#[trigger] chunks[i]).len() == 10 by {
        lemma_entry_round_trip(es[i]);
    }
    lemma_concat_placement(chunks, 10);
    assert forall|i: int| 0 <= i < es.len() implies entry_at(s, 10 * i) == decoded_entry(
        #[trigger] es[i],
    ) by {
        lemma_entry_round_trip(es[i]);
        let c = chunks[i];
        assert(s.subrange(10 * i, 10 * i + 10) == c);
        assert(s.subrange(10 * i + 2, 10 * i + 6) =~= c.subrange(2, 6));
        assert(s.subrange(10 * i + 6, 10 * i + 10) =~= c.subrange(6, 10));
        assert(s[10 * i] == c[0] && s[10 * i + 1] == c[1]);
    }
    assert(Seq::new(s.len() / 10, |i: int| entry_at(s, 10 * i)) =~= Seq::new(
        es.len(),
        |i: int| decoded_entry(es[i]),
    ));
}

/// The six bytes of a trailer descriptor: id, then size.
pub open spec fn encode_descriptor(d: Descriptor) -> Seq<u8> {
    le_bytes(d.id as nat, 2) + le_bytes(d.size as nat, 4)
}

/// The two's complement bit pattern of `v`, as an unsigned number.
pub open spec fn unsigned32(v: i32) -> nat {
    if v < 0 {
        (v + 0x1_0000_0000) as nat
    } else {
        v as nat
    }
}

/// A trailer: the descriptors, the version, then the magic signature.
pub open spec fn encode_trailer(ds: Seq<Descriptor>, version: i32) -> Seq<u8> {
    concat(Seq::new(ds.len(), |i: int| encode_descriptor(ds[i]))) + le_bytes(unsigned32(version), 4)
        + signature()
}

proof fn lemma_descriptor_round_trip(d: Descriptor)
    ensures
        encode_descriptor(d).len() == 6,
        descriptor_at(encode_descriptor(d), 0) == d,
{
    let b = encode_descriptor(d);
    lemma_pow256_values();
    lemma_le_round_trip(d.id as nat, 2);
    lemma_le_round_trip(d.size as nat, 4);
    assert(b.subrange(0, 2) =~= le_bytes(d.id as nat, 2));
    assert(b.subrange(2, 6) =~= le_bytes(d.size as nat, 4));
}

/// Where each part of an encoded trailer sits.
proof fn lemma_trailer_placement(ds: Seq<Descriptor>, version: i32)
    ensures
        encode_trailer(ds, version).len() == 6 * ds.len() + 36,
        encode_trailer(ds, version).subrange(6 * ds.len() + 4 as int, 6 * ds.len() + 36 as int)
            == signature(),
        encode_trailer(ds, version).subrange(6 * ds.len() as int, 6 * ds.len() + 4 as int) == le_bytes(
            unsigned32(version),
            4,
        ),
        forall|i: int|
            0 <= i < ds.len() ==> encode_trailer(ds, version).subrange(6 * i, 6 * i + 6)
                == encode_descriptor(#[trigger] ds[i]),
{
    let chunks = Seq::new(ds.len(), |i: int| encode_descriptor(ds[i]));
    assert forall|i: int| 0 <= i < chunks.len() implies (#[trigger] chunks[i]).len() == 6 by {
        lemma_descriptor_round_trip(ds[i]);
    }
    lemma_concat_placement(chunks, 6);
    lemma_le_bytes_len(unsigned32(version), 4);
    let d = concat(chunks);
    let t = encode_trailer(ds, version);
    let n = 6 * ds.len() as int;
    assert(t.subrange(n + 4, n + 36) =~= signature());
    assert(t.subrange(n, n + 4) =~= le_bytes(unsigned32(version), 4));
    assert forall|i: int| 0 <= i < ds.len() implies t.subrange(6 * i, 6 * i + 6)
        == encode_descriptor(#[trigger] ds[i]) by {
        assert(d.subrange(6 * i, 6 * i + 6) == chunks[i]);
        assert(t.subrange(6 * i, 6 * i + 6) =~= d.subrange(6 * i, 6 * i + 6));
    }
}

/// A trailer written with the layout's number of descriptors decodes, at
/// the end of any bytes, to exactly its descriptors, version and signature;
/// the metadata size is the last descriptor's size.
pub proof fn lemma_trailer_round_trip(
    tl: TrailerLayout,
    head: Seq<u8>,
    ds: Seq<Descriptor>,
    version: i32,
)
    requires
        ds.len() == tl.spec_descriptor_count(),
    ensures
        spec_trailer(tl, head + encode_trailer(ds, version)) == Ok::<TrailerView, ParseError>(
            TrailerView {
                version,
                signature: signature(),
                descriptors: ds,
                metadata_total_size: ds.last().size,
            },
        ),
{
    let t = encode_trailer(ds, version);
    let file = head + t;
    let b = head.len() as int;
    let c = ds.len() as int;
    lemma_trailer_placement(ds, version);
    lemma_pow256_values();
    lemma_le_round_trip(unsigned32(version), 4);
    let len = file.len() as int;
    assert(file.subrange(len - 32, len) =~= t.subrange(6 * c + 4, 6 * c + 36));
    assert(file.subrange(b + 6 * c, b + 6 * c + 4) =~= t.subrange(6 * c, 6 * c + 4));
    assert(signed32(unsigned32(version)) == version);
    assert forall|i: int| 0 <= i < c implies descriptor_at(file, b + 6 * i) == #[trigger] ds[i] by {
        lemma_descriptor_round_trip(ds[i]);
        let e = encode_descriptor(ds[i]);
        assert(t.subrange(6 * i, 6 * i + 6) == e);
        assert(file.subrange(b + 6 * i, b + 6 * i + 2) =~= e.subrange(0, 2));
        assert(file.subrange(b + 6 * i + 2, b + 6 * i + 6) =~= e.subrange(2, 6));
    }
    assert(Seq::new(c as nat, |i: int| descriptor_at(file, b + 6 * i)) =~= ds);
    assert(ds[c - 1] == ds.last());
}

/// The six bytes of a frame footer with a non-negative size.
pub open spec fn encode_footer(version: u8, code: u8, size: nat) -> Seq<u8> {
    seq![version, code] + le_bytes(size, 4)
}

/// A file that ends in a telemetry block holding a GPS frame: `prefix`
/// stands for the video; the metadata block starts with `other` (frames of
/// other kinds), then come the GPS payload, the index frame that lists it
/// at its offset from the anchor, the index frame's footer, and a
/// six-descriptor trailer.
pub open spec fn synthetic_file(
    layout: GpsLayout,
    prefix: Seq<u8>,
    other: Seq<u8>,
    rs: Seq<GpsRecord>,
    unused: Seq<Seq<u8>>,
    entry_version: u8,
    footer_version: u8,
    ds: Seq<Descriptor>,
    version: i32,
) -> Seq<u8> {
    let gps = encode_records(layout, rs, unused);
    prefix + other + gps + encode_entry(7, entry_version, gps.len(), other.len()) + encode_footer(
        footer_version,
        0,
        10,
    ) + encode_trailer(ds, version)
}

proof fn lemma_trailer_part(tl: TrailerLayout, head: Seq<u8>, ds: Seq<Descriptor>, version: i32)
    requires
        ds.len() == 6,
        head.len() >= 6,
    ensures
        spec_trailer(tl, head + encode_trailer(ds, version)) is Ok,
        spec_trailer(tl, head + encode_trailer(ds, version))->Ok_0.metadata_total_size
            == ds.last().size,
{
    let tr = encode_trailer(ds, version);
    let file = head + tr;
    lemma_trailer_placement(ds, version);
    lemma_descriptor_round_trip(ds[5]);
    lemma_pow256_values();
    lemma_le_round_trip(ds[5].size as nat, 4);
    let e = encode_descriptor(ds[5]);
    assert(e.subrange(2, 6) =~= le_bytes(ds[5].size as nat, 4));
    assert(tr.subrange(30, 36) == e);
    let len = file.len() as int;
    assert(file.subrange(len - 32, len) =~= tr.subrange(40, 72));
    assert(file.subrange(len - 40, len - 36) =~= e.subrange(2, 6));
    assert(ds[5] == ds.last());
}

proof fn lemma_index_walk_part(head: Seq<u8>, idx: Seq<u8>, footer_version: u8, tail: Seq<u8>)
    requires
        idx.len() == 10,
        tail.len() == 72,
        head.len() + 88 <= u64::MAX,
    ensures
        ({
            let file = head + idx + encode_footer(footer_version, 0, 10) + tail;
            let fs = file.len() - 78;
            &&& spec_index_footer_start(file.len()) == Ok::<u64, ParseError>(fs as u64)
            &&& spec_index_payload_start(fs as u64, footer_at(file, fs)) == Ok::<u64, ParseError>(
                head.len() as u64,
            )
            &&& file.subrange(head.len() as int, fs) == idx
        }),
{
    let ft = encode_footer(footer_version, 0, 10);
    let file = head + idx + ft + tail;
    lemma_pow256_values();
    lemma_le_round_trip(10, 4);
    let fs = file.len() - 78;
    assert(file[fs] == footer_version);
    assert(file[fs + 1] == 0);
    assert(file.subrange(fs + 2, fs + 6) =~= le_bytes(10, 4));
    let footer = footer_at(file, fs);
    assert(footer.frame_type == FrameType::Index);
    assert(footer.frame_size == 10);
    assert(file.subrange(head.len() as int, fs) =~= idx);
}

/// Round trip: a file assembled in memory from a trailer, an index frame
/// and a GPS frame at any offset in the metadata block decodes, under either
/// trailer layout, to exactly the records that were encoded. The last
/// descriptor holds the size of the metadata block.
#[verifier::rlimit(100)]
pub proof fn lemma_file_round_trip(
    tl: TrailerLayout,
    layout: GpsLayout,
    prefix: Seq<u8>,
    other: Seq<u8>,
    rs: Seq<GpsRecord>,
    unused: Seq<Seq<u8>>,
    entry_version: u8,
    footer_version: u8,
    ds: Seq<Descriptor>,
    version: i32,
)
    requires
        unused.len() == rs.len(),
        forall|i: int| 0 <= i < rs.len() ==> well_formed(layout, #[trigger] rs[i], unused[i]),
        ds.len() == 6,
        ds.last().size == other.len() + 53 * rs.len() + 88,
        prefix.len() + other.len() + 53 * rs.len() + 88 <= u64::MAX,
    ensures
        spec_extract(
            tl,
            layout,
            synthetic_file(
                layout,
                prefix,
                other,
                rs,
                unused,
                entry_version,
                footer_version,
                ds,
                version,
            ),
        ) == Ok::<Seq<GpsRecord>, ParseError>(rs),
{
    let gps = encode_records(layout, rs, unused);
    lemma_gps_round_trip(layout, rs, unused);
    let g = gps.len() as int;
    let p = prefix.len() as int;
    let o = other.len() as int;
    let idx = encode_entry(7, entry_version, g as nat, o as nat);
    let ft = encode_footer(footer_version, 0, 10);
    let tr = encode_trailer(ds, version);
    let file = synthetic_file(
        layout,
        prefix,
        other,
        rs,
        unused,
        entry_version,
        footer_version,
        ds,
        version,
    );
    let e = (7u8, entry_version, g as u32, o as u32);
    lemma_entry_round_trip(e);
    lemma_trailer_placement(ds, version);
    lemma_le_bytes_len(10, 4);
    assert(idx.len() == 10 && ft.len() == 6 && tr.len() == 72);
    lemma_trailer_part(tl, prefix + other + gps + idx + ft, ds, version);
    lemma_index_walk_part(prefix + other + gps, idx, footer_version, tr);
    let len = file.len() as int;
    assert(len == p + o + g + 88);
    let total = ds.last().size;
    assert(spec_anchor(len as nat, total) == Ok::<u64, ParseError>(p as u64));
    let entry = decoded_entry(e);
    assert(entry.frame_type == FrameType::Gps);
    let entries = seq![entry];
    assert(Seq::new(idx.len() / 10, |i: int| entry_at(idx, 10 * i)) =~= entries);
    assert(entry_in_bounds(len as nat, p as u64, entries[0]));
    let frames = spec_resolve(len as nat, p as u64, entries)->Ok_0;
    assert(frames =~= seq![placed(p as u64, entry)]);
    assert(frames.drop_last() =~= Seq::<ResolvedFrame>::empty());
    assert(file.subrange(p + o, p + o + g) =~= gps);
    assert(Seq::<GpsRecord>::empty() + rs =~= rs);
    assert(file == prefix + other + gps + idx + ft + tr);
    let fs = len - 78;
    assert(spec_trailer(tl, file)->Ok_0.metadata_total_size == total);
    assert(spec_index_frame(file.subrange(p + o + g, fs)) == Ok::<Seq<IndexEntry>, ParseError>(
        entries,
    ));
    assert(spec_resolve(len as nat, p as u64, entries) == Ok::<Seq<ResolvedFrame>, ParseError>(
        frames,
    ));
    assert(spec_gps_of_frames(layout, file, frames.drop_last()) == Ok::<
        Seq<GpsRecord>,
        ParseError,
    >(Seq::empty()));
    assert(frames.last().frame_type == FrameType::Gps);
    assert(spec_gps_of_frames(layout, file, frames) == Ok::<Seq<GpsRecord>, ParseError>(rs));
}

} // verus!
