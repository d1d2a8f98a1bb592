use insv_telemetry::bytes::{byte_to_i8, read_i32_le, read_le, read_u16_le, read_u32_le, read_u64_le};
use insv_telemetry::error::ParseError;
use insv_telemetry::footer::{frame_trailer, FrameFooter};
use insv_telemetry::frame_type::FrameType;
use insv_telemetry::gps::{parse_gps_frame, parse_gps_record, GpsRecord};
use insv_telemetry::index::{parse_index, parse_index_frame, IndexEntry};
use insv_telemetry::layout::{signature_bytes, GpsLayout, TrailerLayout};
use insv_telemetry::resolver::{
    decode_gps_frames, extract_gps, index_footer_start, index_payload_start, metadata_anchor,
    resolve_frames, ResolvedFrame,
};
use insv_telemetry::trailer::{header_parser, parse_trailer_metadata, Descriptor};

const SIG: &[u8; 32] = b"8db42d694ccc418790edff439fe026bf";

struct Fix {
    timestamp: u64,
    latitude: f64,
    north_south: u8,
    longitude: f64,
    east_west: u8,
    speed: f64,
    track: f64,
    altitude: f64,
}

fn encode_record(layout: GpsLayout, f: &Fix) -> Vec<u8> {
    let mut out = Vec::new();
    match layout {
        GpsLayout::Timestamp64 => {
            out.extend_from_slice(&f.timestamp.to_le_bytes());
            out.extend_from_slice(&[0xEE; 3]);
        }
        GpsLayout::Timestamp32 => {
            out.extend_from_slice(&(f.timestamp as u32).to_le_bytes());
            out.extend_from_slice(&[0xEE; 7]);
        }
    }
    out.extend_from_slice(&f.latitude.to_le_bytes());
    out.push(f.north_south);
    out.extend_from_slice(&f.longitude.to_le_bytes());
    out.push(f.east_west);
    out.extend_from_slice(&f.speed.to_le_bytes());
    out.extend_from_slice(&f.track.to_le_bytes());
    out.extend_from_slice(&f.altitude.to_le_bytes());
    assert_eq!(out.len(), 53);
    out
}

fn fix(timestamp: u64, latitude: f64, north_south: u8, longitude: f64, east_west: u8) -> Fix {
    Fix {
        timestamp,
        latitude,
        north_south,
        longitude,
        east_west,
        speed: 1.5,
        track: 90.25,
        altitude: 120.0,
    }
}

fn index_entry(code: u8, version: u8, size: u32, offset: u32) -> Vec<u8> {
    let mut out = vec![code, version];
    out.extend_from_slice(&size.to_le_bytes());
    out.extend_from_slice(&offset.to_le_bytes());
    out
}

fn footer(version: u8, code: u8, size: i32) -> Vec<u8> {
    let mut out = vec![version, code];
    out.extend_from_slice(&size.to_le_bytes());
    out
}

/// The six-descriptor trailer whose last descriptor holds `total`.
fn trailer72(total: u32, version: i32) -> Vec<u8> {
    let mut out = Vec::new();
    for id in 1u16..=5 {
        out.extend_from_slice(&id.to_le_bytes());
        out.extend_from_slice(&(1000 * id as u32).to_le_bytes());
    }
    out.extend_from_slice(&6u16.to_le_bytes());
    out.extend_from_slice(&total.to_le_bytes());
    out.extend_from_slice(&version.to_le_bytes());
    out.extend_from_slice(SIG);
    assert_eq!(out.len(), 72);
    out
}

/// A file of `prefix` bytes of video, the GPS payload, an extra frame, the
/// index frame listing both with `extra_code` for the second, its footer and
/// the trailer.
fn synthetic_file(prefix: usize, gps: &[u8], extra_code: u8) -> Vec<u8> {
    let mut file = vec![0x5A; prefix];
    file.extend_from_slice(gps);
    let extra = vec![0x11u8; 4];
    file.extend_from_slice(&extra);
    let mut index = index_entry(7, 1, gps.len() as u32, 0);
    index.extend(index_entry(extra_code, 2, 4, gps.len() as u32));
    file.extend_from_slice(&index);
    file.extend(footer(1, 0, index.len() as i32));
    let total = (gps.len() + extra.len() + index.len() + 6 + 72) as u32;
    file.extend(trailer72(total, 3));
    file
}

fn bits(x: f64) -> u64 {
    x.to_bits()
}

#[test]
fn test_parse_gps_record() {
    let first = Fix {
        timestamp: 1752824362,
        latitude: 49.25853492931603,
        north_south: b'N',
        longitude: 4.03079459928793,
        east_west: b'E',
        speed: 0.0,
        track: 335.23572083279436,
        altitude: 86.40542984008789,
    };
    let mut data = encode_record(GpsLayout::Timestamp32, &first);
    for k in 1..14915u64 {
        data.extend(encode_record(GpsLayout::Timestamp32, &fix(1752824362 + k, 49.0, b'N', 4.0, b'E')));
    }
    let records = parse_gps_frame(GpsLayout::Timestamp32, &data).expect("Failed to parse GPS records");
    assert_eq!(records.len(), 14915);

    let record = records.first().unwrap();
    assert_eq!(record.timestamp, 1752824362);
    assert_eq!(f64::from_bits(record.latitude_bits), 49.25853492931603);
    assert_eq!(f64::from_bits(record.longitude_bits), 4.03079459928793);
    assert_eq!(f64::from_bits(record.speed_bits), 0.0);
    assert_eq!(f64::from_bits(record.track_bits), 335.23572083279436);
    assert_eq!(f64::from_bits(record.altitude_bits), 86.40542984008789);
}

#[test]
fn little_endian_reads() {
    let b = [0x01u8, 0x02, 0x03, 0x04, 0x05, 0x06, 0x07, 0x08, 0xFF];
    assert_eq!(read_u16_le(&b, 0), 0x0201);
    assert_eq!(read_u32_le(&b, 1), 0x05040302);
    assert_eq!(read_u64_le(&b, 0), 0x0807060504030201);
    assert_eq!(read_le(&b, 6, 3), 0xFF0807);
    assert_eq!(read_le(&b, 3, 0), 0);
    assert_eq!(read_i32_le(&[0xFE, 0xFF, 0xFF, 0xFF], 0), -2);
    assert_eq!(read_i32_le(&[0x00, 0x00, 0x00, 0x80], 0), i32::MIN);
    assert_eq!(read_i32_le(&[0xFF, 0xFF, 0xFF, 0x7F], 0), i32::MAX);
    assert_eq!(byte_to_i8(0xFF), -1);
    assert_eq!(byte_to_i8(0x80), -128);
    assert_eq!(byte_to_i8(0x63), 99);
}

#[test]
fn frame_type_codes() {
    assert_eq!(FrameType::from_code(-1), FrameType::Raw);
    assert_eq!(FrameType::from_code(0), FrameType::Index);
    assert_eq!(FrameType::from_code(7), FrameType::Gps);
    assert_eq!(FrameType::from_code(24), FrameType::TimelapseQuat);
    assert_eq!(FrameType::from_code(25), FrameType::Unrecognized(25));
    assert_eq!(FrameType::from_code(99), FrameType::Unrecognized(99));
    assert_eq!(FrameType::from_code(-2), FrameType::Unrecognized(-2));
    assert!(FrameType::Gps.is_gps());
    assert!(!FrameType::Unrecognized(7).is_gps());
}

#[test]
fn footer_decoding() {
    let mut b = vec![0x99u8];
    b.extend(footer(2, 0, 40));
    let f = frame_trailer(&b, 1).unwrap();
    assert_eq!(
        f,
        FrameFooter { frame_version: 2, frame_type: FrameType::Index, frame_size: 40 }
    );
    let neg = frame_trailer(&footer(1, 0xFF, -5), 0).unwrap();
    assert_eq!(neg.frame_type, FrameType::Raw);
    assert_eq!(neg.frame_size, -5);
    assert_eq!(frame_trailer(&b, 2), Err(ParseError::Truncated));
    assert_eq!(frame_trailer(&b, 100), Err(ParseError::Truncated));
}

#[test]
fn index_decoding() {
    let mut payload = index_entry(7, 1, 530, 0);
    payload.extend(index_entry(3, 4, 12, 530));
    assert_eq!(
        parse_index(&payload, 10),
        Ok(IndexEntry { frame_version: 4, frame_type: FrameType::Gyro, frame_size: 12, frame_offset: 530 })
    );
    assert_eq!(parse_index(&payload, 11), Err(ParseError::Misaligned));
    assert_eq!(parse_index(&payload[..9], 0), Err(ParseError::Misaligned));
    assert_eq!(parse_index(&payload, 100), Err(ParseError::Misaligned));
    let entries = parse_index_frame(&payload).unwrap();
    assert_eq!(entries.len(), 2);
    assert_eq!(entries[0].frame_type, FrameType::Gps);
    assert_eq!(entries[0].frame_size, 530);
    assert_eq!(entries[1].frame_offset, 530);
    assert_eq!(parse_index_frame(&[]).unwrap().len(), 0);
}

#[test]
fn misaligned_index_rejected() {
    let mut payload = index_entry(7, 1, 530, 0);
    payload.extend_from_slice(&[1, 2, 3, 4, 5]);
    assert_eq!(parse_index_frame(&payload).unwrap_err(), ParseError::Misaligned);
    assert_eq!(parse_index_frame(&[0u8; 9]).unwrap_err(), ParseError::Misaligned);
}

#[test]
fn unrecognized_index_code_is_kept() {
    let payload = index_entry(99, 1, 4, 8);
    let entries = parse_index_frame(&payload).unwrap();
    assert_eq!(entries[0].frame_type, FrameType::Unrecognized(99));
}

#[test]
fn hemisphere_signs() {
    let data = encode_record(GpsLayout::Timestamp64, &fix(10, 33.5, b'S', 151.25, b'W'));
    let r = parse_gps_record(GpsLayout::Timestamp64, &data, 0).unwrap();
    assert_eq!(f64::from_bits(r.latitude_bits), -33.5);
    assert_eq!(f64::from_bits(r.longitude_bits), -151.25);
    let data = encode_record(GpsLayout::Timestamp64, &fix(10, 33.5, b'N', 151.25, b'E'));
    let r = parse_gps_record(GpsLayout::Timestamp64, &data, 0).unwrap();
    assert_eq!(f64::from_bits(r.latitude_bits), 33.5);
    assert_eq!(f64::from_bits(r.longitude_bits), 151.25);
    assert_eq!(r.speed_bits, bits(1.5));
    assert_eq!(r.track_bits, bits(90.25));
    assert_eq!(r.altitude_bits, bits(120.0));
}

#[test]
fn invalid_hemisphere_rejected() {
    let data = encode_record(GpsLayout::Timestamp64, &fix(10, 33.5, b'X', 151.25, b'E'));
    assert_eq!(parse_gps_record(GpsLayout::Timestamp64, &data, 0), Err(ParseError::InvalidHemisphereCode));
    // A record is never built from fewer than 53 bytes.
    let good = encode_record(GpsLayout::Timestamp32, &fix(10, 33.5, b'N', 151.25, b'E'));
    assert_eq!(parse_gps_record(GpsLayout::Timestamp32, &good[..52], 0), Err(ParseError::IncompleteRecord));
    assert_eq!(parse_gps_record(GpsLayout::Timestamp64, &good, 1), Err(ParseError::IncompleteRecord));
    assert_eq!(parse_gps_record(GpsLayout::Timestamp64, &good, 60), Err(ParseError::IncompleteRecord));
    let data = encode_record(GpsLayout::Timestamp64, &fix(10, 33.5, b'N', 151.25, b'n'));
    assert_eq!(parse_gps_frame(GpsLayout::Timestamp64, &data).unwrap_err(), ParseError::InvalidHemisphereCode);
}

#[test]
fn incomplete_gps_payload_rejected() {
    let mut data = encode_record(GpsLayout::Timestamp64, &fix(10, 1.0, b'N', 2.0, b'E'));
    data.push(0);
    assert_eq!(parse_gps_frame(GpsLayout::Timestamp64, &data).unwrap_err(), ParseError::IncompleteRecord);
    assert_eq!(parse_gps_frame(GpsLayout::Timestamp64, &data[..52]).unwrap_err(), ParseError::IncompleteRecord);
    // A bad hemisphere byte in the first record does not hide the partial tail.
    let mut bad = encode_record(GpsLayout::Timestamp64, &fix(10, 1.0, b'Q', 2.0, b'E'));
    bad.extend_from_slice(&[0; 20]);
    assert_eq!(parse_gps_frame(GpsLayout::Timestamp64, &bad).unwrap_err(), ParseError::IncompleteRecord);
}

#[test]
fn gps_record_count_and_order() {
    assert_eq!(parse_gps_frame(GpsLayout::Timestamp64, &[]).unwrap().len(), 0);
    let mut data = Vec::new();
    for k in 0..5u64 {
        data.extend(encode_record(GpsLayout::Timestamp64, &fix(1_000_000_000_000 + k, k as f64, b'N', 2.0, b'E')));
    }
    let records = parse_gps_frame(GpsLayout::Timestamp64, &data).unwrap();
    assert_eq!(records.len(), 5);
    for (k, r) in records.iter().enumerate() {
        assert_eq!(r.timestamp, 1_000_000_000_000 + k as u64);
        assert_eq!(r.latitude_bits, bits(k as f64));
    }
}

#[test]
fn trailer_decoding() {
    let mut bytes = vec![0u8; 10];
    bytes.extend(trailer72(4321, -7));
    let t = header_parser(TrailerLayout::SixDescriptors, &bytes).unwrap();
    assert_eq!(t.version, -7);
    assert_eq!(t.metadata_total_size, 4321);
    assert_eq!(t.descriptors.len(), 6);
    assert_eq!(t.descriptors[0], Descriptor { id: 1, size: 1000 });
    assert_eq!(t.descriptors[5], Descriptor { id: 6, size: 4321 });
    assert_eq!(t.signature, SIG.to_vec());
    assert_eq!(parse_trailer_metadata(&bytes, 16), Ok(Descriptor { id: 2, size: 2000 }));
    assert_eq!(parse_trailer_metadata(&bytes[..21], 16), Err(ParseError::Truncated));
    assert_eq!(parse_trailer_metadata(&bytes, bytes.len() - 5), Err(ParseError::Truncated));
    assert_eq!(parse_trailer_metadata(&bytes, bytes.len() + 1), Err(ParseError::Truncated));

    let mut seven = footer(1, 0, 20);
    seven.extend(trailer72(4321, 1));
    let t = header_parser(TrailerLayout::SevenDescriptors, &seven).unwrap();
    assert_eq!(t.descriptors.len(), 7);
    assert_eq!(t.descriptors[0], Descriptor { id: 0x0001, size: 20 });
    assert_eq!(t.metadata_total_size, 4321);
}

#[test]
fn trailer_errors() {
    let good = trailer72(100, 1);
    assert_eq!(header_parser(TrailerLayout::SevenDescriptors, &good).unwrap_err(), ParseError::Truncated);
    assert_eq!(header_parser(TrailerLayout::SixDescriptors, &good[1..]).unwrap_err(), ParseError::Truncated);
    for byte in 40..72 {
        let mut bad = good.clone();
        bad[byte] ^= 0x01;
        assert_eq!(header_parser(TrailerLayout::SixDescriptors, &bad).unwrap_err(), ParseError::BadSignature);
    }
    assert_eq!(signature_bytes(), SIG.to_vec());
}

#[test]
fn anchor_and_walk_steps() {
    assert_eq!(metadata_anchor(1000, 300), Ok(700));
    assert_eq!(metadata_anchor(1000, 1000), Ok(0));
    assert_eq!(metadata_anchor(1000, 1001), Err(ParseError::OutOfBounds));
    assert_eq!(metadata_anchor(1000, 0), Err(ParseError::OutOfBounds));
    assert_eq!(index_footer_start(1000), Ok(922));
    assert_eq!(index_footer_start(78), Ok(0));
    assert_eq!(index_footer_start(77), Err(ParseError::Truncated));
    let index = FrameFooter { frame_version: 1, frame_type: FrameType::Index, frame_size: 20 };
    assert_eq!(index_payload_start(922, &index), Ok(902));
    let gyro = FrameFooter { frame_version: 1, frame_type: FrameType::Gyro, frame_size: 20 };
    assert_eq!(index_payload_start(922, &gyro), Err(ParseError::UnexpectedFrameType));
    let negative = FrameFooter { frame_version: 1, frame_type: FrameType::Index, frame_size: -1 };
    assert_eq!(index_payload_start(922, &negative), Err(ParseError::OutOfBounds));
    let huge = FrameFooter { frame_version: 1, frame_type: FrameType::Index, frame_size: 923 };
    assert_eq!(index_payload_start(922, &huge), Err(ParseError::OutOfBounds));
}

#[test]
fn resolving_frames() {
    let entries = vec![
        IndexEntry { frame_version: 1, frame_type: FrameType::Gps, frame_size: 100, frame_offset: 0 },
        IndexEntry { frame_version: 1, frame_type: FrameType::Unrecognized(99), frame_size: 50, frame_offset: 100 },
    ];
    let frames = resolve_frames(1000, 850, &entries).unwrap();
    assert_eq!(
        frames,
        vec![
            ResolvedFrame { frame_type: FrameType::Gps, frame_version: 1, offset: 850, size: 100 },
            ResolvedFrame { frame_type: FrameType::Unrecognized(99), frame_version: 1, offset: 950, size: 50 },
        ]
    );
    assert_eq!(resolve_frames(999, 850, &entries).unwrap_err(), ParseError::OutOfBounds);
    let far = vec![IndexEntry { frame_version: 1, frame_type: FrameType::Gyro, frame_size: 1, frame_offset: u32::MAX }];
    assert_eq!(resolve_frames(1000, 850, &far).unwrap_err(), ParseError::OutOfBounds);
}

#[test]
fn dispatch_skips_other_frames() {
    let gps = encode_record(GpsLayout::Timestamp64, &fix(5, 1.0, b'N', 2.0, b'E'));
    let mut file = gps.clone();
    file.extend_from_slice(&[0u8; 7]);
    let frames = vec![
        ResolvedFrame { frame_type: FrameType::Unrecognized(99), frame_version: 1, offset: 53, size: 7 },
        ResolvedFrame { frame_type: FrameType::Gps, frame_version: 1, offset: 0, size: 53 },
        ResolvedFrame { frame_type: FrameType::Gyro, frame_version: 1, offset: 50, size: 10 },
    ];
    let records = decode_gps_frames(GpsLayout::Timestamp64, &file, &frames).unwrap();
    assert_eq!(records.len(), 1);
    assert_eq!(records[0].timestamp, 5);
    let outside = vec![ResolvedFrame { frame_type: FrameType::Gps, frame_version: 1, offset: 10, size: 53 }];
    assert_eq!(decode_gps_frames(GpsLayout::Timestamp64, &file, &outside).unwrap_err(), ParseError::OutOfBounds);
}

#[test]
fn synthetic_file_round_trip() {
    let fixes = [
        fix(1752824362, 49.25853492931603, b'N', 4.03079459928793, b'E'),
        fix(1752824363, 12.5, b'S', 77.0, b'W'),
        fix(1752824364, 0.25, b'N', 8.0, b'W'),
    ];
    let mut gps = Vec::new();
    for f in &fixes {
        gps.extend(encode_record(GpsLayout::Timestamp64, f));
    }
    let file = synthetic_file(17, &gps, 3);
    for layout in [TrailerLayout::SixDescriptors, TrailerLayout::SevenDescriptors] {
        let records = extract_gps(layout, GpsLayout::Timestamp64, &file).unwrap();
        let expected: Vec<GpsRecord> = fixes
            .iter()
            .map(|f| GpsRecord {
                timestamp: f.timestamp,
                latitude_bits: bits(if f.north_south == b'S' { -f.latitude } else { f.latitude }),
                longitude_bits: bits(if f.east_west == b'W' { -f.longitude } else { f.longitude }),
                speed_bits: bits(f.speed),
                track_bits: bits(f.track),
                altitude_bits: bits(f.altitude),
            })
            .collect();
        assert_eq!(records, expected);
    }
}

#[test]
fn unrecognized_frame_code_does_not_abort() {
    let gps = encode_record(GpsLayout::Timestamp64, &fix(9, 1.0, b'N', 2.0, b'E'));
    let file = synthetic_file(3, &gps, 99);
    let records = extract_gps(TrailerLayout::SevenDescriptors, GpsLayout::Timestamp64, &file).unwrap();
    assert_eq!(records.len(), 1);
    assert_eq!(records[0].timestamp, 9);
}

#[test]
fn bad_signature_stops_extraction() {
    let gps = encode_record(GpsLayout::Timestamp64, &fix(9, 1.0, b'N', 2.0, b'E'));
    let mut file = synthetic_file(3, &gps, 3);
    let last = file.len() - 1;
    file[last] ^= 0x80;
    assert_eq!(
        extract_gps(TrailerLayout::SevenDescriptors, GpsLayout::Timestamp64, &file).unwrap_err(),
        ParseError::BadSignature
    );
    assert_eq!(
        extract_gps(TrailerLayout::SevenDescriptors, GpsLayout::Timestamp64, &file[..50]).unwrap_err(),
        ParseError::Truncated
    );
}

#[test]
fn extraction_errors() {
    let gps = encode_record(GpsLayout::Timestamp64, &fix(9, 1.0, b'N', 2.0, b'E'));
    // The frame before the trailer is not the index frame.
    let mut file = synthetic_file(3, &gps, 3);
    let footer_type = file.len() - 78 + 1;
    file[footer_type] = 7;
    assert_eq!(
        extract_gps(TrailerLayout::SixDescriptors, GpsLayout::Timestamp64, &file).unwrap_err(),
        ParseError::UnexpectedFrameType
    );
    // The metadata block is said to be longer than the file.
    let mut file = vec![0u8; 10];
    file.extend(footer(1, 0, 0));
    file.extend(trailer72(10_000, 1));
    assert_eq!(
        extract_gps(TrailerLayout::SixDescriptors, GpsLayout::Timestamp64, &file).unwrap_err(),
        ParseError::OutOfBounds
    );
    // An index payload of 7 bytes.
    let mut file = vec![0u8; 7];
    file.extend(footer(1, 0, 7));
    file.extend(trailer72(85, 1));
    assert_eq!(
        extract_gps(TrailerLayout::SixDescriptors, GpsLayout::Timestamp64, &file).unwrap_err(),
        ParseError::Misaligned
    );
    // A GPS payload one byte short of a record.
    let file = synthetic_file(3, &gps[..52], 3);
    assert_eq!(
        extract_gps(TrailerLayout::SixDescriptors, GpsLayout::Timestamp64, &file).unwrap_err(),
        ParseError::IncompleteRecord
    );
}

#[test]
fn gps_frame_after_other_frames() {
    let other = vec![0x33u8; 25];
    let gps = encode_record(GpsLayout::Timestamp64, &fix(77, 3.0, b'S', 4.0, b'E'));
    let mut file = vec![0x5Au8; 9];
    file.extend_from_slice(&other);
    file.extend_from_slice(&gps);
    let index = index_entry(7, 1, gps.len() as u32, other.len() as u32);
    file.extend_from_slice(&index);
    file.extend(footer(1, 0, index.len() as i32));
    let total = (other.len() + gps.len() + index.len() + 6 + 72) as u32;
    file.extend(trailer72(total, 3));
    let records = extract_gps(TrailerLayout::SixDescriptors, GpsLayout::Timestamp64, &file).unwrap();
    assert_eq!(records.len(), 1);
    assert_eq!(records[0].timestamp, 77);
    assert_eq!(f64::from_bits(records[0].latitude_bits), -3.0);
}
