//! Decoding of GPS frame payloads.

use vstd::prelude::*;
use crate::bytes::{le_at, read_le, read_u64_le};
use crate::error::ParseError;
use crate::layout::{GpsLayout, GPS_RECORD_SIZE};

verus! {

/// The sign bit of an IEEE-754 double's bit pattern.
pub const SIGN_BIT: u64 = 0x8000_0000_0000_0000;

/// Offsets of the fields inside one record.
pub const LATITUDE_AT: usize = 11;
pub const NORTH_SOUTH_AT: usize = 19;
pub const LONGITUDE_AT: usize = 20;
pub const EAST_WEST_AT: usize = 28;
pub const SPEED_AT: usize = 29;
pub const TRACK_AT: usize = 37;
pub const ALTITUDE_AT: usize = 45;

/// The hemisphere bytes: ASCII `N`, `S`, `E` and `W`.
pub const NORTH: u8 = 0x4E;
pub const SOUTH: u8 = 0x53;
pub const EAST: u8 = 0x45;
pub const WEST: u8 = 0x57;

/// One GPS fix. The five measurements are IEEE-754 doubles, held here as
/// their bit patterns: latitude and longitude in signed degrees, then speed,
/// track (degrees) and altitude (meters).
#[derive(Debug, Clone, Copy, PartialEq, Eq, Structural)]
pub struct GpsRecord {
    /// Seconds.
    pub timestamp: u64,
    pub latitude_bits: u64,
    pub longitude_bits: u64,
    pub speed_bits: u64,
    pub track_bits: u64,
    pub altitude_bits: u64,
}

/// The bit pattern of the negated double: its sign bit flipped.
pub open spec fn flip_sign(bits: u64) -> u64 {
    if bits >= SIGN_BIT {
        (bits - SIGN_BIT) as u64
    } else {
        (bits + SIGN_BIT) as u64
    }
}

/// Whether the double with this bit pattern has its sign bit set.
pub open spec fn sign_set(bits: u64) -> bool {
    bits >= SIGN_BIT
}

/// The bit pattern of a coordinate after the hemisphere rule: negated for
/// the southern or western hemisphere.
pub open spec fn signed_coordinate(raw: u64, negate: bool) -> u64 {
    if negate {
        flip_sign(raw)
    } else {
        raw
    }
}

/// Whether both hemisphere bytes of the record at `at` are valid.
pub open spec fn record_valid(s: Seq<u8>, at: int) -> bool {
    (s[at + 19] == NORTH || s[at + 19] == SOUTH) && (s[at + 28] == EAST || s[at + 28] == WEST)
}

/// Whether the hemisphere bytes of the `i`-th record of `s` are valid.
pub open spec fn nth_valid(s: Seq<u8>, i: int) -> bool {
    record_valid(s, 53 * i)
}

/// The record that the 53 bytes of `s` at `at` encode.
pub open spec fn record_at(layout: GpsLayout, s: Seq<u8>, at: int) -> GpsRecord {
    GpsRecord {
        timestamp: le_at(s, at, layout.spec_timestamp_width() as int) as u64,
        latitude_bits: signed_coordinate(le_at(s, at + 11, 8) as u64, s[at + 19] == SOUTH),
        longitude_bits: signed_coordinate(le_at(s, at + 20, 8) as u64, s[at + 28] == WEST),
        speed_bits: le_at(s, at + 29, 8) as u64,
        track_bits: le_at(s, at + 37, 8) as u64,
        altitude_bits: le_at(s, at + 45, 8) as u64,
    }
}

/// The outcome of decoding one record at `at`: fewer than 53 bytes there
/// are an incomplete record.
pub open spec fn spec_gps_record(layout: GpsLayout, s: Seq<u8>, at: int) -> Result<
    GpsRecord,
    ParseError,
> {
    if at + 53 > s.len() {
        Err(ParseError::IncompleteRecord)
    } else if record_valid(s, at) {
        Ok(record_at(layout, s, at))
    } else {
        Err(ParseError::InvalidHemisphereCode)
    }
}

/// The outcome of decoding a whole GPS payload.
pub open spec fn spec_gps_frame(layout: GpsLayout, s: Seq<u8>) -> Result<
    Seq<GpsRecord>,
    ParseError,
> {
    let n = s.len() / 53;
    if s.len() % 53 != 0 {
        Err(ParseError::IncompleteRecord)
    } else if exists|i: int| 0 <= i < n && !#[trigger] nth_valid(s, i) {
        Err(ParseError::InvalidHemisphereCode)
    } else {
        Ok(Seq::new(n, |i: int| record_at(layout, s, 53 * i)))
    }
}

fn apply_hemisphere(raw: u64, negate: bool) -> (r: u64)
    ensures
        r == signed_coordinate(raw, negate),
{
    if !negate {
        raw
    } else if raw >= SIGN_BIT {
        raw - SIGN_BIT
    } else {
        raw + SIGN_BIT
    }
}

/// Decodes the record of `layout` that starts at `start`; fails with
/// `IncompleteRecord` when fewer than 53 bytes are left there.
pub fn parse_gps_record(layout: GpsLayout, bytes: &[u8], start: usize) -> (r: Result<
    GpsRecord,
    ParseError,
>)
    ensures
        r == spec_gps_record(layout, bytes@, start as int),
        start + 53 > bytes@.len() ==> r == Err::<GpsRecord, ParseError>(
            ParseError::IncompleteRecord,
        ),
{
    let len = bytes.len();
    if start > len || len - start < GPS_RECORD_SIZE {
        return Err(ParseError::IncompleteRecord);
    }
    let north_south = bytes[start + NORTH_SOUTH_AT];
    let east_west = bytes[start + EAST_WEST_AT];
    if north_south != NORTH && north_south != SOUTH {
        return Err(ParseError::InvalidHemisphereCode);
    }
    if east_west != EAST && east_west != WEST {
        return Err(ParseError::InvalidHemisphereCode);
    }
    let timestamp = read_le(bytes, start, layout.timestamp_width());
    let latitude = read_u64_le(bytes, start + LATITUDE_AT);
    let longitude = read_u64_le(bytes, start + LONGITUDE_AT);
    Ok(
        GpsRecord {
            timestamp,
            latitude_bits: apply_hemisphere(latitude, north_south == SOUTH),
            longitude_bits: apply_hemisphere(longitude, east_west == WEST),
            speed_bits: read_u64_le(bytes, start + SPEED_AT),
            track_bits: read_u64_le(bytes, start + TRACK_AT),
            altitude_bits: read_u64_le(bytes, start + ALTITUDE_AT),
        },
    )
}

/// Decodes a GPS payload of `layout` into its records, in order. The payload
/// must be a whole number of records.
pub fn parse_gps_frame(layout: GpsLayout, payload: &[u8]) -> (r: Result<Vec<GpsRecord>, ParseError>)
    ensures
        match r {
            Ok(v) => spec_gps_frame(layout, payload@) == Ok::<Seq<GpsRecord>, ParseError>(v@),
            Err(e) => spec_gps_frame(layout, payload@) == Err::<Seq<GpsRecord>, ParseError>(e),
        },
{
    let len = payload.len();
    if len % GPS_RECORD_SIZE != 0 {
        return Err(ParseError::IncompleteRecord);
    }
    let n = len / GPS_RECORD_SIZE;
    let mut records: Vec<GpsRecord> = Vec::new();
    let mut i: usize = 0;
    while i < n
        invariant
            len == payload@.len(),
            n == len / 53,
            len % 53 == 0,
            i <= n,
            forall|k: int| 0 <= k < i ==> #[trigger] nth_valid(payload@, k),
            records@ =~= Seq::new(i as nat, |k: int| record_at(layout, payload@, 53 * k)),
        decreases n - i,
    {
        proof {
            assert(53 * i + 53 <= len) by (nonlinear_arith)
                requires
                    i < n,
                    n == len / 53,
                    len % 53 == 0,
            ;
        }
        match parse_gps_record(layout, payload, i * GPS_RECORD_SIZE) {
            Ok(record) => {
                records.push(record);
            },
            Err(e) => {
                assert(!nth_valid(payload@, i as int));
                assert(e == ParseError::InvalidHemisphereCode);
                return Err(e);
            },
        }
        i = i + 1;
    }
    Ok(records)
}

/// A payload whose length is not a whole number of records fails with
/// `IncompleteRecord`: no partial record is ever returned.
pub proof fn lemma_partial_record_rejected(layout: GpsLayout, payload: Seq<u8>)
    requires
        payload.len() % 53 != 0,
    ensures
        spec_gps_frame(layout, payload) == Err::<Seq<GpsRecord>, ParseError>(
            ParseError::IncompleteRecord,
        ),
{
}

/// Hemisphere sign law: in every record of a decoded payload, the latitude
/// has the sign bit of the stored latitude, flipped exactly when its
/// hemisphere byte is `S`; the longitude likewise with `W`. So where the
/// stored value has no sign bit, the decoded one is negative exactly for `S`
/// (latitude) or `W` (longitude).
pub proof fn lemma_hemisphere_sign(layout: GpsLayout, payload: Seq<u8>, i: int)
    requires
        spec_gps_frame(layout, payload) is Ok,
        0 <= i < payload.len() / 53,
    ensures
        ({
            let r = spec_gps_frame(layout, payload)->Ok_0[i];
            let at = 53 * i;
            let raw_lat = le_at(payload, at + 11, 8) as u64;
            let raw_lon = le_at(payload, at + 20, 8) as u64;
            &&& sign_set(r.latitude_bits) == (sign_set(raw_lat) != (payload[at + 19] == SOUTH))
            &&& sign_set(r.longitude_bits) == (sign_set(raw_lon) != (payload[at + 28] == WEST))
            &&& !sign_set(raw_lat) ==> (sign_set(r.latitude_bits) <==> payload[at + 19] == SOUTH)
            &&& !sign_set(raw_lon) ==> (sign_set(r.longitude_bits) <==> payload[at + 28] == WEST)
        }),
{
}

} // verus!
