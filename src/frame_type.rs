//! The registry of frame type codes.

use vstd::prelude::*;

verus! {

/// The kind of a metadata frame. Codes that no known kind has map to
/// `Unrecognized`, which keeps the code: new firmware may add kinds.
#[derive(Debug, Clone, Copy, PartialEq, Eq, Structural)]
pub enum FrameType {
    Raw,
    Index,
    Info,
    Thumbnail,
    Gyro,
    Exposure,
    ThumbnailExt,
    Timelapse,
    Gps,
    StarNum,
    ThreeAInTimestamp,
    Anchors,
    ThreeASimulation,
    ExposureSecondary,
    Magnetic,
    Euler,
    GyroSecondary,
    Speed,
    Tbox,
    Editor,
    Heartrate,
    ForwardDirection,
    Upview,
    ShellRecognitionData,
    Pos,
    TimelapseQuat,
    Unrecognized(i8),
}

/// The frame type that a signed code stands for.
pub open spec fn frame_type_of(code: i8) -> FrameType {
    if code == -1 {
        FrameType::Raw
    } else if code == 0 {
        FrameType::Index
    } else if code == 1 {
        FrameType::Info
    } else if code == 2 {
        FrameType::Thumbnail
    } else if code == 3 {
        FrameType::Gyro
    } else if code == 4 {
        FrameType::Exposure
    } else if code == 5 {
        FrameType::ThumbnailExt
    } else if code == 6 {
        FrameType::Timelapse
    } else if code == 7 {
        FrameType::Gps
    } else if code == 8 {
        FrameType::StarNum
    } else if code == 9 {
        FrameType::ThreeAInTimestamp
    } else if code == 10 {
        FrameType::Anchors
    } else if code == 11 {
        FrameType::ThreeASimulation
    } else if code == 12 {
        FrameType::ExposureSecondary
    } else if code == 13 {
        FrameType::Magnetic
    } else if code == 14 {
        FrameType::Euler
    } else if code == 15 {
        FrameType::GyroSecondary
    } else if code == 16 {
        FrameType::Speed
    } else if code == 17 {
        FrameType::Tbox
    } else if code == 18 {
        FrameType::Editor
    } else if code == 19 {
        FrameType::Heartrate
    } else if code == 20 {
        FrameType::ForwardDirection
    } else if code == 21 {
        FrameType::Upview
    } else if code == 22 {
        FrameType::ShellRecognitionData
    } else if code == 23 {
        FrameType::Pos
    } else if code == 24 {
        FrameType::TimelapseQuat
    } else {
        FrameType::Unrecognized(code)
    }
}

/// Whether `code` is one of the known codes, `-1` to `24`.
pub open spec fn is_known_code(code: i8) -> bool {
    -1 <= code <= 24
}

impl FrameType {
    /// Maps a code to its frame type; total, never fails.
    pub fn from_code(code: i8) -> (r: FrameType)
        ensures
            r == frame_type_of(code),
            r is Unrecognized <==> !is_known_code(code),
    {
        match code {
            -1 => FrameType::Raw,
            0 => FrameType::Index,
            1 => FrameType::Info,
            2 => FrameType::Thumbnail,
            3 => FrameType::Gyro,
            4 => FrameType::Exposure,
            5 => FrameType::ThumbnailExt,
            6 => FrameType::Timelapse,
            7 => FrameType::Gps,
            8 => FrameType::StarNum,
            9 => FrameType::ThreeAInTimestamp,
            10 => FrameType::Anchors,
            11 => FrameType::ThreeASimulation,
            12 => FrameType::ExposureSecondary,
            13 => FrameType::Magnetic,
            14 => FrameType::Euler,
            15 => FrameType::GyroSecondary,
            16 => FrameType::Speed,
            17 => FrameType::Tbox,
            18 => FrameType::Editor,
            19 => FrameType::Heartrate,
            20 => FrameType::ForwardDirection,
            21 => FrameType::Upview,
            22 => FrameType::ShellRecognitionData,
            23 => FrameType::Pos,
            24 => FrameType::TimelapseQuat,
            _ => FrameType::Unrecognized(code),
        }
    }

    /// Whether frames of this type have a typed decoder here.
    pub fn is_gps(&self) -> (r: bool)
        ensures
            r <==> *self is Gps,
    {
        matches!(self, FrameType::Gps)
    }
}

} // verus!
