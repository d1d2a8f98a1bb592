//! Decoding of the telemetry block that some action cameras append to their
//! video files: a trailer at the very end of the file locates an index frame,
//! and the index locates every other metadata frame (GPS among them).

pub mod bytes;
pub mod error;
pub mod frame_type;
pub mod layout;
pub mod gps;
pub mod footer;
pub mod index;
pub mod trailer;
pub mod resolver;
pub mod encoding;
