//! Publishing pre-encoded H.264 over WebRTC without encoding it again.
//!
//! * [`annex_b`] and [`access_unit`] cut an Annex-B byte stream into NAL units
//!   and access units.
//! * [`publisher`] stamps access units with times and decides the steps of a
//!   publishing session.
//! * [`video_source`] holds the video sources.  A source decides which calls
//!   the platform has to make and in which order; it hands them out as values,
//!   and the host performs them.

pub mod access_unit;
pub mod annex_b;
pub mod passthrough_h264_encoder;
pub mod publisher;
pub mod text;
pub mod video_frame;
pub mod video_source;
