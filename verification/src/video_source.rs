//! Video sources.

pub mod laws;
pub mod native;

use crate::video_source::native::{
    drop_step, step_of, Dropped, EncodedH264VideoSource, NativeVideoSource, Released,
};
use vstd::prelude::*;
use vstd::string::*;

verus! {

/// The size of a picture in pixels.
#[derive(Debug, Clone, Copy, PartialEq, Eq, Structural)]
pub struct VideoResolution {
    pub width: u32,
    pub height: u32,
}

impl Default for VideoResolution {
    /// 720p.
    fn default() -> (resolution: Self)
        ensures
            resolution == (VideoResolution { width: 1280, height: 720 }),
    {
        VideoResolution { width: 1280, height: 720 }
    }
}

/// A source of video of any kind.
#[non_exhaustive]
pub enum RtcVideoSource {
    Native(NativeVideoSource),
    EncodedH264(EncodedH264VideoSource),
}

impl Clone for RtcVideoSource {
    /// Another handle on the same source.
    fn clone(&self) -> (copy: Self)
        ensures
            copy == *self,
    {
        match self {
            RtcVideoSource::Native(s) => RtcVideoSource::Native(s.clone()),
            RtcVideoSource::EncodedH264(s) => RtcVideoSource::EncodedH264(s.clone()),
        }
    }
}

impl RtcVideoSource {
    /// The resolution of the source.  A source of raw frames has the one that
    /// the platform's source behind it says, which is `reported`; a
    /// pre-encoded source knows its own.
    pub fn video_resolution(&self, reported: VideoResolution) -> (resolution: VideoResolution)
        ensures
            resolution == match self {
                RtcVideoSource::Native(_) => reported,
                RtcVideoSource::EncodedH264(s) => s.resolution(),
            },
    {
        match self {
            RtcVideoSource::Native(s) => s.video_resolution(reported),
            RtcVideoSource::EncodedH264(s) => s.video_resolution(),
        }
    }

    /// Drops this handle and gives the call that this asks for.
    #[must_use]
    pub fn drop_call<'a>(self) -> (dropped: Dropped<'a>)
        ensures
            step_of(dropped.call) == drop_step(dropped.released.is_last()),
            match self {
                RtcVideoSource::Native(_) => !dropped.released.is_last(),
                RtcVideoSource::EncodedH264(s) => dropped.released.is_last()
                    ==> dropped.released.is_state_of(s),
            },
            dropped.call is Some <==> dropped.released.is_last(),
            dropped.call matches Some(c) ==> c is UnregisterFrameQueue,
    {
        match self {
            RtcVideoSource::Native(_) => Dropped { call: None, released: Released::nothing() },
            RtcVideoSource::EncodedH264(s) => s.drop_call(),
        }
    }

    /// The source as debugging output shows it.
    pub fn debug_string(&self) -> (text: String)
        ensures
            text@ == match self {
                RtcVideoSource::Native(s) => "Native("@ + s.debug_text() + ")"@,
                RtcVideoSource::EncodedH264(s) => "EncodedH264("@ + s.debug_text() + ")"@,
            },
    {
        let (mut text, inner): (String, String) = match self {
            RtcVideoSource::Native(s) => ("Native(".to_owned(), s.debug_string()),
            RtcVideoSource::EncodedH264(s) => ("EncodedH264(".to_owned(), s.debug_string()),
        };
        text.append(inner.as_str());
        text.append(")");
        text
    }

    /// The source as pretty debugging output shows it.
    pub fn pretty_debug_string(&self) -> (text: String)
        ensures
            text@ == match self {
                RtcVideoSource::Native(s) => "Native(\n    "@ + s.debug_text() + ",\n)"@,
                RtcVideoSource::EncodedH264(s) => "EncodedH264(\n    "@ + s.pretty_debug_text(
                    "    "@,
                ) + ",\n)"@,
            },
    {
        let (mut text, inner): (String, String) = match self {
            RtcVideoSource::Native(s) => ("Native(\n    ".to_owned(), s.debug_string()),
            RtcVideoSource::EncodedH264(s) => (
                "EncodedH264(\n    ".to_owned(),
                s.pretty_debug_string("    "),
            ),
        };
        text.append(inner.as_str());
        text.append(",\n)");
        text
    }
}

} // verus!
