//! The sources of the native platform: raw frames, and pre-encoded H.264.

use crate::passthrough_h264_encoder::EncodedFrame;
use crate::text::{decimal, push_decimal};
use crate::video_frame::{DummyBuffer, I420Buffer, VideoFrame, VideoRotation};
use crate::video_source::VideoResolution;
use std::sync::Arc;
use vstd::prelude::*;
use vstd::string::*;

verus! {

/// A source of raw frames.
pub struct NativeVideoSource {
    made_for: VideoResolution,
}

/// The host is to hand `frame` to the platform's source.
pub struct CaptureCall<'a, T> {
    pub frame: &'a VideoFrame<T>,
}

impl Clone for NativeVideoSource {
    /// Another handle on the same source.
    fn clone(&self) -> (copy: Self)
        ensures
            copy == *self,
    {
        NativeVideoSource { made_for: self.made_for }
    }
}

impl Default for NativeVideoSource {
    /// A source of the default resolution.
    fn default() -> (source: Self)
        ensures
            source.made_for() == (VideoResolution { width: 1280, height: 720 }),
    {
        NativeVideoSource::new(VideoResolution::default())
    }
}

impl NativeVideoSource {
    /// The resolution that the source was made for.
    pub closed spec fn made_for(&self) -> VideoResolution {
        self.made_for
    }

    /// The source as debugging output shows it.
    pub open spec fn debug_text(&self) -> Seq<char> {
        "NativeVideoSource"@
    }

    /// A source for frames of `resolution`.  The host makes the call of
    /// [`NativeVideoSource::setup_call`], once, before it captures anything;
    /// [`NativeVideoSource::create`] gives the two together.
    pub fn new(resolution: VideoResolution) -> (source: Self)
        ensures
            source.made_for() == resolution,
    {
        NativeVideoSource { made_for: resolution }
    }

    /// A source for frames of `resolution`, and the call that makes the
    /// platform's source behind it.
    #[must_use]
    pub fn create<'a>(resolution: VideoResolution) -> (created: (Self, SourceCall<'a>))
        ensures
            created.0.made_for() == resolution,
            created.1@ == (SourceStep::NewNativeSource { resolution }),
            created.1 is NewNativeSource && created.1->resolution == resolution,
    {
        let source = NativeVideoSource::new(resolution);
        let call = source.setup_call();
        (source, call)
    }

    /// The call that makes the platform's source.
    pub fn setup_call<'a>(&self) -> (call: SourceCall<'a>)
        ensures
            call@ == (SourceStep::NewNativeSource { resolution: self.made_for() }),
            call is NewNativeSource && call->resolution == self.made_for(),
    {
        SourceCall::NewNativeSource { resolution: self.made_for }
    }

    /// Captures a frame: it goes to the platform's source as it is.
    pub fn capture_frame<'a, T>(&self, frame: &'a VideoFrame<T>) -> (call: CaptureCall<'a, T>)
        ensures
            *call.frame == *frame,
    {
        CaptureCall { frame }
    }

    /// The resolution of the source, when the platform's source says that it
    /// is `reported`.  The host asks the platform each time; what the source
    /// was made for does not count.
    pub fn video_resolution(&self, reported: VideoResolution) -> (resolution: VideoResolution)
        ensures
            resolution == reported,
    {
        reported
    }

    /// The source as debugging output shows it.
    pub fn debug_string(&self) -> (text: String)
        ensures
            text@ == self.debug_text(),
            text@ == "NativeVideoSource"@,
    {
        "NativeVideoSource".to_owned()
    }
}

/// A call that the host makes for an [`EncodedH264VideoSource`].
pub enum SourceCall<'a> {
    /// Make the platform's source of raw frames.
    NewNativeSource { resolution: VideoResolution },
    /// Make the queue that carries the encoded frames of this source.
    NewFrameQueue,
    /// Register the queue of this source, so that the next H.264 encoder
    /// passes its frames through.
    RegisterFrameQueue,
    /// Make the platform's buffer for the dummy frames.
    NewDummyBuffer { buffer: I420Buffer },
    /// Put an access unit into the queue of this source.
    PushEncodedFrame { encoded: EncodedFrame<'a> },
    /// Take the lock of the platform's buffer for the dummy frames.
    LockDummyBuffer,
    /// Capture a dummy frame on the source of raw frames, with the pixels of
    /// the locked buffer.
    CaptureFrame { native_source: &'a NativeVideoSource, frame: VideoFrame<&'a DummyBuffer> },
    /// Let go of that lock.
    UnlockDummyBuffer,
    /// Clear the registered queue.
    UnregisterFrameQueue,
}

/// What a [`SourceCall`] asks for, with the bytes of an access unit as a
/// sequence.
pub enum SourceStep {
    NewNativeSource { resolution: VideoResolution },
    NewFrameQueue,
    RegisterFrameQueue,
    NewDummyBuffer { buffer: I420Buffer },
    PushEncodedFrame {
        data: Seq<u8>,
        timestamp_us: i64,
        is_keyframe: bool,
        width: u32,
        height: u32,
    },
    LockDummyBuffer,
    CaptureFrame {
        native_source: NativeVideoSource,
        rotation: VideoRotation,
        timestamp_us: i64,
        dummy_buffer: DummyBuffer,
    },
    UnlockDummyBuffer,
    UnregisterFrameQueue,
}

impl<'a> View for SourceCall<'a> {
    type V = SourceStep;

    open spec fn view(&self) -> SourceStep {
        match *self {
            SourceCall::NewNativeSource { resolution } => SourceStep::NewNativeSource {
                resolution,
            },
            SourceCall::NewFrameQueue => SourceStep::NewFrameQueue,
            SourceCall::RegisterFrameQueue => SourceStep::RegisterFrameQueue,
            SourceCall::NewDummyBuffer { buffer } => SourceStep::NewDummyBuffer { buffer },
            SourceCall::PushEncodedFrame { encoded } => SourceStep::PushEncodedFrame {
                data: encoded.data@,
                timestamp_us: encoded.timestamp_us,
                is_keyframe: encoded.is_keyframe,
                width: encoded.width,
                height: encoded.height,
            },
            SourceCall::LockDummyBuffer => SourceStep::LockDummyBuffer,
            SourceCall::CaptureFrame { native_source, frame } => SourceStep::CaptureFrame {
                native_source: *native_source,
                rotation: frame.rotation,
                timestamp_us: frame.timestamp_us,
                dummy_buffer: *frame.buffer,
            },
            SourceCall::UnlockDummyBuffer => SourceStep::UnlockDummyBuffer,
            SourceCall::UnregisterFrameQueue => SourceStep::UnregisterFrameQueue,
        }
    }
}

/// What a list of calls asks for.
pub open spec fn steps_of(calls: Seq<SourceCall<'_>>) -> Seq<SourceStep> {
    calls.map_values(|call: SourceCall<'_>| call@)
}

/// The steps that bring a source to life, in order.
pub open spec fn setup_steps(resolution: VideoResolution) -> Seq<SourceStep> {
    seq![
        SourceStep::NewNativeSource { resolution },
        SourceStep::NewFrameQueue,
        SourceStep::RegisterFrameQueue,
        SourceStep::NewDummyBuffer {
            buffer: I420Buffer { width: resolution.width, height: resolution.height },
        },
    ]
}

/// The steps that publish one access unit to `source`, in order.  The dummy
/// frame makes the encoder run, which takes the access unit out of the queue.
pub open spec fn push_steps(
    source: EncodedH264VideoSource,
    data: Seq<u8>,
    timestamp_us: i64,
    is_keyframe: bool,
) -> Seq<SourceStep> {
    seq![
        SourceStep::PushEncodedFrame {
            data,
            timestamp_us,
            is_keyframe,
            width: source.resolution().width,
            height: source.resolution().height,
        },
        SourceStep::LockDummyBuffer,
        SourceStep::CaptureFrame {
            native_source: source.native(),
            rotation: VideoRotation::VideoRotation0,
            timestamp_us,
            dummy_buffer: source.dummy_buffer(),
        },
        SourceStep::UnlockDummyBuffer,
    ]
}

/// The step that dropping a handle on a source asks for.
pub open spec fn drop_step(is_last: bool) -> Option<SourceStep> {
    if is_last {
        Some(SourceStep::UnregisterFrameQueue)
    } else {
        None
    }
}

/// What an optional call asks for.
pub open spec fn step_of(call: Option<SourceCall<'_>>) -> Option<SourceStep> {
    match call {
        Some(call) => Some(call@),
        None => None,
    }
}

struct EncodedH264State {
    native_source: NativeVideoSource,
    width: u32,
    height: u32,
    dummy_buffer: DummyBuffer,
}

/// A video source that accepts pre-encoded H.264 access units and publishes
/// them over WebRTC without re-encoding.
///
/// It has a [`NativeVideoSource`], which feeds dummy raw frames to keep the
/// encoder pipeline alive, and a queue that carries the real encoded data.
/// Clones are handles on one source; the host lets go of each handle through
/// [`EncodedH264VideoSource::drop_call`].
pub struct EncodedH264VideoSource {
    state: Arc<EncodedH264State>,
}

/// What a dropped handle let go of: the state of its source, if it was the last
/// handle on it.
pub struct Released {
    state: Option<EncodedH264State>,
}

impl Released {
    /// The handle was the last one on its source.
    pub closed spec fn is_last(&self) -> bool {
        self.state is Some
    }

    /// The state that was let go of is the one of `source`.
    pub closed spec fn is_state_of(&self, source: EncodedH264VideoSource) -> bool {
        self.state == Some(*source.state)
    }

    /// Nothing was let go of.
    pub fn nothing() -> (released: Self)
        ensures
            !released.is_last(),
    {
        Released { state: None }
    }

    /// Whether the handle was the last one on its source.
    pub fn was_last(&self) -> (last: bool)
        ensures
            last == self.is_last(),
    {
        self.state.is_some()
    }
}

/// What became of a handle that was dropped.
pub struct Dropped<'a> {
    /// The call that the host is to make.
    pub call: Option<SourceCall<'a>>,
    /// What the handle let go of.
    pub released: Released,
}

/// Calls `std::sync::Arc::into_inner`, which drops the pointer and gives the
/// state to the caller if no other pointer was left.  Whether that is so is up
/// to the other threads, and not part of the contract; nor is that, of the
/// calls on all pointers to one state, exactly one gets it.
#[verifier::external_body]
fn take_state(state: Arc<EncodedH264State>) -> (taken: Option<EncodedH264State>)
    ensures
        taken matches Some(inner) ==> inner == *state,
{
    Arc::into_inner(state)
}

impl Clone for EncodedH264VideoSource {
    /// Another handle on the same source.
    fn clone(&self) -> (copy: Self)
        ensures
            copy == *self,
    {
        proof {
            use_type_invariant(self);
        }
        EncodedH264VideoSource { state: self.state.clone() }
    }
}

impl EncodedH264VideoSource {
    #[verifier::type_invariant]
    spec fn is_consistent(self) -> bool {
        &&& self.state.native_source.made_for() == self.resolution()
        &&& self.state.dummy_buffer@ == (I420Buffer {
            width: self.state.width,
            height: self.state.height,
        })
    }

    /// The resolution that the source was made for.
    pub closed spec fn resolution(&self) -> VideoResolution {
        VideoResolution { width: self.state.width, height: self.state.height }
    }

    /// The source of raw frames behind this one.
    pub closed spec fn native(&self) -> NativeVideoSource {
        self.state.native_source
    }

    /// The buffer of the dummy frames.
    pub closed spec fn dummy_buffer(&self) -> DummyBuffer {
        self.state.dummy_buffer
    }

    /// The source as debugging output shows it.
    pub open spec fn debug_text(&self) -> Seq<char> {
        "EncodedH264VideoSource { width: "@ + decimal(self.resolution().width as nat)
            + ", height: "@ + decimal(self.resolution().height as nat) + " }"@
    }

    /// The source as pretty debugging output shows it: a line for each field,
    /// and `indent` in front of every line but the first.
    pub open spec fn pretty_debug_text(&self, indent: Seq<char>) -> Seq<char> {
        "EncodedH264VideoSource {\n"@ + indent + "    width: "@ + decimal(
            self.resolution().width as nat,
        ) + ",\n"@ + indent + "    height: "@ + decimal(self.resolution().height as nat) + ",\n"@
            + indent + "}"@
    }

    /// A source for pictures of `resolution`.  The host makes the calls of
    /// [`EncodedH264VideoSource::setup_calls`], once, before it pushes
    /// anything; [`EncodedH264VideoSource::create`] gives the two together.
    pub fn new(resolution: VideoResolution) -> (source: Self)
        ensures
            source.resolution() == resolution,
            source.native().made_for() == resolution,
            source.dummy_buffer()@ == (I420Buffer {
                width: resolution.width,
                height: resolution.height,
            }),
    {
        let native_source = NativeVideoSource::new(resolution);
        let dummy_buffer = DummyBuffer::new(I420Buffer::new(resolution.width, resolution.height));
        EncodedH264VideoSource {
            state: Arc::new(
                EncodedH264State {
                    native_source,
                    width: resolution.width,
                    height: resolution.height,
                    dummy_buffer,
                },
            ),
        }
    }

    /// A source for pictures of `resolution`, and the calls that bring it to
    /// life, in order.
    #[must_use]
    pub fn create<'a>(resolution: VideoResolution) -> (created: (Self, Vec<SourceCall<'a>>))
        ensures
            created.0.resolution() == resolution,
            created.0.native().made_for() == resolution,
            created.0.dummy_buffer()@ == (I420Buffer {
                width: resolution.width,
                height: resolution.height,
            }),
            steps_of(created.1@) == setup_steps(resolution),
            created.1@.len() == 4,
            created.1@[0] is NewNativeSource && created.1@[0]->resolution == resolution,
            created.1@[1] is NewFrameQueue,
            created.1@[2] is RegisterFrameQueue,
            created.1@[3] is NewDummyBuffer && created.1@[3]->buffer.width == resolution.width
                && created.1@[3]->buffer.height == resolution.height,
    {
        let source = EncodedH264VideoSource::new(resolution);
        let calls = source.setup_calls();
        (source, calls)
    }

    /// The calls that bring the source to life, in order.
    pub fn setup_calls<'a>(&self) -> (calls: Vec<SourceCall<'a>>)
        ensures
            steps_of(calls@) == setup_steps(self.resolution()),
            calls@.len() == 4,
            calls@[0] is NewNativeSource && calls@[0]->resolution == self.resolution(),
            calls@[1] is NewFrameQueue,
            calls@[2] is RegisterFrameQueue,
            calls@[3] is NewDummyBuffer && calls@[3]->buffer.width == self.resolution().width
                && calls@[3]->buffer.height == self.resolution().height,
    {
        proof {
            use_type_invariant(self);
        }
        let mut calls: Vec<SourceCall<'a>> = Vec::new();
        calls.push(self.state.native_source.setup_call());
        calls.push(SourceCall::NewFrameQueue);
        calls.push(SourceCall::RegisterFrameQueue);
        calls.push(
            SourceCall::NewDummyBuffer {
                buffer: self.state.dummy_buffer.shape(),
            },
        );
        assert(steps_of(calls@) == setup_steps(self.resolution()));
        calls
    }

    /// Pushes an Annex-B framed H.264 access unit.  The data must contain
    /// start-code delimited NALs (e.g. `00 00 00 01 <SPS> 00 00 00 01 <PPS>
    /// 00 00 00 01 <IDR>`).  Gives the calls that do it, in order.
    pub fn push_encoded_frame<'a>(
        &'a self,
        data: &'a [u8],
        timestamp_us: i64,
        is_keyframe: bool,
    ) -> (calls: Vec<SourceCall<'a>>)
        ensures
            steps_of(calls@) == push_steps(*self, data@, timestamp_us, is_keyframe),
            calls@.len() == 4,
            calls@[0] is PushEncodedFrame,
            calls@[0]->encoded.data@ == data@,
            calls@[0]->encoded.timestamp_us == timestamp_us,
            calls@[0]->encoded.is_keyframe == is_keyframe,
            calls@[0]->encoded.width == self.resolution().width,
            calls@[0]->encoded.height == self.resolution().height,
            calls@[1] is LockDummyBuffer,
            calls@[2] is CaptureFrame,
            *calls@[2]->native_source == self.native(),
            calls@[2]->frame.rotation == VideoRotation::VideoRotation0,
            calls@[2]->frame.timestamp_us == timestamp_us,
            *calls@[2]->frame.buffer == self.dummy_buffer(),
            calls@[3] is UnlockDummyBuffer,
            self.native().made_for() == self.resolution(),
            self.dummy_buffer()@ == (I420Buffer {
                width: self.resolution().width,
                height: self.resolution().height,
            }),
    {
        proof {
            use_type_invariant(self);
        }
        let mut calls: Vec<SourceCall<'a>> = Vec::new();
        calls.push(
            SourceCall::PushEncodedFrame {
                encoded: EncodedFrame {
                    data,
                    timestamp_us,
                    is_keyframe,
                    width: self.state.width,
                    height: self.state.height,
                },
            },
        );
        calls.push(SourceCall::LockDummyBuffer);
        calls.push(
            SourceCall::CaptureFrame {
                native_source: &self.state.native_source,
                frame: VideoFrame {
                    rotation: VideoRotation::VideoRotation0,
                    timestamp_us,
                    buffer: &self.state.dummy_buffer,
                },
            },
        );
        calls.push(SourceCall::UnlockDummyBuffer);
        assert(steps_of(calls@) == push_steps(*self, data@, timestamp_us, is_keyframe));
        calls
    }

    /// The resolution that the source was made for.
    pub fn video_resolution(&self) -> (resolution: VideoResolution)
        ensures
            resolution == self.resolution(),
    {
        VideoResolution { width: self.state.width, height: self.state.height }
    }

    /// The underlying [`NativeVideoSource`] that backs this encoded source
    /// (needed for creating a WebRTC track).
    pub fn native_source(&self) -> (source: &NativeVideoSource)
        ensures
            *source == self.native(),
            source.made_for() == self.resolution(),
    {
        proof {
            use_type_invariant(self);
        }
        &self.state.native_source
    }

    /// The call that dropping a handle asks for, if it was the last handle on
    /// its source and if it was not.  A queue that stayed registered would
    /// capture encoders that are made later for other tracks.
    pub fn drop_call_for<'a>(is_last: bool) -> (call: Option<SourceCall<'a>>)
        ensures
            step_of(call) == drop_step(is_last),
            call is Some <==> is_last,
            call matches Some(c) ==> c is UnregisterFrameQueue,
    {
        if is_last {
            Some(SourceCall::UnregisterFrameQueue)
        } else {
            None
        }
    }

    /// Drops this handle and gives the call that this asks for.  However many
    /// threads drop handles on one source at once, one of them is the last,
    /// and only its drop gets hold of the state and asks for a call.
    #[must_use]
    pub fn drop_call<'a>(self) -> (dropped: Dropped<'a>)
        ensures
            step_of(dropped.call) == drop_step(dropped.released.is_last()),
            dropped.released.is_last() ==> dropped.released.is_state_of(self),
            dropped.call is Some <==> dropped.released.is_last(),
            dropped.call matches Some(c) ==> c is UnregisterFrameQueue,
    {
        let released = Released { state: take_state(self.state) };
        let call = Self::drop_call_for(released.was_last());
        Dropped { call, released }
    }

    /// The source as debugging output shows it.
    pub fn debug_string(&self) -> (text: String)
        ensures
            text@ == self.debug_text(),
            text@ == "EncodedH264VideoSource { width: "@ + decimal(self.resolution().width as nat)
                + ", height: "@ + decimal(self.resolution().height as nat) + " }"@,
    {
        let mut text = "EncodedH264VideoSource { width: ".to_owned();
        push_decimal(&mut text, self.state.width);
        text.append(", height: ");
        push_decimal(&mut text, self.state.height);
        text.append(" }");
        text
    }

    /// The source as pretty debugging output shows it, on lines that start
    /// with `indent` from the second on.
    pub fn pretty_debug_string(&self, indent: &str) -> (text: String)
        ensures
            text@ == self.pretty_debug_text(indent@),
            text@ == "EncodedH264VideoSource {\n"@ + indent@ + "    width: "@ + decimal(
                self.resolution().width as nat,
            ) + ",\n"@ + indent@ + "    height: "@ + decimal(self.resolution().height as nat)
                + ",\n"@ + indent@ + "}"@,
    {
        let mut text = "EncodedH264VideoSource {\n".to_owned();
        text.append(indent);
        text.append("    width: ");
        push_decimal(&mut text, self.state.width);
        text.append(",\n");
        text.append(indent);
        text.append("    height: ");
        push_decimal(&mut text, self.state.height);
        text.append(",\n");
        text.append(indent);
        text.append("}");
        text
    }
}

} // verus!
