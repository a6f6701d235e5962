//! Raw video frames.

use parking_lot::{lock_api, Mutex, RawMutex};
use vstd::prelude::*;

verus! {

/// How far a frame has to be turned clockwise to stand upright.
#[derive(Debug, Clone, Copy, PartialEq, Eq, Structural)]
pub enum VideoRotation {
    VideoRotation0,
    VideoRotation90,
    VideoRotation180,
    VideoRotation270,
}

/// One raw frame, with its pixels in a buffer of type `T`.
#[derive(Debug)]
pub struct VideoFrame<T> {
    pub rotation: VideoRotation,
    pub timestamp_us: i64,
    pub buffer: T,
}

/// The shape of a planar 4:2:0 buffer.  The pixels are the platform's.
#[derive(Debug, Clone, Copy, PartialEq, Eq, Structural)]
pub struct I420Buffer {
    pub width: u32,
    pub height: u32,
}

impl I420Buffer {
    /// A buffer of `width` by `height` pixels.
    pub fn new(width: u32, height: u32) -> (buffer: Self)
        ensures
            buffer == (I420Buffer { width, height }),
    {
        I420Buffer { width, height }
    }
}

/// The mutex of `lock_api`, of which the one of `parking_lot` is an instance.
#[verifier::external_type_specification]
#[verifier::external_body]
#[verifier::reject_recursive_types(R)]
#[verifier::reject_recursive_types(T)]
pub struct ExMutex<R, T: ?Sized>(lock_api::Mutex<R, T>);

/// The raw lock inside a mutex of `parking_lot`.
#[verifier::external_type_specification]
#[verifier::external_body]
pub struct ExRawMutex(RawMutex);

/// The buffer that a mutex protects.
pub uninterp spec fn protected_buffer(mutex: Mutex<I420Buffer>) -> I420Buffer;

/// Calls `parking_lot::Mutex::new`, which makes an unlocked mutex around the
/// value that it is given.
#[verifier::external_body]
fn new_mutex(buffer: I420Buffer) -> (mutex: Mutex<I420Buffer>)
    ensures
        protected_buffer(mutex) == buffer,
{
    Mutex::new(buffer)
}

/// Calls `parking_lot::Mutex::lock`, which waits until no other thread holds
/// the lock, copies the protected value and lets go of the lock.  The claim
/// that the value is still the one that the mutex was made around rests on
/// this file: it hands out copies of the value, and neither a guard nor the
/// mutex, so nothing can write to it, and no thread keeps the lock.
#[verifier::external_body]
fn locked_copy(mutex: &Mutex<I420Buffer>) -> (buffer: I420Buffer)
    ensures
        buffer == protected_buffer(*mutex),
{
    *mutex.lock()
}

/// The shape of the one buffer that a source shows to the encoder again and
/// again, behind a lock of its own that is held only while the shape is read.
/// It is not the lock that is held over a capture: that one is the host's,
/// around the pixels, and the calls of a push ask for it.
pub struct DummyBuffer {
    buffer: Mutex<I420Buffer>,
}

impl View for DummyBuffer {
    type V = I420Buffer;

    closed spec fn view(&self) -> I420Buffer {
        protected_buffer(self.buffer)
    }
}

impl DummyBuffer {
    /// Puts `buffer` behind a lock.
    pub fn new(buffer: I420Buffer) -> (dummy: Self)
        ensures
            dummy@ == buffer,
    {
        DummyBuffer { buffer: new_mutex(buffer) }
    }

    /// The shape of the buffer.
    pub fn shape(&self) -> (buffer: I420Buffer)
        ensures
            buffer == self@,
    {
        locked_copy(&self.buffer)
    }
}

} // verus!
