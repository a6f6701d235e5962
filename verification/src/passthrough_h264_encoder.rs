//! What the passthrough encoder is given.

use vstd::prelude::*;

verus! {

/// One access unit on its way into the queue of the passthrough encoder.
#[derive(Debug, Clone, Copy)]
pub struct EncodedFrame<'a> {
    /// The access unit, Annex-B framed.
    pub data: &'a [u8],
    pub timestamp_us: i64,
    pub is_keyframe: bool,
    pub width: u32,
    pub height: u32,
}

} // verus!
