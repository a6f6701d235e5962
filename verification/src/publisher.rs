//! The decisions of a publishing session: when each access unit is due, what a
//! file gives, and what to do with what a stream delivers.

use crate::access_unit::laws::{
    law_one_unit_per_picture, law_stream_is_chunk_independent, law_units_keep_every_byte,
    picture_nals, typed_nals, unit_bytes,
};
use crate::access_unit::{
    closed_units, pending_after_all, unit_views, AccessUnit, AccessUnitBuilder, AnnexBStreamParser, ParserState,
};
use crate::annex_b::{byte_seqs, nal_type_of, split_annex_b, split_nals};
use crate::video_frame::VideoRotation;
use crate::video_source::laws::{
    captured, enqueued, law_each_push_takes_four_steps, law_one_dummy_frame_per_access_unit,
    steps_of_pushes, Push,
};
use crate::video_source::native::{steps_of, EncodedH264VideoSource, SourceCall, SourceStep};
use vstd::prelude::*;

verus! {

/// Microseconds between two frames at `fps` frames a second, rounded down.
pub fn frame_interval_us(fps: u32) -> (interval: i64)
    requires
        fps > 0,
    ensures
        interval == 1_000_000int / fps as int,
        fps * interval <= 1_000_000 < fps * (interval + 1),
{
    let interval: i64 = 1_000_000i64 / fps as i64;
    assert(fps * interval <= 1_000_000 < fps * (interval + 1)) by (nonlinear_arith)
        requires
            interval == 1_000_000int / fps as int,
            fps > 0,
    ;
    interval
}

/// The time of the frame with index `frame_idx`, counted from `base_ts`.
pub open spec fn timestamp_of(base_ts: int, frame_idx: int, frame_interval_us: int) -> int {
    base_ts + frame_idx * frame_interval_us
}

/// An `i64` holds the value.
pub open spec fn fits_i64(value: int) -> bool {
    i64::MIN <= value <= i64::MAX
}

/// The time of the frame with index `frame_idx`; `None` if it, or its distance
/// from `base_ts`, is out of range.
pub fn frame_timestamp_us(base_ts: i64, frame_idx: i64, frame_interval_us: i64) -> (ts: Option<i64>)
    ensures
        ts is Some <==> fits_i64(frame_idx * frame_interval_us) && fits_i64(
            timestamp_of(base_ts as int, frame_idx as int, frame_interval_us as int),
        ),
        ts matches Some(t) ==> t == timestamp_of(
            base_ts as int,
            frame_idx as int,
            frame_interval_us as int,
        ),
        ts is Some <==> {
            &&& i64::MIN <= frame_idx * frame_interval_us <= i64::MAX
            &&& i64::MIN <= base_ts + frame_idx * frame_interval_us <= i64::MAX
        },
        ts matches Some(t) ==> t - base_ts == frame_idx * frame_interval_us,
{
    match frame_idx.checked_mul(frame_interval_us) {
        Some(offset) => base_ts.checked_add(offset),
        None => None,
    }
}

/// The frame with index 0 is due at `base_ts` itself, every frame as many
/// intervals behind it as its index says, and a later `base_ts` moves every
/// frame by as much.
pub proof fn law_frames_count_from_the_base(
    base_ts: int,
    frame_idx: int,
    frame_interval_us: int,
    later: int,
)
    ensures
        timestamp_of(base_ts, 0, frame_interval_us) == base_ts,
        timestamp_of(base_ts, frame_idx, frame_interval_us) - base_ts == frame_idx
            * frame_interval_us,
        timestamp_of(base_ts, frame_idx + 1, frame_interval_us) == timestamp_of(
            base_ts,
            frame_idx,
            frame_interval_us,
        ) + frame_interval_us,
        timestamp_of(base_ts + later, frame_idx, frame_interval_us) == timestamp_of(
            base_ts,
            frame_idx,
            frame_interval_us,
        ) + later,
{
    assert((frame_idx + 1) * frame_interval_us == frame_idx * frame_interval_us
        + frame_interval_us) by (nonlinear_arith);
}

/// Frames come in the order of their indices, one interval apart, and `fps`
/// intervals fill a second up to less than `fps` microseconds.
pub proof fn law_frames_are_evenly_spaced(base_ts: int, i: int, j: int, fps: u32)
    requires
        0 < fps,
    ensures
        ({
            let interval = 1_000_000int / fps as int;
            &&& timestamp_of(base_ts, i + 1, interval) - timestamp_of(base_ts, i, interval)
                == interval
            &&& 1_000_000 - fps < fps * interval <= 1_000_000
            &&& fps <= 1_000_000 && i < j ==> timestamp_of(base_ts, i, interval) < timestamp_of(
                base_ts,
                j,
                interval,
            )
        }),
{
    let interval = 1_000_000int / fps as int;
    assert((i + 1) * interval == i * interval + interval) by (nonlinear_arith);
    assert(1_000_000 - fps < fps * interval <= 1_000_000) by (nonlinear_arith)
        requires
            interval == 1_000_000int / fps as int,
            fps > 0,
    ;
    if fps <= 1_000_000 && i < j {
        assert(interval >= 1) by (nonlinear_arith)
            requires
                fps * interval > 1_000_000 - fps,
                fps <= 1_000_000,
        ;
        assert(i * interval < j * interval) by (nonlinear_arith)
            requires
                i < j,
                interval >= 1,
        ;
    }
}

/// Why nothing can be published.
#[derive(Debug, Clone, Copy, PartialEq, Eq, Structural)]
pub enum PublishError {
    /// The data hold no coded picture.
    NoAccessUnits,
}

impl PublishError {
    /// The error in words.
    pub fn message(&self) -> (text: &'static str)
        ensures
            text@ == "No H.264 access units found"@,
    {
        match self {
            PublishError::NoAccessUnits => "No H.264 access units found",
        }
    }
}

/// The access units that the whole of `data` closes.
pub open spec fn file_units(data: Seq<u8>) -> Seq<(Seq<u8>, bool)> {
    closed_units(Seq::empty(), split_nals(data))
}

/// The access units that `nals` close, or an error if they close none.
pub fn access_units_of(nals: &Vec<Vec<u8>>) -> (units: Result<Vec<AccessUnit>, PublishError>)
    ensures
        units is Err <==> closed_units(Seq::empty(), byte_seqs(nals@)).len() == 0,
        units matches Err(e) ==> e == PublishError::NoAccessUnits,
        units matches Ok(list) ==> unit_views(list@) == closed_units(
            Seq::empty(),
            byte_seqs(nals@),
        ),
        units matches Ok(list) ==> {
            let expected = closed_units(Seq::empty(), byte_seqs(nals@));
            &&& list@.len() == expected.len()
            &&& forall|k: int|
                0 <= k < expected.len() ==> (#[trigger] list@[k]).data@ == expected[k].0
                    && list@[k].is_keyframe == expected[k].1
        },
{
    let mut builder = AccessUnitBuilder::default();
    let access_units = builder.push_nals(nals);
    assert(unit_views(access_units@).len() == access_units@.len());
    if access_units.len() == 0 {
        Err(PublishError::NoAccessUnits)
    } else {
        Ok(access_units)
    }
}

/// The access units of a file, or an error if it has none.
pub fn file_access_units(data: &[u8]) -> (units: Result<Vec<AccessUnit>, PublishError>)
    ensures
        units is Err <==> file_units(data@).len() == 0,
        units matches Err(e) ==> e == PublishError::NoAccessUnits,
        units matches Ok(list) ==> unit_views(list@) == file_units(data@),
        units is Err <==> closed_units(Seq::empty(), split_nals(data@)).len() == 0,
        units matches Ok(list) ==> {
            let expected = closed_units(Seq::empty(), split_nals(data@));
            &&& list@.len() == expected.len()
            &&& forall|k: int|
                0 <= k < expected.len() ==> (#[trigger] list@[k]).data@ == expected[k].0
                    && list@[k].is_keyframe == expected[k].1
        },
{
    let nals = split_annex_b(data);
    access_units_of(&nals)
}

/// A file of whatever length is read to its end: it gives one access unit for
/// each coded picture among its NAL units, and the units, one after the other,
/// with what no picture followed behind them, are all its typed NAL units.
pub proof fn law_file_is_read_to_its_end(data: Seq<u8>)
    ensures
        file_units(data) == closed_units(Seq::empty(), split_nals(data)),
        file_units(data).len() == picture_nals(split_nals(data)).len(),
        unit_bytes(file_units(data)).flatten() + pending_after_all(
            Seq::empty(),
            split_nals(data),
        ) == typed_nals(split_nals(data)).flatten(),
        forall|k: int|
            0 <= k < file_units(data).len() ==> {
                let unit = #[trigger] file_units(data)[k];
                let picture = picture_nals(split_nals(data))[k];
                picture.is_suffix_of(unit.0) && unit.1 == (nal_type_of(picture) == Some(5u8))
            },
{
    law_one_unit_per_picture(Seq::empty(), split_nals(data));
    law_units_keep_every_byte(Seq::empty(), split_nals(data));
}

/// A frame can be stamped: its time, the distance of its time from `base_ts`,
/// and the count of frames up to it are in range.
pub open spec fn is_stampable(base_ts: int, frame_idx: int, frame_interval_us: int) -> bool {
    &&& frame_idx < i64::MAX
    &&& fits_i64(frame_idx * frame_interval_us)
    &&& fits_i64(timestamp_of(base_ts, frame_idx, frame_interval_us))
}

/// Of `total` frames from `first_idx` on, `count` can be stamped one after the
/// other, and the next cannot, if there is one.
pub open spec fn is_stamped_prefix(
    total: nat,
    base_ts: int,
    first_idx: int,
    frame_interval_us: int,
    count: int,
) -> bool {
    &&& 0 <= count <= total
    &&& forall|k: int|
        0 <= k < count ==> #[trigger] is_stampable(base_ts, first_idx + k, frame_interval_us)
    &&& count < total ==> !is_stampable(base_ts, first_idx + count, frame_interval_us)
}

/// The pushes of access units that are stamped from `first_idx` on.
pub open spec fn stamped_pushes(
    units: Seq<(Seq<u8>, bool)>,
    base_ts: int,
    first_idx: int,
    frame_interval_us: int,
) -> Seq<Push> {
    Seq::new(
        units.len(),
        |k: int|
            (
                units[k].0,
                timestamp_of(base_ts, first_idx + k, frame_interval_us) as i64,
                units[k].1,
            ),
    )
}

/// Access units on their way to a source.
pub struct Published<'a> {
    /// The calls that push them, in order.
    pub calls: Vec<SourceCall<'a>>,
    /// The index of the next frame.
    pub next_idx: i64,
    /// All units are pushed; if not, a timestamp is out of range.
    pub is_complete: bool,
}

impl<'a> Published<'a> {
    /// The calls push `units` to a source, the first stamped as the frame with
    /// index `first_idx`, up to the first that cannot be stamped.
    pub open spec fn publishes(
        &self,
        source: EncodedH264VideoSource,
        units: Seq<(Seq<u8>, bool)>,
        base_ts: i64,
        first_idx: i64,
        frame_interval_us: i64,
    ) -> bool {
        let count = self.next_idx - first_idx;
        &&& is_stamped_prefix(
            units.len(),
            base_ts as int,
            first_idx as int,
            frame_interval_us as int,
            count,
        )
        &&& self.is_complete == (count == units.len())
        &&& steps_of(self.calls@) == steps_of_pushes(
            source,
            stamped_pushes(
                units.take(count),
                base_ts as int,
                first_idx as int,
                frame_interval_us as int,
            ),
        )
    }
}

/// The calls that push `units` to `source`, the first stamped as the frame
/// with index `first_idx`.
pub fn publish_calls<'a>(
    source: &'a EncodedH264VideoSource,
    units: &'a Vec<AccessUnit>,
    base_ts: i64,
    first_idx: i64,
    frame_interval_us: i64,
) -> (published: Published<'a>)
    ensures
        published.publishes(*source, unit_views(units@), base_ts, first_idx, frame_interval_us),
{
    let mut calls: Vec<SourceCall<'a>> = Vec::new();
    let mut count: usize = 0;
    let mut frame_idx: i64 = first_idx;
    let ghost views = unit_views(units@);
    let ghost pushes = stamped_pushes(
        views,
        base_ts as int,
        first_idx as int,
        frame_interval_us as int,
    );
    assert(steps_of(calls@) == steps_of_pushes(*source, pushes.take(0)));
    while count < units.len() && frame_idx < i64::MAX
        invariant
            count <= units@.len(),
            frame_idx == first_idx + count,
            views == unit_views(units@),
            pushes == stamped_pushes(
                views,
                base_ts as int,
                first_idx as int,
                frame_interval_us as int,
            ),
            forall|k: int|
                0 <= k < count ==> #[trigger] is_stampable(
                    base_ts as int,
                    first_idx + k,
                    frame_interval_us as int,
                ),
            steps_of(calls@) == steps_of_pushes(*source, pushes.take(count as int)),
        decreases units@.len() - count,
    {
        let timestamp_us: i64 = match frame_timestamp_us(base_ts, frame_idx, frame_interval_us) {
            Some(timestamp_us) => timestamp_us,
            None => {
                proof {
                    lemma_take_of_pushes(
                        views,
                        base_ts as int,
                        first_idx as int,
                        frame_interval_us as int,
                        count as int,
                    );
                }
                return Published { calls, next_idx: frame_idx, is_complete: false };
            },
        };
        let ghost before = calls@;
        let unit = &units[count];
        let mut unit_calls = source.push_encoded_frame(
            unit.data.as_slice(),
            timestamp_us,
            unit.is_keyframe,
        );
        let ghost added = unit_calls@;
        calls.append(&mut unit_calls);
        proof {
            assert(steps_of(calls@) == steps_of(before) + steps_of(added));
            assert(pushes.take(count + 1).drop_last() == pushes.take(count as int));
            assert(pushes.take(count + 1).last() == (unit.data@, timestamp_us, unit.is_keyframe));
            assert(is_stampable(
                base_ts as int,
                first_idx + count,
                frame_interval_us as int,
            ));
        }
        count += 1;
        frame_idx += 1;
    }
    proof {
        lemma_take_of_pushes(
            views,
            base_ts as int,
            first_idx as int,
            frame_interval_us as int,
            count as int,
        );
    }
    Published { calls, next_idx: frame_idx, is_complete: count == units.len() }
}

proof fn lemma_take_of_pushes(
    units: Seq<(Seq<u8>, bool)>,
    base_ts: int,
    first_idx: int,
    frame_interval_us: int,
    count: int,
)
    requires
        0 <= count <= units.len(),
    ensures
        stamped_pushes(units, base_ts, first_idx, frame_interval_us).take(count)
            == stamped_pushes(units.take(count), base_ts, first_idx, frame_interval_us),
{
}

/// A frame can be stamped exactly if its index has a successor and both its
/// time and the distance of its time from `base_ts` are in the range of an
/// `i64`.
pub proof fn law_stampable_frames_are_those_in_range(
    base_ts: int,
    frame_idx: int,
    frame_interval_us: int,
)
    ensures
        is_stampable(base_ts, frame_idx, frame_interval_us) <==> {
            &&& frame_idx < i64::MAX
            &&& i64::MIN <= frame_idx * frame_interval_us <= i64::MAX
            &&& i64::MIN <= base_ts + frame_idx * frame_interval_us <= i64::MAX
        },
{
}

/// Nothing is left out as long as all is in range: if the index of each frame
/// of a batch has a successor, and its time and the distance of its time from
/// `base_ts` fit an `i64`, all access units are pushed.
pub proof fn law_frames_in_range_are_all_pushed(
    published: Published<'_>,
    source: EncodedH264VideoSource,
    units: Seq<(Seq<u8>, bool)>,
    base_ts: i64,
    first_idx: i64,
    frame_interval_us: i64,
)
    requires
        published.publishes(source, units, base_ts, first_idx, frame_interval_us),
        forall|k: int|
            #![trigger units[k]]
            0 <= k < units.len() ==> {
                &&& first_idx + k < i64::MAX
                &&& i64::MIN <= (first_idx + k) * frame_interval_us <= i64::MAX
                &&& i64::MIN <= base_ts + (first_idx + k) * frame_interval_us <= i64::MAX
            },
    ensures
        published.is_complete,
        published.next_idx == first_idx + units.len(),
{
    let count = published.next_idx - first_idx;
    if count < units.len() {
        let unit = units[count];
    }
}

/// What is pushed is the longest run of access units from the first on that
/// are in range, with four calls for each.
pub proof fn law_pushing_stops_only_out_of_range(
    published: Published<'_>,
    source: EncodedH264VideoSource,
    units: Seq<(Seq<u8>, bool)>,
    base_ts: i64,
    first_idx: i64,
    frame_interval_us: i64,
)
    requires
        published.publishes(source, units, base_ts, first_idx, frame_interval_us),
    ensures
        first_idx <= published.next_idx <= first_idx + units.len(),
        published.is_complete <==> published.next_idx == first_idx + units.len(),
        !published.is_complete ==> {
            ||| published.next_idx == i64::MAX
            ||| !(i64::MIN <= published.next_idx * frame_interval_us <= i64::MAX)
            ||| !(i64::MIN <= base_ts + published.next_idx * frame_interval_us <= i64::MAX)
        },
        published.calls@.len() == 4 * (published.next_idx - first_idx),
{
    let count = published.next_idx - first_idx;
    let pushes = stamped_pushes(
        units.take(count),
        base_ts as int,
        first_idx as int,
        frame_interval_us as int,
    );
    law_each_push_takes_four_steps(source, pushes);
    assert(steps_of(published.calls@).len() == published.calls@.len());
    assert(first_idx + count == published.next_idx);
}

/// Each access unit that is pushed takes four calls: it goes into the queue
/// with its own bytes and mark, with the size of the source, and with a time
/// that lies as many intervals behind `base_ts` as its index says; then, under
/// the lock, the native source captures a dummy frame of the same time.
pub proof fn law_calls_push_units_in_order(
    published: Published<'_>,
    source: EncodedH264VideoSource,
    units: Seq<(Seq<u8>, bool)>,
    base_ts: i64,
    first_idx: i64,
    frame_interval_us: i64,
    k: int,
)
    requires
        published.publishes(source, units, base_ts, first_idx, frame_interval_us),
        0 <= k < published.next_idx - first_idx,
    ensures
        ({
            let calls = published.calls@;
            &&& calls[4 * k] is PushEncodedFrame
            &&& calls[4 * k]->encoded.data@ == units[k].0
            &&& calls[4 * k]->encoded.timestamp_us - base_ts == (first_idx + k) * frame_interval_us
            &&& calls[4 * k]->encoded.is_keyframe == units[k].1
            &&& calls[4 * k]->encoded.width == source.resolution().width
            &&& calls[4 * k]->encoded.height == source.resolution().height
            &&& calls[4 * k + 1] is LockDummyBuffer
            &&& calls[4 * k + 2] is CaptureFrame
            &&& *calls[4 * k + 2]->native_source == source.native()
            &&& calls[4 * k + 2]->frame.rotation == VideoRotation::VideoRotation0
            &&& calls[4 * k + 2]->frame.timestamp_us - base_ts == (first_idx + k) * frame_interval_us
            &&& *calls[4 * k + 2]->frame.buffer == source.dummy_buffer()
            &&& calls[4 * k + 3] is UnlockDummyBuffer
        }),
{
    let count = published.next_idx - first_idx;
    let calls = published.calls@;
    let pushes = stamped_pushes(
        units.take(count),
        base_ts as int,
        first_idx as int,
        frame_interval_us as int,
    );
    law_each_push_takes_four_steps(source, pushes);
    assert(steps_of(calls).len() == calls.len());
    assert(is_stampable(base_ts as int, first_idx + k, frame_interval_us as int));
    assert(pushes[k] == (
        units[k].0,
        (base_ts + (first_idx + k) * frame_interval_us) as i64,
        units[k].1,
    ));
    assert(steps_of(calls)[4 * k] == calls[4 * k]@);
    assert(steps_of(calls)[4 * k + 1] == calls[4 * k + 1]@);
    assert(steps_of(calls)[4 * k + 2] == calls[4 * k + 2]@);
    assert(steps_of(calls)[4 * k + 3] == calls[4 * k + 3]@);
}

/// Every access unit reaches the queue with its own bytes, at its own time and
/// with its own keyframe mark, and a dummy frame of that time follows.
pub proof fn law_every_unit_reaches_the_queue(
    source: EncodedH264VideoSource,
    units: Seq<(Seq<u8>, bool)>,
    base_ts: int,
    first_idx: int,
    frame_interval_us: int,
)
    ensures
        ({
            let steps = steps_of_pushes(
                source,
                stamped_pushes(units, base_ts, first_idx, frame_interval_us),
            );
            &&& enqueued(steps) == Seq::new(
                units.len(),
                |k: int|
                    SourceStep::PushEncodedFrame {
                        data: units[k].0,
                        timestamp_us: (base_ts + (first_idx + k) * frame_interval_us) as i64,
                        is_keyframe: units[k].1,
                        width: source.resolution().width,
                        height: source.resolution().height,
                    },
            )
            &&& captured(steps) == Seq::new(
                units.len(),
                |k: int|
                    SourceStep::CaptureFrame {
                        native_source: source.native(),
                        rotation: VideoRotation::VideoRotation0,
                        timestamp_us: (base_ts + (first_idx + k) * frame_interval_us) as i64,
                        dummy_buffer: source.dummy_buffer(),
                    },
            )
        }),
{
    let pushes = stamped_pushes(units, base_ts, first_idx, frame_interval_us);
    law_one_dummy_frame_per_access_unit(source, pushes);
}

/// Access units that are published in two batches get the times that they get
/// in one.
pub proof fn law_batches_are_stamped_as_one(
    first: Seq<(Seq<u8>, bool)>,
    second: Seq<(Seq<u8>, bool)>,
    base_ts: int,
    first_idx: int,
    frame_interval_us: int,
)
    ensures
        stamped_pushes(first + second, base_ts, first_idx, frame_interval_us) == stamped_pushes(
            first,
            base_ts,
            first_idx,
            frame_interval_us,
        ) + stamped_pushes(second, base_ts, first_idx + first.len(), frame_interval_us),
{
}

/// However the bytes of a stream are cut, the same access units are pushed at
/// the same times.
pub proof fn law_publishing_is_chunk_independent(
    state: ParserState,
    first: Seq<u8>,
    second: Seq<u8>,
    base_ts: int,
    first_idx: int,
    frame_interval_us: int,
)
    ensures
        stamped_pushes(state.units(first + second), base_ts, first_idx, frame_interval_us)
            == stamped_pushes(state.units(first), base_ts, first_idx, frame_interval_us)
            + stamped_pushes(
            state.after(first).units(second),
            base_ts,
            first_idx + state.units(first).len(),
            frame_interval_us,
        ),
{
    law_stream_is_chunk_independent(state, first, second);
    law_batches_are_stamped_as_one(
        state.units(first),
        state.after(first).units(second),
        base_ts,
        first_idx,
        frame_interval_us,
    );
}

/// What happens to a streaming session.
pub enum StreamEvent<'a> {
    /// The connection delivered bytes; none at all when the peer closed it.
    Read(&'a [u8]),
    /// The user asked to stop.
    Interrupt,
}

/// What a streaming session does next.
pub enum StreamAction {
    /// Push these access units, each at the session's next timestamp.
    Publish(Vec<AccessUnit>),
    /// Stop: the peer closed the connection.
    Closed,
    /// Stop: the user asked for it.
    Interrupted,
}

/// A publishing session that is fed by a stream.
pub struct StreamSession {
    parser: AnnexBStreamParser,
    base_ts: i64,
    frame_interval_us: i64,
    frame_idx: i64,
}

impl StreamSession {
    /// What the parser of this session remembers.
    pub closed spec fn parser_state(&self) -> ParserState {
        self.parser@
    }

    /// The time from which the session counts.
    pub closed spec fn base(&self) -> i64 {
        self.base_ts
    }

    /// The microseconds between two frames.
    pub closed spec fn interval(&self) -> i64 {
        self.frame_interval_us
    }

    /// How many frames have been stamped.
    pub closed spec fn frames(&self) -> i64 {
        self.frame_idx
    }

    /// A session in which nothing has happened.
    pub fn new(base_ts: i64, frame_interval_us: i64) -> (session: Self)
        ensures
            session.parser_state() == ParserState::initial(),
            session.base() == base_ts,
            session.interval() == frame_interval_us,
            session.frames() == 0,
    {
        StreamSession { parser: AnnexBStreamParser::new(), base_ts, frame_interval_us, frame_idx: 0 }
    }

    /// Takes an event and says what to do.
    pub fn step(&mut self, event: StreamEvent<'_>) -> (action: StreamAction)
        ensures
            final(self).base() == old(self).base(),
            final(self).interval() == old(self).interval(),
            final(self).frames() == old(self).frames(),
            match event {
                StreamEvent::Read(chunk) if chunk@.len() > 0 => {
                    &&& action matches StreamAction::Publish(units)
                        && unit_views(units@) == old(self).parser_state().units(
                        chunk@,
                    )
                    &&& final(self).parser_state() == old(self).parser_state().after(chunk@)
                    &&& action matches StreamAction::Publish(units) && {
                        let expected = old(self).parser_state().units(chunk@);
                        &&& units@.len() == expected.len()
                        &&& forall|k: int|
                            0 <= k < expected.len() ==> (#[trigger] units@[k]).data@
                                == expected[k].0 && units@[k].is_keyframe == expected[k].1
                    }
                },
                StreamEvent::Read(_) => action is Closed && final(self).parser_state() == old(
                    self,
                ).parser_state(),
                StreamEvent::Interrupt => action is Interrupted && final(self).parser_state()
                    == old(self).parser_state(),
            },
    {
        match event {
            StreamEvent::Read(chunk) => if chunk.len() == 0 {
                StreamAction::Closed
            } else {
                StreamAction::Publish(self.parser.push(chunk))
            },
            StreamEvent::Interrupt => StreamAction::Interrupted,
        }
    }

    /// The calls that push `units` to `source`, each at the session's next
    /// timestamp.
    pub fn publish<'a>(
        &mut self,
        source: &'a EncodedH264VideoSource,
        units: &'a Vec<AccessUnit>,
    ) -> (published: Published<'a>)
        ensures
            published.publishes(
                *source,
                unit_views(units@),
                old(self).base(),
                old(self).frames(),
                old(self).interval(),
            ),
            final(self).frames() == published.next_idx,
            final(self).parser_state() == old(self).parser_state(),
            final(self).base() == old(self).base(),
            final(self).interval() == old(self).interval(),
    {
        let published = publish_calls(
            source,
            units,
            self.base_ts,
            self.frame_idx,
            self.frame_interval_us,
        );
        self.frame_idx = published.next_idx;
        published
    }
}

} // verus!
