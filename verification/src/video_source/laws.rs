//! What holds of the calls that pre-encoded sources ask for over their lives.

use crate::text::{decimal, law_decimal_can_be_read_back};
use crate::video_frame::{I420Buffer, VideoRotation};
use crate::video_source::native::{
    drop_step, push_steps, setup_steps, steps_of, EncodedH264VideoSource, SourceCall, SourceStep,
};
use crate::video_source::VideoResolution;
use vstd::prelude::*;

verus! {

/// Debugging output tells sources of different resolutions apart.
pub proof fn law_debug_text_shows_the_resolution(
    first: EncodedH264VideoSource,
    second: EncodedH264VideoSource,
)
    ensures
        first.debug_text() == second.debug_text() <==> first.resolution() == second.resolution(),
{
    if first.debug_text() == second.debug_text() {
        let head = "EncodedH264VideoSource { width: "@;
        let a = first.resolution();
        let b = second.resolution();
        let x = ", height: "@ + (decimal(a.height as nat) + " }"@);
        let y = ", height: "@ + (decimal(b.height as nat) + " }"@);
        reveal_strlit(", height: ");
        reveal_strlit(" }");
        assert(first.debug_text() == head + (decimal(a.width as nat) + x));
        assert(second.debug_text() == head + (decimal(b.width as nat) + y));
        assert(decimal(a.width as nat) + x == first.debug_text().skip(head.len() as int));
        assert(decimal(b.width as nat) + y == second.debug_text().skip(head.len() as int));
        law_decimal_can_be_read_back(a.width as nat, b.width as nat, x, y);
        assert(decimal(a.height as nat) + " }"@ == x.skip(10));
        assert(decimal(b.height as nat) + " }"@ == y.skip(10));
        law_decimal_can_be_read_back(a.height as nat, b.height as nat, " }"@, " }"@);
    }
}

/// What a list of calls asks for shows every call, with all that it carries.
pub proof fn law_steps_show_every_call(calls: Seq<SourceCall<'_>>, k: int)
    requires
        0 <= k < calls.len(),
    ensures
        steps_of(calls).len() == calls.len(),
        ({
            let call = calls[k];
            let step = steps_of(calls)[k];
            &&& call is NewNativeSource <==> step is NewNativeSource
            &&& call is NewNativeSource ==> step->NewNativeSource_resolution == call->resolution
            &&& call is NewFrameQueue <==> step is NewFrameQueue
            &&& call is RegisterFrameQueue <==> step is RegisterFrameQueue
            &&& call is NewDummyBuffer <==> step is NewDummyBuffer
            &&& call is NewDummyBuffer ==> step->NewDummyBuffer_buffer == call->buffer
            &&& call is PushEncodedFrame <==> step is PushEncodedFrame
            &&& call is PushEncodedFrame ==> {
                &&& step->PushEncodedFrame_data == call->encoded.data@
                &&& step->PushEncodedFrame_timestamp_us == call->encoded.timestamp_us
                &&& step->PushEncodedFrame_is_keyframe == call->encoded.is_keyframe
                &&& step->PushEncodedFrame_width == call->encoded.width
                &&& step->PushEncodedFrame_height == call->encoded.height
            }
            &&& call is LockDummyBuffer <==> step is LockDummyBuffer
            &&& call is CaptureFrame <==> step is CaptureFrame
            &&& call is CaptureFrame ==> {
                &&& step->CaptureFrame_native_source == *call->native_source
                &&& step->CaptureFrame_rotation == call->frame.rotation
                &&& step->CaptureFrame_timestamp_us == call->frame.timestamp_us
                &&& step->CaptureFrame_dummy_buffer == *call->frame.buffer
            }
            &&& call is UnlockDummyBuffer <==> step is UnlockDummyBuffer
            &&& call is UnregisterFrameQueue <==> step is UnregisterFrameQueue
        }),
{
}

/// One call of `push_encoded_frame`: data, timestamp and whether it is a
/// keyframe.
pub type Push = (Seq<u8>, i64, bool);

/// The steps of a list of pushes to `source`, in order.
pub open spec fn steps_of_pushes(source: EncodedH264VideoSource, pushes: Seq<Push>) -> Seq<
    SourceStep,
>
    decreases pushes.len(),
{
    if pushes.len() == 0 {
        Seq::empty()
    } else {
        let (data, timestamp_us, is_keyframe) = pushes.last();
        steps_of_pushes(source, pushes.drop_last()) + push_steps(
            source,
            data,
            timestamp_us,
            is_keyframe,
        )
    }
}

/// The steps that put an access unit into the queue.
pub open spec fn enqueued(steps: Seq<SourceStep>) -> Seq<SourceStep> {
    steps.filter(|step: SourceStep| step is PushEncodedFrame)
}

/// The steps that capture a dummy frame.
pub open spec fn captured(steps: Seq<SourceStep>) -> Seq<SourceStep> {
    steps.filter(|step: SourceStep| step is CaptureFrame)
}

proof fn lemma_one_more_step(steps: Seq<SourceStep>, step: SourceStep)
    ensures
        enqueued(steps.push(step)) == if step is PushEncodedFrame {
            enqueued(steps).push(step)
        } else {
            enqueued(steps)
        },
        captured(steps.push(step)) == if step is CaptureFrame {
            captured(steps).push(step)
        } else {
            captured(steps)
        },
{
    reveal(Seq::filter);
    assert(steps.push(step).drop_last() == steps);
}

proof fn lemma_one_more_push(
    before: Seq<SourceStep>,
    source: EncodedH264VideoSource,
    push: Push,
)
    ensures
        ({
            let steps = push_steps(source, push.0, push.1, push.2);
            &&& enqueued(before + steps) == enqueued(before).push(steps[0])
            &&& captured(before + steps) == captured(before).push(steps[2])
        }),
{
    let steps = push_steps(source, push.0, push.1, push.2);
    lemma_one_more_step(before, steps[0]);
    lemma_one_more_step(before.push(steps[0]), steps[1]);
    lemma_one_more_step(before.push(steps[0]).push(steps[1]), steps[2]);
    lemma_one_more_step(before.push(steps[0]).push(steps[1]).push(steps[2]), steps[3]);
    assert(before + steps == before.push(steps[0]).push(steps[1]).push(steps[2]).push(steps[3]));
}

/// Every access unit goes into the queue unchanged and in the order of the
/// pushes, and is followed by one dummy frame with the same timestamp, which
/// the native source of the pre-encoded source captures out of its one buffer.
pub proof fn law_one_dummy_frame_per_access_unit(
    source: EncodedH264VideoSource,
    pushes: Seq<Push>,
)
    ensures
        ({
            let steps = steps_of_pushes(source, pushes);
            &&& enqueued(steps) == Seq::new(
                pushes.len(),
                |k: int|
                    SourceStep::PushEncodedFrame {
                        data: pushes[k].0,
                        timestamp_us: pushes[k].1,
                        is_keyframe: pushes[k].2,
                        width: source.resolution().width,
                        height: source.resolution().height,
                    },
            )
            &&& captured(steps) == Seq::new(
                pushes.len(),
                |k: int|
                    SourceStep::CaptureFrame {
                        native_source: source.native(),
                        rotation: VideoRotation::VideoRotation0,
                        timestamp_us: pushes[k].1,
                        dummy_buffer: source.dummy_buffer(),
                    },
            )
        }),
    decreases pushes.len(),
{
    reveal(Seq::filter);
    if pushes.len() > 0 {
        let before = steps_of_pushes(source, pushes.drop_last());
        law_one_dummy_frame_per_access_unit(source, pushes.drop_last());
        lemma_one_more_push(before, source, pushes.last());
    }
}

/// The `k`-th push takes the steps from `4 * k` on: it puts its access unit
/// into the queue as it is, takes the lock, captures a dummy frame of the same
/// time, and lets go of the lock.
pub proof fn law_each_push_takes_four_steps(source: EncodedH264VideoSource, pushes: Seq<Push>)
    ensures
        ({
            let steps = steps_of_pushes(source, pushes);
            &&& steps.len() == 4 * pushes.len()
            &&& forall|k: int|
                #![trigger pushes[k]]
                0 <= k < pushes.len() ==> {
                    &&& steps[4 * k] == SourceStep::PushEncodedFrame {
                        data: pushes[k].0,
                        timestamp_us: pushes[k].1,
                        is_keyframe: pushes[k].2,
                        width: source.resolution().width,
                        height: source.resolution().height,
                    }
                    &&& steps[4 * k + 1] == SourceStep::LockDummyBuffer
                    &&& steps[4 * k + 2] == SourceStep::CaptureFrame {
                        native_source: source.native(),
                        rotation: VideoRotation::VideoRotation0,
                        timestamp_us: pushes[k].1,
                        dummy_buffer: source.dummy_buffer(),
                    }
                    &&& steps[4 * k + 3] == SourceStep::UnlockDummyBuffer
                }
        }),
    decreases pushes.len(),
{
    if pushes.len() > 0 {
        let fewer = pushes.drop_last();
        law_each_push_takes_four_steps(source, fewer);
        assert forall|k: int| #![trigger pushes[k]] 0 <= k < fewer.len() implies pushes[k]
            == fewer[k] by {}
    }
}

/// Each push takes four steps: it puts the access unit into the queue, takes
/// the lock, captures the dummy frame and lets go of the lock.
proof fn lemma_kinds_of_steps(source: EncodedH264VideoSource, pushes: Seq<Push>)
    ensures
        ({
            let steps = steps_of_pushes(source, pushes);
            &&& steps.len() == 4 * pushes.len()
            &&& forall|i: int|
                0 <= i < steps.len() ==> {
                    let step = #[trigger] steps[i];
                    &&& step is PushEncodedFrame <==> i % 4 == 0
                    &&& step is LockDummyBuffer <==> i % 4 == 1
                    &&& step is CaptureFrame <==> i % 4 == 2
                    &&& step is UnlockDummyBuffer <==> i % 4 == 3
                }
        }),
    decreases pushes.len(),
{
    if pushes.len() > 0 {
        lemma_kinds_of_steps(source, pushes.drop_last());
    }
}

/// How many steps thread `t` has taken after `schedule`, a list that names the
/// thread of each step.
pub open spec fn taken(schedule: Seq<int>, t: int) -> int
    decreases schedule.len(),
{
    if schedule.len() == 0 {
        0
    } else if schedule.last() == t {
        taken(schedule.drop_last(), t) + 1
    } else {
        taken(schedule.drop_last(), t)
    }
}

/// The threads can take their steps in the order of `schedule`.  They may have
/// steps left at its end.
pub open spec fn is_schedule(threads: Seq<Seq<SourceStep>>, schedule: Seq<int>) -> bool {
    &&& forall|k: int| 0 <= k < schedule.len() ==> 0 <= #[trigger] schedule[k] < threads.len()
    &&& forall|t: int| 0 <= t < threads.len() ==> taken(schedule, t) <= (#[trigger] threads[t]).len()
}

/// No thread has a step left after `schedule`.
pub open spec fn is_finished(threads: Seq<Seq<SourceStep>>, schedule: Seq<int>) -> bool {
    forall|t: int| 0 <= t < threads.len() ==> taken(schedule, t) == (#[trigger] threads[t]).len()
}

/// The steps of all threads, in the order in which they are taken.
pub open spec fn steps_in_order(threads: Seq<Seq<SourceStep>>, schedule: Seq<int>) -> Seq<
    SourceStep,
>
    decreases schedule.len(),
{
    if schedule.len() == 0 {
        Seq::empty()
    } else {
        let before = schedule.drop_last();
        let t = schedule.last();
        steps_in_order(threads, before).push(threads[t][taken(before, t)])
    }
}

/// The steps of threads that each make a list of pushes to `source`.
pub open spec fn pushing_threads(
    source: EncodedH264VideoSource,
    pushes: Seq<Seq<Push>>,
) -> Seq<Seq<SourceStep>> {
    pushes.map_values(|list: Seq<Push>| steps_of_pushes(source, list))
}

/// How many of the first `n` threads have put an access unit into the queue
/// for which they have not captured a dummy frame yet.
spec fn open_pushes(schedule: Seq<int>, n: int) -> int
    decreases n,
{
    if n <= 0 {
        0
    } else {
        open_pushes(schedule, n - 1) + if 1 <= taken(schedule, n - 1) % 4 <= 2 {
            1int
        } else {
            0int
        }
    }
}

proof fn lemma_open_pushes(schedule: Seq<int>, n: int)
    requires
        n >= 0,
        schedule.len() > 0,
    ensures
        open_pushes(schedule, n) == open_pushes(schedule.drop_last(), n) + if 0 <= schedule.last()
            < n {
            let before = taken(schedule.drop_last(), schedule.last()) % 4;
            if before == 0 {
                1int
            } else if before == 2 {
                -1int
            } else {
                0int
            }
        } else {
            0int
        },
    decreases n,
{
    if n > 0 {
        lemma_open_pushes(schedule, n - 1);
    }
}

proof fn lemma_open_pushes_bounds(schedule: Seq<int>, n: int)
    requires
        n >= 0,
    ensures
        0 <= open_pushes(schedule, n) <= n,
        (forall|t: int| 0 <= t < n ==> #[trigger] taken(schedule, t) % 4 == 0) ==> open_pushes(
            schedule,
            n,
        ) == 0,
    decreases n,
{
    if n > 0 {
        lemma_open_pushes_bounds(schedule, n - 1);
    }
}

proof fn lemma_taken_nothing(n: int)
    ensures
        open_pushes(Seq::empty(), n) == 0,
    decreases n,
{
    if n > 0 {
        lemma_taken_nothing(n - 1);
    }
}

proof fn lemma_taken_grows(schedule: Seq<int>, t: int)
    ensures
        taken(schedule, t) >= 0,
        schedule.len() > 0 ==> taken(schedule.drop_last(), t) <= taken(schedule, t),
    decreases schedule.len(),
{
    if schedule.len() > 0 {
        lemma_taken_grows(schedule.drop_last(), t);
    }
}

/// A schedule without its last step is a schedule.
proof fn lemma_shorter_schedule(threads: Seq<Seq<SourceStep>>, schedule: Seq<int>)
    requires
        is_schedule(threads, schedule),
        schedule.len() > 0,
    ensures
        is_schedule(threads, schedule.drop_last()),
        0 <= schedule.last() < threads.len(),
        0 <= taken(schedule.drop_last(), schedule.last()) < threads[schedule.last()].len(),
{
    let before = schedule.drop_last();
    assert(schedule[schedule.len() - 1] == schedule.last());
    lemma_taken_grows(before, schedule.last());
    assert forall|k: int| 0 <= k < before.len() implies 0 <= #[trigger] before[k]
        < threads.len() by {
        assert(before[k] == schedule[k]);
    }
    assert forall|t: int| 0 <= t < threads.len() implies taken(before, t) <= (
    #[trigger] threads[t]).len() by {
        lemma_taken_grows(schedule, t);
    }
}

proof fn lemma_counts_of_schedule(
    source: EncodedH264VideoSource,
    pushes: Seq<Seq<Push>>,
    schedule: Seq<int>,
)
    requires
        is_schedule(pushing_threads(source, pushes), schedule),
    ensures
        ({
            let steps = steps_in_order(pushing_threads(source, pushes), schedule);
            enqueued(steps).len() == captured(steps).len() + open_pushes(
                schedule,
                pushes.len() as int,
            )
        }),
    decreases schedule.len(),
{
    let threads = pushing_threads(source, pushes);
    let n = pushes.len() as int;
    if schedule.len() == 0 {
        reveal(Seq::filter);
        assert(schedule == Seq::<int>::empty());
        lemma_taken_nothing(n);
    } else {
        let before = schedule.drop_last();
        let t = schedule.last();
        lemma_shorter_schedule(threads, schedule);
        lemma_counts_of_schedule(source, pushes, before);
        lemma_open_pushes(schedule, n);
        lemma_kinds_of_steps(source, pushes[t]);
        assert(threads[t] == steps_of_pushes(source, pushes[t]));
        lemma_one_more_step(steps_in_order(threads, before), threads[t][taken(before, t)]);
    }
}

/// However the pushes of any number of threads interleave, whenever a dummy
/// frame makes the encoder run, an access unit that no earlier dummy frame
/// accounts for has been put into the queue; and when all pushes are through,
/// there have been as many dummy frames as access units.
pub proof fn law_queue_is_never_short(
    source: EncodedH264VideoSource,
    pushes: Seq<Seq<Push>>,
    schedule: Seq<int>,
)
    requires
        is_schedule(pushing_threads(source, pushes), schedule),
    ensures
        ({
            let threads = pushing_threads(source, pushes);
            let steps = steps_in_order(threads, schedule);
            &&& captured(steps).len() <= enqueued(steps).len() <= captured(steps).len()
                + pushes.len()
            &&& is_finished(threads, schedule) ==> captured(steps).len() == enqueued(steps).len()
        }),
{
    let threads = pushing_threads(source, pushes);
    let n = pushes.len() as int;
    lemma_counts_of_schedule(source, pushes, schedule);
    lemma_open_pushes_bounds(schedule, n);
    if is_finished(threads, schedule) {
        assert forall|t: int| 0 <= t < n implies #[trigger] taken(schedule, t) % 4 == 0 by {
            assert(threads[t] == steps_of_pushes(source, pushes[t]));
            lemma_kinds_of_steps(source, pushes[t]);
        }
    }
}

/// Thread `t` has taken the lock of the dummy buffer and not let go of it.
pub open spec fn holds_lock(schedule: Seq<int>, t: int) -> bool {
    2 <= taken(schedule, t) % 4 <= 3
}

/// A thread takes the lock only when no thread holds it, as a mutex has it.
pub open spec fn respects_lock(threads: Seq<Seq<SourceStep>>, schedule: Seq<int>) -> bool
    decreases schedule.len(),
{
    if schedule.len() == 0 {
        true
    } else {
        let before = schedule.drop_last();
        let t = schedule.last();
        &&& respects_lock(threads, before)
        &&& threads[t][taken(before, t)] is LockDummyBuffer ==> forall|u: int|
            0 <= u < threads.len() ==> !#[trigger] holds_lock(before, u)
    }
}

/// A thread that is about to capture a dummy frame holds the lock, and no two
/// threads hold it at once: captures out of the shared buffer do not overlap.
pub proof fn law_captures_do_not_overlap(
    source: EncodedH264VideoSource,
    pushes: Seq<Seq<Push>>,
    schedule: Seq<int>,
)
    requires
        is_schedule(pushing_threads(source, pushes), schedule),
        respects_lock(pushing_threads(source, pushes), schedule),
    ensures
        ({
            let threads = pushing_threads(source, pushes);
            &&& forall|t: int, u: int|
                0 <= t < threads.len() && 0 <= u < threads.len() && #[trigger] holds_lock(
                    schedule,
                    t,
                ) && #[trigger] holds_lock(schedule, u) ==> t == u
            &&& forall|t: int|
                0 <= t < threads.len() && taken(schedule, t) < threads[t].len()
                    && #[trigger] threads[t][taken(schedule, t)] is CaptureFrame ==> holds_lock(
                    schedule,
                    t,
                )
        }),
    decreases schedule.len(),
{
    let threads = pushing_threads(source, pushes);
    assert forall|t: int|
        0 <= t < threads.len() && taken(schedule, t) < threads[t].len()
            && #[trigger] threads[t][taken(schedule, t)] is CaptureFrame implies holds_lock(
        schedule,
        t,
    ) by {
        assert(threads[t] == steps_of_pushes(source, pushes[t]));
        lemma_kinds_of_steps(source, pushes[t]);
        lemma_taken_grows(schedule, t);
    }
    if schedule.len() > 0 {
        let before = schedule.drop_last();
        let last = schedule.last();
        lemma_shorter_schedule(threads, schedule);
        law_captures_do_not_overlap(source, pushes, before);
        assert(threads[last] == steps_of_pushes(source, pushes[last]));
        lemma_kinds_of_steps(source, pushes[last]);
        assert forall|t: int, u: int|
            0 <= t < threads.len() && 0 <= u < threads.len() && #[trigger] holds_lock(schedule, t)
                && #[trigger] holds_lock(schedule, u) implies t == u by {
            if t != last {
                assert(holds_lock(before, t));
            }
            if u != last {
                assert(holds_lock(before, u));
            }
            if t == last || u == last {
                assert(holds_lock(before, last) || taken(before, last) % 4 == 1);
            }
        }
    }
}

/// Pushes do not block each other for good: while a thread has a step left,
/// some thread can take its next one.
pub proof fn law_pushes_never_deadlock(
    source: EncodedH264VideoSource,
    pushes: Seq<Seq<Push>>,
    schedule: Seq<int>,
)
    requires
        is_schedule(pushing_threads(source, pushes), schedule),
        respects_lock(pushing_threads(source, pushes), schedule),
        !is_finished(pushing_threads(source, pushes), schedule),
    ensures
        exists|t: int|
            is_schedule(pushing_threads(source, pushes), #[trigger] schedule.push(t))
                && respects_lock(pushing_threads(source, pushes), schedule.push(t)),
{
    let threads = pushing_threads(source, pushes);
    let free = forall|u: int| 0 <= u < threads.len() ==> !#[trigger] holds_lock(schedule, u);
    let t = if free {
        choose|t: int|
            0 <= t < threads.len() && taken(schedule, t) != (#[trigger] threads[t]).len()
    } else {
        choose|u: int| 0 <= u < threads.len() && #[trigger] holds_lock(schedule, u)
    };
    let next = schedule.push(t);
    assert(threads[t] == steps_of_pushes(source, pushes[t]));
    lemma_kinds_of_steps(source, pushes[t]);
    lemma_taken_grows(schedule, t);
    assert(next.drop_last() == schedule);
    assert(taken(schedule, t) < threads[t].len());
    assert forall|k: int| 0 <= k < next.len() implies 0 <= #[trigger] next[k] < threads.len() by {
        if k < schedule.len() {
            assert(next[k] == schedule[k]);
        }
    }
    assert(is_schedule(threads, next));
    assert(respects_lock(threads, next));
}

/// The source whose queue is registered with the encoder factory after source
/// `id` took `step`, if it was the one of `registered` before.
pub open spec fn registered_after(registered: Option<int>, id: int, step: SourceStep) -> Option<
    int,
> {
    match step {
        SourceStep::RegisterFrameQueue => Some(id),
        SourceStep::UnregisterFrameQueue => None,
        _ => registered,
    }
}

/// The same after a list of steps of source `id`.
pub open spec fn registered_after_all(
    registered: Option<int>,
    id: int,
    steps: Seq<SourceStep>,
) -> Option<int>
    decreases steps.len(),
{
    if steps.len() == 0 {
        registered
    } else {
        registered_after(
            registered_after_all(registered, id, steps.drop_last()),
            id,
            steps.last(),
        )
    }
}

proof fn lemma_registered_concat(
    registered: Option<int>,
    id: int,
    first: Seq<SourceStep>,
    second: Seq<SourceStep>,
)
    ensures
        registered_after_all(registered, id, first + second) == registered_after_all(
            registered_after_all(registered, id, first),
            id,
            second,
        ),
    decreases second.len(),
{
    let both = first + second;
    if second.len() == 0 {
        assert(both == first);
    } else {
        lemma_registered_concat(registered, id, first, second.drop_last());
        assert(both.drop_last() == first + second.drop_last());
        assert(both.last() == second.last());
    }
}

/// A source that is set up has its own queue registered, whatever was
/// registered before.
pub proof fn law_setup_registers_own_queue(
    resolution: VideoResolution,
    registered: Option<int>,
    id: int,
)
    ensures
        registered_after_all(registered, id, setup_steps(resolution)) == Some(id),
{
    let steps = setup_steps(resolution);
    assert(steps.drop_last().last() == SourceStep::RegisterFrameQueue);
    reveal_with_fuel(registered_after_all, 3);
}

/// Steps that neither register nor unregister leave the registration as it is.
proof fn lemma_registration_unchanged(registered: Option<int>, id: int, steps: Seq<SourceStep>)
    requires
        forall|i: int|
            0 <= i < steps.len() ==> !(#[trigger] steps[i] is RegisterFrameQueue) && !(
            steps[i] is UnregisterFrameQueue),
    ensures
        registered_after_all(registered, id, steps) == registered,
    decreases steps.len(),
{
    if steps.len() > 0 {
        lemma_registration_unchanged(registered, id, steps.drop_last());
        assert(steps.last() == steps[steps.len() - 1]);
    }
}

/// Pushing leaves the registration as it is.
pub proof fn law_pushing_keeps_registration(
    source: EncodedH264VideoSource,
    pushes: Seq<Push>,
    registered: Option<int>,
    id: int,
)
    ensures
        registered_after_all(registered, id, steps_of_pushes(source, pushes)) == registered,
{
    lemma_kinds_of_steps(source, pushes);
    lemma_registration_unchanged(registered, id, steps_of_pushes(source, pushes));
}

/// The steps of dropping handles, in the order in which the drops return;
/// `last[k]` says whether the `k`-th drop was told that its handle was the
/// last one.
pub open spec fn steps_of_drops(last: Seq<bool>) -> Seq<SourceStep>
    decreases last.len(),
{
    if last.len() == 0 {
        Seq::empty()
    } else {
        match drop_step(last.last()) {
            Some(step) => steps_of_drops(last.drop_last()).push(step),
            None => steps_of_drops(last.drop_last()),
        }
    }
}

/// Of the drops of all handles on one source, exactly one is told that its
/// handle was the last one, be they made one after the other or at once.  So
/// the documentation of `std::sync::Arc::into_inner` promises, of the calls on
/// all pointers to one value; no contract of a single call can say it.
pub open spec fn has_one_last(last: Seq<bool>) -> bool {
    exists|k: int|
        0 <= k < last.len() && #[trigger] last[k] && forall|j: int|
            0 <= j < last.len() && #[trigger] last[j] ==> j == k
}

/// Dropping handles asks for nothing as long as none of them is the last.
pub proof fn law_early_drops_ask_for_nothing(last: Seq<bool>)
    requires
        forall|k: int| 0 <= k < last.len() ==> !#[trigger] last[k],
    ensures
        steps_of_drops(last) == Seq::<SourceStep>::empty(),
    decreases last.len(),
{
    if last.len() > 0 {
        assert(last.last() == last[last.len() - 1]);
        law_early_drops_ask_for_nothing(last.drop_last());
    }
}

/// Dropping all handles on a source, one after the other or at once, clears
/// the registration exactly once.
pub proof fn law_last_drop_unregisters(last: Seq<bool>)
    requires
        has_one_last(last),
    ensures
        steps_of_drops(last) == seq![SourceStep::UnregisterFrameQueue],
    decreases last.len(),
{
    let k = choose|k: int|
        0 <= k < last.len() && #[trigger] last[k] && forall|j: int|
            0 <= j < last.len() && #[trigger] last[j] ==> j == k;
    let before = last.drop_last();
    assert(last.last() == last[last.len() - 1]);
    if k == last.len() - 1 {
        assert forall|j: int| 0 <= j < before.len() implies !#[trigger] before[j] by {
            assert(before[j] == last[j]);
        }
        law_early_drops_ask_for_nothing(before);
    } else {
        assert(before[k] == last[k]);
        assert forall|j: int| 0 <= j < before.len() && #[trigger] before[j] implies j == k by {
            assert(before[j] == last[j]);
        }
        law_last_drop_unregisters(before);
    }
    assert(steps_of_drops(last) == seq![SourceStep::UnregisterFrameQueue]);
}

/// A source that was set up, pushed to and let go of by all its handles leaves
/// no queue registered behind, not even one that was registered before.
pub proof fn law_no_queue_outlives_its_source(
    source: EncodedH264VideoSource,
    pushes: Seq<Push>,
    last: Seq<bool>,
    registered: Option<int>,
    id: int,
)
    requires
        has_one_last(last),
    ensures
        ({
            let setup = setup_steps(source.resolution());
            let pushed = steps_of_pushes(source, pushes);
            &&& registered_after_all(registered, id, setup + pushed) == Some(id)
            &&& registered_after_all(registered, id, setup + pushed + steps_of_drops(last))
                == None::<int>
        }),
{
    let setup = setup_steps(source.resolution());
    let pushed = steps_of_pushes(source, pushes);
    law_setup_registers_own_queue(source.resolution(), registered, id);
    law_pushing_keeps_registration(source, pushes, Some(id), id);
    lemma_registered_concat(registered, id, setup, pushed);
    law_last_drop_unregisters(last);
    lemma_registered_concat(registered, id, setup + pushed, steps_of_drops(last));
    reveal_with_fuel(registered_after_all, 2);
}

/// What a host holds for its pre-encoded sources.  A queue is known by its
/// place in `queues`; `NewFrameQueue` makes a new one.
#[verifier::ext_equal]
pub struct HostState {
    /// The access units of each queue.
    pub queues: Seq<Seq<Seq<u8>>>,
    /// The queue of each source.
    pub queue_of: Map<int, int>,
    /// The resolution that the native source of each source was made for.
    pub native_of: Map<int, VideoResolution>,
    /// The buffer for the dummy frames of each source.
    pub buffer_of: Map<int, I420Buffer>,
}

impl HostState {
    /// Every source with a queue has one that exists, and no other source has
    /// the same.
    pub open spec fn is_separate(self) -> bool {
        &&& forall|a: int|
            #[trigger] self.queue_of.contains_key(a) ==> 0 <= self.queue_of[a] < self.queues.len()
        &&& forall|a: int, b: int|
            #[trigger] self.queue_of.contains_key(a) && #[trigger] self.queue_of.contains_key(b)
                && a != b ==> self.queue_of[a] != self.queue_of[b]
    }

    /// The state after source `id` took `step`.
    pub open spec fn after(self, id: int, step: SourceStep) -> HostState {
        match step {
            SourceStep::NewNativeSource { resolution } => HostState {
                native_of: self.native_of.insert(id, resolution),
                ..self
            },
            SourceStep::NewDummyBuffer { buffer } => HostState {
                buffer_of: self.buffer_of.insert(id, buffer),
                ..self
            },
            SourceStep::NewFrameQueue => HostState {
                queues: self.queues.push(Seq::empty()),
                queue_of: self.queue_of.insert(id, self.queues.len() as int),
                ..self
            },
            SourceStep::PushEncodedFrame { data, .. } => HostState {
                queues: self.queues.update(
                    self.queue_of[id],
                    self.queues[self.queue_of[id]].push(data),
                ),
                ..self
            },
            _ => self,
        }
    }

    /// The state after source `id` took a list of steps.
    pub open spec fn after_all(self, id: int, steps: Seq<SourceStep>) -> HostState
        decreases steps.len(),
    {
        if steps.len() == 0 {
            self
        } else {
            self.after_all(id, steps.drop_last()).after(id, steps.last())
        }
    }
}

/// A source that is set up has a queue of its own, which no other source has
/// and which is empty, and a native source and a buffer of its own resolution;
/// what the sources made earlier have stays as it is.
pub proof fn law_new_source_has_its_own_queue(
    host: HostState,
    id: int,
    resolution: VideoResolution,
)
    requires
        host.is_separate(),
        !host.queue_of.contains_key(id),
    ensures
        ({
            let made = host.after_all(id, setup_steps(resolution));
            &&& made.is_separate()
            &&& made.queue_of.contains_key(id) && made.queues[made.queue_of[id]] == Seq::<
                Seq<u8>,
            >::empty()
            &&& made.native_of.contains_key(id) && made.native_of[id] == resolution
            &&& made.buffer_of.contains_key(id) && made.buffer_of[id].width == resolution.width
                && made.buffer_of[id].height == resolution.height
            &&& forall|other: int|
                other != id && #[trigger] host.buffer_of.contains_key(other) ==> {
                    &&& made.buffer_of.contains_key(other)
                    &&& made.buffer_of[other] == host.buffer_of[other]
                }
            &&& forall|other: int|
                #[trigger] host.queue_of.contains_key(other) ==> {
                    &&& made.queue_of.contains_key(other)
                    &&& made.queue_of[other] == host.queue_of[other]
                    &&& made.queue_of[other] != made.queue_of[id]
                    &&& made.queues[made.queue_of[other]] == host.queues[host.queue_of[other]]
                }
            &&& forall|other: int|
                other != id && #[trigger] host.native_of.contains_key(other) ==> {
                    &&& made.native_of.contains_key(other)
                    &&& made.native_of[other] == host.native_of[other]
                }
        }),
{
    let steps = setup_steps(resolution);
    let one = steps.drop_last().drop_last().drop_last();
    assert(one.last() == steps[0]);
    assert(one.drop_last() == Seq::<SourceStep>::empty());
    assert(steps.drop_last().drop_last().last() == steps[1]);
    assert(steps.drop_last().last() == steps[2]);
    reveal_with_fuel(HostState::after_all, 5);
}

/// Access units go to the end of the queue of the source they are pushed to,
/// in order, and to no other queue.
pub proof fn law_pushes_reach_only_the_own_queue(
    host: HostState,
    id: int,
    source: EncodedH264VideoSource,
    pushes: Seq<Push>,
)
    requires
        host.is_separate(),
        host.queue_of.contains_key(id),
    ensures
        ({
            let pushed = host.after_all(id, steps_of_pushes(source, pushes));
            &&& pushed.queue_of == host.queue_of
            &&& pushed.native_of == host.native_of
            &&& pushed.buffer_of == host.buffer_of
            &&& pushed.queues.len() == host.queues.len()
            &&& pushed.queues[host.queue_of[id]] == host.queues[host.queue_of[id]] + Seq::new(
                pushes.len(),
                |k: int| pushes[k].0,
            )
            &&& forall|q: int|
                0 <= q < host.queues.len() && q != host.queue_of[id]
                    ==> #[trigger] pushed.queues[q] == host.queues[q]
        }),
    decreases pushes.len(),
{
    let own = host.queue_of[id];
    if pushes.len() == 0 {
        assert(host.queues[own] + Seq::new(pushes.len(), |k: int| pushes[k].0)
            == host.queues[own]);
    } else {
        let fewer = pushes.drop_last();
        let before = steps_of_pushes(source, fewer);
        let all = steps_of_pushes(source, pushes);
        let steps = push_steps(source, pushes.last().0, pushes.last().1, pushes.last().2);
        law_pushes_reach_only_the_own_queue(host, id, source, fewer);
        let three = all.drop_last();
        let two = three.drop_last();
        let one = two.drop_last();
        assert(one.drop_last() == before);
        assert(one.last() == steps[0]);
        assert(two.last() == steps[1]);
        assert(three.last() == steps[2]);
        assert(all.last() == steps[3]);
        reveal_with_fuel(HostState::after_all, 5);
        let mid = host.after_all(id, before);
        assert(host.after_all(id, all) == mid.after(id, steps[0]));
        assert(Seq::new(fewer.len(), |k: int| fewer[k].0).push(pushes.last().0) == Seq::new(
            pushes.len(),
            |k: int| pushes[k].0,
        ));
        assert(mid.queues[own].push(pushes.last().0) == host.queues[own] + Seq::new(
            pushes.len(),
            |k: int| pushes[k].0,
        ));
    }
}

} // verus!
