//! What the steps of a reader do to the events in its queue.
use crate::batch::BATCH_WRITE_SIZE;
use crate::event::{
    ends_batch, first_end, first_end_is_first, first_end_unique, is_report, InputEvent, ABS_MT_SLOT,
    EV_SYN, SYN_DROPPED, SYN_REPORT,
};
use crate::reader::laws::events_apply_in_order;
use crate::reader::mt::MAX_MT_SLOTS;
use crate::reader::state::{StateView, AXES};
use crate::reader::stream::{apply_keeps_time, events_can_be_taken_one_by_one};
use crate::reader::{
    event_taken, Progress, ReaderView, Request, BATCH_READ_SIZE, RESYNC_READ_LIMIT, RESYNC_READ_SIZE,
};
use crate::wire::EVENT_SIZE;
use vstd::prelude::*;

verus! {

/// Whether the event at `end` is the first `SYN_REPORT` or `SYN_DROPPED` of `events`, or there is none
/// and `end` is their number.
pub open spec fn is_first_marker(events: Seq<InputEvent>, end: int) -> bool {
    &&& 0 <= end <= events.len()
    &&& forall|i: int|
        0 <= i < end ==> !((#[trigger] events[i]).kind == EV_SYN && (events[i].code == SYN_REPORT
            || events[i].code == SYN_DROPPED))
    &&& end < events.len() ==> events[end].kind == EV_SYN && (events[end].code == SYN_REPORT
        || events[end].code == SYN_DROPPED)
}

/// The first marker is the first end of a batch.
proof fn first_marker_is_first_end(events: Seq<InputEvent>, end: int)
    requires
        is_first_marker(events, end),
    ensures
        first_end(events) == end,
{
    assert forall|i: int| 0 <= i < end implies !ends_batch(#[trigger] events[i]) by {}
    first_end_unique(events, end);
}

/// The first marker in the queue decides what a reader does. Without one, more events have to be
/// read. A `SYN_REPORT` completes the report made of all events up to and including it, and taking
/// that report takes exactly these events, applies them to the state in order and changes nothing
/// else. A `SYN_DROPPED` says that events were lost: everything that waits is dropped, and nothing
/// of it reaches the state, except for the time of the marker.
pub proof fn first_marker_decides<D>(reader: ReaderView<D>, end: int)
    requires
        is_first_marker(reader.queue, end),
    ensures
        reader.needs_read() <==> end == reader.queue.len(),
        reader.has_report() <==> end < reader.queue.len() && reader.queue[end].code == SYN_REPORT,
        reader.has_loss() <==> end < reader.queue.len() && reader.queue[end].code == SYN_DROPPED,
        reader.has_report() ==> {
            &&& reader.batch() == reader.queue.take(end + 1)
            &&& reader.after_report() == (ReaderView {
                state: reader.state.apply_all(reader.queue.take(end + 1)),
                queue: reader.queue.skip(end + 1),
                ..reader
            })
        },
        reader.has_loss() ==> reader.after_loss() == (ReaderView {
            state: StateView { last_event: reader.queue[end].time, ..reader.state },
            queue: Seq::empty(),
            discarding: true,
            ..reader
        }),
{
    first_marker_is_first_end(reader.queue, end);
}

/// A reader that cannot go on has no complete report. It waits for a read and is unchanged if there
/// is no marker in its queue, and waits for a resynchronization, with an empty queue, if the first
/// marker says that events were lost.
pub proof fn blocked_reader_has_no_report<D>(
    reader: ReaderView<D>,
    request: Request,
    after: ReaderView<D>,
    end: int,
)
    requires
        is_first_marker(reader.queue, end),
        reader.blocked_on(request, after),
    ensures
        end == reader.queue.len() || reader.queue[end].code == SYN_DROPPED,
        end == reader.queue.len() ==> request == Request::Read && after == reader,
        end < reader.queue.len() ==> {
            &&& request == Request::Resync
            &&& after.queue.len() == 0
            &&& after.discarding
            &&& after.device == reader.device
            &&& after.state == (StateView { last_event: reader.queue[end].time, ..reader.state })
        },
{
    first_marker_decides(reader, end);
}

/// Taking events takes them from the front of the queue, applies them to the state and changes
/// nothing else.
pub proof fn taken_events_come_from_the_front<D>(reader: ReaderView<D>, count: int)
    requires
        0 <= count <= reader.queue.len(),
    ensures
        reader.after_events(count).state == reader.state.apply_all(reader.queue.take(count)),
        reader.queue.take(count) + reader.after_events(count).queue == reader.queue,
        reader.after_events(count).device == reader.device,
        reader.after_events(count).discarding == reader.discarding,
{
    assert(reader.queue.take(count) + reader.queue.skip(count) =~= reader.queue);
}

/// Handing out an event hands out the one at the front of the queue, every field of it unchanged,
/// and keeps track of the report it belongs to.
pub proof fn handed_out_event_is_the_first<D>(
    before: ReaderView<D>,
    remaining: usize,
    event: InputEvent,
    after: ReaderView<D>,
    left: usize,
)
    requires
        before.in_report(remaining),
        event_taken(before, remaining, Progress::Ready(event), after, left),
    ensures
        before.queue.len() > 0,
        event == before.queue[0],
        event.time == before.queue[0].time,
        event.kind == before.queue[0].kind,
        event.code == before.queue[0].code,
        event.value == before.queue[0].value,
        after.queue == before.queue.skip(1),
        after == before.after_events(1),
        after.in_report(left),
        remaining == 0 ==> before.has_report(),
        left == 0 <==> event.kind == EV_SYN && event.code == SYN_REPORT,
{
    first_end_is_first(before.queue);
    assert(before.queue.skip(1) =~= before.queue.drop_first());
    if first_end(before.queue) > 0 {
        assert(!ends_batch(before.queue[0]));
        assert(before.queue.drop_first()[first_end(before.queue) - 1] == before.queue[first_end(
            before.queue,
        ) as int]);
    }
}

/// The events that are handed out one after the other are the events at the front of the queue, in
/// order and unchanged, and leave the reader as taking them together does. In particular, handing
/// out as many events as the first report has hands out the events of that report, and leaves the
/// reader as taking the report does.
pub proof fn events_are_handed_out_in_order<D>(
    readers: Seq<ReaderView<D>>,
    remaining: Seq<usize>,
    events: Seq<InputEvent>,
)
    requires
        readers.len() == events.len() + 1,
        remaining.len() == events.len() + 1,
        readers[0].in_report(remaining[0]),
        forall|i: int|
            0 <= i < events.len() ==> event_taken(
                readers[i],
                remaining[i],
                Progress::Ready(#[trigger] events[i]),
                readers[i + 1],
                remaining[i + 1],
            ),
    ensures
        events.len() <= readers[0].queue.len(),
        events == readers[0].queue.take(events.len() as int),
        readers.last().queue == readers[0].queue.skip(events.len() as int),
        readers.last() == readers[0].after_events(events.len() as int),
        readers.last().in_report(remaining.last()),
        readers[0].has_report() && events.len() == readers[0].batch().len() ==> {
            &&& events == readers[0].batch()
            &&& readers.last() == readers[0].after_report()
            &&& remaining.last() == 0
        },
    decreases events.len(),
{
    let first = readers[0];
    if events.len() == 0 {
        assert(events =~= first.queue.take(0));
        assert(first.queue.skip(0) =~= first.queue);
        first_end_is_first(first.queue);
    } else {
        let n = events.len() - 1;
        let before = readers.drop_last();
        let counts = remaining.drop_last();
        let taken = events.drop_last();
        assert forall|i: int| 0 <= i < taken.len() implies event_taken(
            before[i],
            counts[i],
            Progress::Ready(#[trigger] taken[i]),
            before[i + 1],
            counts[i + 1],
        ) by {
            assert(taken[i] == events[i]);
        }
        events_are_handed_out_in_order(before, counts, taken);
        assert(before.last() == readers[n]);
        assert(events[n] == events.last());
        handed_out_event_is_the_first(
            readers[n],
            remaining[n],
            events[n],
            readers[n + 1],
            remaining[n + 1],
        );
        events_can_be_taken_one_by_one(first, n as int, 1);
        assert(readers[n].queue[0] == first.queue[n as int]);
        assert(events =~= first.queue.take(events.len() as int));
        if first.has_report() && events.len() == first.batch().len() {
            first_end_is_first(first.queue);
            assert(events[n] == first.queue[first_end(first.queue) as int]);
        }
    }
}

/// Events that are read are appended to the queue, in order, and nothing that waits is lost. Only
/// while events are discarded, everything up to and including the first marker is dropped, if that
/// is a `SYN_REPORT`, and with it the need to discard. The state does not change, except for the
/// time of the last batch that has been completed.
pub proof fn read_events_are_appended<D>(
    reader: ReaderView<D>,
    events: Seq<InputEvent>,
    end: int,
    next: int,
)
    requires
        is_first_marker(reader.queue + events, end),
        end < (reader.queue + events).len() ==> is_first_marker(
            (reader.queue + events).skip(end + 1),
            next,
        ),
    ensures
        ({
            let all = reader.queue + events;
            let after = reader.after_refill(events);
            let discards = reader.discarding && end < all.len() && all[end].code == SYN_REPORT;
            &&& after.queue == if discards {
                all.skip(end + 1)
            } else {
                all
            }
            &&& after.discarding == (reader.discarding && !discards)
            &&& after.device == reader.device
            &&& after.state == (StateView {
                last_event: if end == all.len() {
                    reader.state.last_event
                } else if discards && next < all.skip(end + 1).len() {
                    all.skip(end + 1)[next].time
                } else {
                    all[end].time
                },
                ..reader.state
            })
        }),
{
    let all = reader.queue + events;
    first_marker_is_first_end(all, end);
    if end < all.len() {
        first_marker_is_first_end(all.skip(end + 1), next);
    }
}

/// A resynchronization replaces what waits with the events that tell the differences, and takes over
/// the state of the device. On a device that has `ABS_MT_SLOT`, that is all of its multitouch state.
pub proof fn resync_replaces_the_queue<D>(
    reader: ReaderView<D>,
    current: StateView,
    slot: i32,
    code: u16,
)
    ensures
        ({
            let after = reader.after_resync(current);
            &&& after.queue == reader.state.resync_events(current)
            &&& after.device == reader.device
            &&& after.discarding == reader.discarding
            &&& after.state.agrees_with(current)
            &&& after.state.last_event == reader.state.last_event
            &&& after.state.abs_axes == reader.state.abs_axes
            &&& reader.state.abs_axes.contains(ABS_MT_SLOT) ==> {
                &&& after.state.mt == current.mt
                &&& after.state.mt.active_slot == current.mt.active_slot
                &&& after.state.mt.slots == current.mt.slots
                &&& after.state.mt.value(slot, code) == current.mt.value(slot, code)
                &&& after.state.mt.valid_slots() == current.mt.valid_slots()
            }
            &&& !reader.state.abs_axes.contains(ABS_MT_SLOT) ==> after.state.mt == reader.state.mt
        }),
{
}

/// Whether `end` is the position past the last `SYN_REPORT` of `events`, or 0 if there is none.
pub open spec fn is_past_last_report(events: Seq<InputEvent>, end: int) -> bool {
    &&& 0 <= end <= events.len()
    &&& end > 0 ==> events[end - 1].kind == EV_SYN && events[end - 1].code == SYN_REPORT
    &&& forall|i: int|
        end <= i < events.len() ==> !((#[trigger] events[i]).kind == EV_SYN && events[i].code
            == SYN_REPORT)
}

/// Whether none of `events` is a `SYN_DROPPED`.
pub open spec fn has_no_dropped(events: Seq<InputEvent>) -> bool {
    forall|i: int|
        0 <= i < events.len() ==> !((#[trigger] events[i]).kind == EV_SYN && events[i].code
            == SYN_DROPPED)
}

/// Taking all complete reports takes everything up to the last `SYN_REPORT` before a loss.
proof fn reports_end_at_last_report<D>(reader: ReaderView<D>, end: int, lost: int)
    requires
        0 <= end <= lost <= reader.queue.len(),
        has_no_dropped(reader.queue.take(lost)),
        is_past_last_report(reader.queue.take(lost), end),
        lost < reader.queue.len() ==> reader.queue[lost].kind == EV_SYN && reader.queue[lost].code
            == SYN_DROPPED,
    ensures
        reader.after_reports() == reader.after_events(end),
        first_end(reader.queue.skip(end)) == lost - end,
    decreases reader.queue.len(),
{
    let queue = reader.queue;
    let known = queue.take(lost);
    first_end_is_first(queue);
    let first = first_end(queue) as int;
    if end == 0 {
        assert forall|i: int| 0 <= i < lost implies !ends_batch(#[trigger] queue[i]) by {
            assert(queue[i] == known[i]);
        }
        first_end_unique(queue, lost);
        assert(queue.skip(0) =~= queue);
        assert(queue.take(0) =~= Seq::<InputEvent>::empty());
    } else {
        assert(ends_batch(known[end - 1]));
        assert(known[end - 1] == queue[end - 1]);
        assert(first <= end - 1);
        assert(known[first] == queue[first]);
        assert(reader.has_report());
        let next = reader.after_report();
        let rest = next.queue.take(lost - first - 1);
        assert forall|i: int| 0 <= i < rest.len() implies #[trigger] rest[i] == known[first + 1
            + i] by {}
        if end - first - 1 > 0 {
            assert(rest[end - first - 2] == known[end - 1]);
        }
        reports_end_at_last_report(next, end - first - 1, lost - first - 1);
        events_can_be_taken_one_by_one(reader, first + 1, end - first - 1);
        assert(next.queue.skip(end - first - 1) =~= queue.skip(end));
    }
}

/// Without a loss, an update takes exactly the complete reports: everything up to and including the
/// last `SYN_REPORT` in the queue is applied to the state, in order, and everything behind it waits,
/// unchanged. Nothing else changes, and more events have to be read.
pub proof fn update_takes_the_complete_reports<D>(reader: ReaderView<D>, end: int)
    requires
        has_no_dropped(reader.queue),
        is_past_last_report(reader.queue, end),
    ensures
        reader.after_update() == (ReaderView {
            state: reader.state.apply_all(reader.queue.take(end)),
            queue: reader.queue.skip(end),
            ..reader
        }),
        !reader.after_reports().has_loss(),
        reader.after_update().needs_read(),
{
    let queue = reader.queue;
    assert(queue.take(queue.len() as int) =~= queue);
    reports_end_at_last_report(reader, end, queue.len() as int);
}

/// When the first `SYN_DROPPED` in the queue is at `lost`, an update takes the reports that are
/// complete before it, and nothing else: what else waits is dropped, and events are discarded from
/// then on.
pub proof fn update_stops_at_a_loss<D>(reader: ReaderView<D>, end: int, lost: int)
    requires
        0 <= lost < reader.queue.len(),
        has_no_dropped(reader.queue.take(lost)),
        is_past_last_report(reader.queue.take(lost), end),
        reader.queue[lost].kind == EV_SYN,
        reader.queue[lost].code == SYN_DROPPED,
    ensures
        reader.after_reports().has_loss(),
        reader.after_update() == (ReaderView {
            state: StateView {
                last_event: reader.queue[lost].time,
                ..reader.state.apply_all(reader.queue.take(end))
            },
            queue: Seq::empty(),
            discarding: true,
            ..reader
        }),
{
    reports_end_at_last_report(reader, end, lost);
    assert(reader.queue.skip(end)[lost - end] == reader.queue[lost]);
}

/// There is a position past the last report.
proof fn past_last_report(events: Seq<InputEvent>) -> (end: int)
    ensures
        is_past_last_report(events, end),
    decreases events.len(),
{
    if events.len() == 0 {
        0
    } else if is_report(events.last()) {
        events.len() as int
    } else {
        let end = past_last_report(events.drop_last());
        assert forall|i: int| end <= i < events.len() implies !((#[trigger] events[i]).kind == EV_SYN
            && events[i].code == SYN_REPORT) by {
            if i < events.len() - 1 {
                assert(events.drop_last()[i] == events[i]);
            }
        }
        if end > 0 {
            assert(events.drop_last()[end - 1] == events[end - 1]);
        }
        end
    }
}

/// Over any series of updates and reads without a loss, the reader ends up with the state that it had
/// at first, changed by everything up to and including the last `SYN_REPORT` of what waited and what
/// was read, in order. Everything behind it still waits.
pub proof fn updates_follow_the_device<D>(
    readers: Seq<ReaderView<D>>,
    reads: Seq<Seq<InputEvent>>,
    end: int,
)
    requires
        readers.len() == reads.len() + 1,
        !readers[0].discarding,
        forall|i: int|
            0 <= i < reads.len() ==> readers[i + 1] == readers[i].after_update().after_refill(
                #[trigger] reads[i],
            ),
        has_no_dropped(readers[0].queue + reads.flatten()),
        is_past_last_report(readers[0].queue + reads.flatten(), end),
    ensures
        ({
            let all = readers[0].queue + reads.flatten();
            let after = readers.last().after_update();
            &&& after.queue == all.skip(end)
            &&& after.state == (StateView {
                last_event: after.state.last_event,
                ..readers[0].state.apply_all(all.take(end))
            })
            &&& after.device == readers[0].device
            &&& !after.discarding
        }),
    decreases reads.len(),
{
    let first = readers[0];
    let all = first.queue + reads.flatten();
    if reads.len() == 0 {
        assert(all =~= first.queue);
        update_takes_the_complete_reports(first, end);
    } else {
        let more = reads.drop_first();
        let later = readers.drop_first();
        assert(reads.flatten() == reads[0] + more.flatten());
        let done = past_last_report(first.queue);
        assert forall|i: int| 0 <= i < first.queue.len() implies #[trigger] first.queue[i]
            == all[i] by {}
        update_takes_the_complete_reports(first, done);
        if done > 0 {
            assert(first.queue[done - 1] == all[done - 1]);
            assert(done <= end);
        }
        let updated = first.after_update();
        let next = readers[1];
        assert(readers[0int + 1] == readers[0].after_update().after_refill(reads[0]));
        assert forall|i: int| 0 <= i < more.len() implies later[i + 1]
            == later[i].after_update().after_refill(#[trigger] more[i]) by {
            assert(more[i] == reads[i + 1]);
            assert(readers[(i + 1) + 1] == readers[i + 1].after_update().after_refill(
                reads[i + 1],
            ));
        }
        let rest = next.queue + more.flatten();
        assert(next.queue == updated.queue + reads[0]);
        assert(rest =~= all.skip(done));
        assert forall|i: int| 0 <= i < rest.len() implies #[trigger] rest[i] == all[done + i] by {}
        if end - done > 0 {
            assert(rest[end - done - 1] == all[end - 1]);
        }
        updates_follow_the_device(later, more, end - done);
        let head = first.queue.take(done);
        let tail = rest.take(end - done);
        assert(all.take(end) =~= head + tail);
        assert(rest.skip(end - done) =~= all.skip(end));
        events_apply_in_order(first.state, head, tail);
        apply_keeps_time(updated.state, next.state.last_event, tail);
        assert(later.last() == readers.last());
    }
}

/// The sizes of reads and writes, and the limits on them.
pub proof fn sizes_and_limits()
    ensures
        BATCH_READ_SIZE * EVENT_SIZE <= 512 < (BATCH_READ_SIZE + 1) * EVENT_SIZE,
        RESYNC_READ_LIMIT == 16,
        RESYNC_READ_SIZE == 128,
        BATCH_WRITE_SIZE == 12,
        EVENT_SIZE == 24,
        MAX_MT_SLOTS == 60,
        AXES == ABS_MT_SLOT,
{
}

} // verus!
