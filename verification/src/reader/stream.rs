//! What holds of the stream of events that a reader passes on.
use crate::event::{
    ends_batch, first_end, first_end_is_first, first_end_unique, is_dropped, is_report, InputEvent,
    Timestamp,
};
use crate::reader::laws::{
    events_apply_in_order, resync_events_form_a_report, resync_events_keep_resynced_state,
    resync_events_lead_to_current, states_stay_in_agreement,
};
use crate::reader::state::{StateView, AXES};
use crate::reader::ReaderView;
use vstd::prelude::*;

verus! {

/// A report ends with a `SYN_REPORT`, and has no other event that ends a batch. Taking it takes
/// these events from the front of the queue and keeps all others, in order.
pub proof fn report_is_one_batch<D>(reader: ReaderView<D>)
    requires
        reader.has_report(),
    ensures
        is_report(reader.batch().last()),
        forall|i: int|
            0 <= i < reader.batch().len() - 1 ==> !ends_batch(#[trigger] reader.batch()[i]),
        reader.batch() + reader.after_report().queue == reader.queue,
{
    first_end_is_first(reader.queue);
    let batch = reader.batch();
    assert forall|i: int| 0 <= i < batch.len() - 1 implies !ends_batch(#[trigger] batch[i]) by {
        assert(batch[i] == reader.queue[i]);
    }
    assert(reader.batch() + reader.after_report().queue =~= reader.queue);
}

/// Taking events one after the other is the same as taking them together. In particular, taking
/// the events of a report one by one leaves the reader as taking the report does.
pub proof fn events_can_be_taken_one_by_one<D>(reader: ReaderView<D>, first: int, second: int)
    requires
        0 <= first,
        0 <= second,
        first + second <= reader.queue.len(),
    ensures
        reader.after_events(first).after_events(second) == reader.after_events(first + second),
        reader.after_report() == reader.after_events(first_end(reader.queue) as int + 1),
{
    let taken = reader.queue.take(first);
    let then_taken = reader.queue.skip(first).take(second);
    events_apply_in_order(reader.state, taken, then_taken);
    assert(taken + then_taken =~= reader.queue.take(first + second));
    assert(reader.queue.skip(first).skip(second) =~= reader.queue.skip(first + second));
}

/// Taking events one by one removes them from the report they belong to, and from nothing else: what
/// is left of the report is still a report, made of its other events.
pub proof fn rest_of_report_is_a_report<D>(reader: ReaderView<D>, count: int)
    requires
        reader.has_report(),
        0 <= count <= first_end(reader.queue),
    ensures
        reader.after_events(count).has_report(),
        reader.after_events(count).batch() == reader.queue.subrange(
            count,
            first_end(reader.queue) as int + 1,
        ),
        reader.after_events(count).after_report() == reader.after_report(),
{
    first_end_is_first(reader.queue);
    let rest = reader.after_events(count);
    let end = first_end(reader.queue) as int;
    assert forall|i: int| 0 <= i < end - count implies !ends_batch(#[trigger] rest.queue[i]) by {
        assert(rest.queue[i] == reader.queue[count + i]);
    }
    first_end_unique(rest.queue, end - count);
    assert(rest.batch() =~= reader.queue.subrange(count, end + 1));
    events_can_be_taken_one_by_one(reader, count, end + 1 - count);
}

/// What has been read is part of a longer read.
proof fn first_end_of_longer(first: Seq<InputEvent>, second: Seq<InputEvent>)
    ensures
        first_end(first) < first.len() ==> first_end(first + second) == first_end(first),
{
    first_end_is_first(first);
    if first_end(first) < first.len() {
        let all = first + second;
        let end = first_end(first) as int;
        assert forall|i: int| 0 <= i < end implies !ends_batch(#[trigger] all[i]) by {
            assert(all[i] == first[i]);
        }
        first_end_unique(all, end);
    }
}

/// It makes no difference how the events of a device are distributed over reads: reading `first`
/// and, since no batch is complete then, `second`, is the same as reading both at once.
pub proof fn reads_can_be_split<D>(
    reader: ReaderView<D>,
    first: Seq<InputEvent>,
    second: Seq<InputEvent>,
)
    requires
        reader.after_refill(first).needs_read(),
    ensures
        reader.after_refill(first).after_refill(second) == reader.after_refill(first + second),
{
    let read = ReaderView { queue: reader.queue + first, ..reader };
    let queue = read.queue;
    let all = reader.queue + (first + second);
    assert(queue + second =~= all);
    first_end_is_first(queue);
    first_end_of_longer(queue, second);
    if reader.discarding && read.has_report() {
        let end = first_end(queue) as int;
        assert(queue.skip(end + 1) + second =~= all.skip(end + 1));
    }
}

/// Bringing a reader up to date leaves at most one report in its queue, which consists of the
/// events that represent what has changed. Once that report has been taken, or if there is none,
/// the state of the reader is what the device reports, and the queue is empty.
pub proof fn resync_report_catches_up<D>(reader: ReaderView<D>, current: StateView)
    requires
        reader.state.abs.len() == AXES,
        current.abs.len() == AXES,
    ensures
        ({
            let synced = reader.after_resync(current);
            let caught_up = ReaderView {
                state: reader.state.resynced(current),
                queue: Seq::empty(),
                ..reader
            };
            if synced.queue.len() == 0 {
                synced.needs_read() && synced == caught_up
            } else {
                &&& synced.has_report()
                &&& synced.batch() == reader.state.resync_events(current)
                &&& synced.after_report() == caught_up
            }
        }),
{
    let synced = reader.after_resync(current);
    let events = reader.state.resync_events(current);
    resync_events_form_a_report(reader.state, current);
    if events.len() > 0 {
        assert forall|i: int| 0 <= i < events.len() - 1 implies !ends_batch(
            #[trigger] events[i],
        ) by {
        }
        first_end_unique(events, events.len() - 1);
        resync_events_keep_resynced_state(reader.state, current);
        assert(events.take(events.len() as int) =~= events);
        assert(synced.after_report().queue =~= Seq::<InputEvent>::empty());
    } else {
        assert(synced.queue =~= Seq::<InputEvent>::empty());
    }
}

/// Whoever follows the reports of a reader knows the same keys, LEDs, sounds, switches and axes as
/// the reader.
pub proof fn consumer_follows_reports<D>(reader: ReaderView<D>, consumer: StateView)
    requires
        reader.has_report(),
        consumer.agrees_with(reader.state),
    ensures
        consumer.apply_all(reader.batch()).agrees_with(reader.after_report().state),
{
    states_stay_in_agreement(consumer, reader.state, reader.batch());
}

/// Whoever has followed the reports of a reader so far is brought up to date with the device by the
/// report that a resynchronization leads to, and is up to date already if there is none.
pub proof fn consumer_catches_up<D>(
    reader: ReaderView<D>,
    consumer: StateView,
    current: StateView,
)
    requires
        reader.state.abs.len() == AXES,
        current.abs.len() == AXES,
        consumer.agrees_with(reader.state),
    ensures
        ({
            let synced = reader.after_resync(current);
            if synced.queue.len() == 0 {
                &&& consumer.agrees_with(current)
                &&& synced.state.agrees_with(current)
            } else {
                &&& consumer.apply_all(synced.batch()).agrees_with(current)
                &&& synced.after_report().state.agrees_with(current)
            }
        }),
{
    let events = reader.state.resync_events(current);
    resync_report_catches_up(reader, current);
    resync_events_lead_to_current(reader.state, current);
    states_stay_in_agreement(consumer, reader.state, events);
}

/// The events made up after a loss carry the time at which the loss was reported.
pub proof fn resync_events_carry_time_of_loss<D>(reader: ReaderView<D>, current: StateView)
    requires
        reader.has_loss(),
    ensures
        ({
            let lost = reader.queue[first_end(reader.queue) as int];
            let queue = reader.after_loss().after_resync(current).queue;
            forall|i: int| 0 <= i < queue.len() ==> (#[trigger] queue[i]).time == lost.time
        }),
{
    resync_events_form_a_report(reader.after_loss().state, current);
}

/// After events have been lost, nothing that waited reaches the consumer, and neither does what
/// the device reports up to the next `SYN_REPORT`: once the reader has caught up, what it has left
/// of a read that completes a report is what follows that report.
pub proof fn lost_report_is_discarded<D>(
    reader: ReaderView<D>,
    current: StateView,
    events: Seq<InputEvent>,
)
    requires
        reader.has_loss(),
        reader.state.abs.len() == AXES,
        current.abs.len() == AXES,
        first_end(events) < events.len(),
        is_report(events[first_end(events) as int]),
    ensures
        ({
            let synced = reader.after_loss().after_resync(current);
            let caught_up = if synced.queue.len() == 0 {
                synced
            } else {
                synced.after_report()
            };
            let rest = ReaderView {
                state: StateView {
                    last_event: events[first_end(events) as int].time,
                    ..reader.state.resynced(current)
                },
                queue: events.skip(first_end(events) as int + 1),
                discarding: false,
                ..reader
            };
            caught_up.after_refill(events) == rest.noted()
        }),
{
    resync_report_catches_up(reader.after_loss(), current);
    assert(Seq::<InputEvent>::empty() + events =~= events);
}

/// Events do not change when the last batch ended.
pub proof fn apply_keeps_time(state: StateView, time: Timestamp, events: Seq<InputEvent>)
    ensures
        (StateView { last_event: time, ..state }).apply_all(events) == (StateView {
            last_event: time,
            ..state.apply_all(events)
        }),
    decreases events.len(),
{
    if events.len() > 0 {
        apply_keeps_time(state, time, events.drop_last());
    }
}

/// The events of all complete reports that wait, in order.
pub open spec fn reported<D>(reader: ReaderView<D>) -> Seq<InputEvent>
    decreases reader.queue.len(),
{
    if reader.has_report() && first_end(reader.queue) < reader.queue.len() {
        reader.batch() + reported(reader.after_report())
    } else {
        Seq::empty()
    }
}

/// Taking all complete reports takes the events up to the end of the last of them, in order, and
/// leaves no complete report behind.
pub proof fn all_reports_are_taken<D>(reader: ReaderView<D>)
    ensures
        ({
            let rest = reader.after_reports();
            let count = reader.queue.len() - rest.queue.len();
            &&& !rest.has_report()
            &&& 0 <= count <= reader.queue.len()
            &&& count > 0 ==> is_report(reader.queue[count - 1])
            &&& reported(reader) == reader.queue.take(count)
            &&& rest == reader.after_events(count)
        }),
    decreases reader.queue.len(),
{
    let rest = reader.after_reports();
    first_end_is_first(reader.queue);
    if reader.has_report() {
        let end = first_end(reader.queue) as int + 1;
        let next = reader.after_report();
        all_reports_are_taken(next);
        let more = next.queue.len() - rest.queue.len();
        events_can_be_taken_one_by_one(reader, end, more);
        if more > 0 {
            assert(next.queue[more - 1] == reader.queue[end + more - 1]);
        }
        assert(reader.queue.take(end + more) =~= reader.queue.take(end) + next.queue.take(more));
    } else {
        assert(reader.queue.take(0) =~= Seq::<InputEvent>::empty());
        assert(reader.queue.skip(0) =~= reader.queue);
    }
}

/// Whether no events were lost among these.
pub open spec fn no_loss(events: Seq<InputEvent>) -> bool {
    forall|i: int| 0 <= i < events.len() ==> !is_dropped(#[trigger] events[i])
}

/// The reader after several reads, when all complete reports are taken before each of them and at
/// the end. A read that fails leaves the reader as it is.
pub open spec fn after_reads<D>(reader: ReaderView<D>, reads: Seq<Seq<InputEvent>>) -> ReaderView<D>
    decreases reads.len(),
{
    if reads.len() == 0 {
        reader.after_reports()
    } else {
        after_reads(reader.after_reports().after_refill(reads[0]), reads.drop_first())
    }
}

/// The events of all reports that are taken over several reads, in order.
pub open spec fn reported_in_all<D>(reader: ReaderView<D>, reads: Seq<Seq<InputEvent>>) -> Seq<
    InputEvent,
>
    decreases reads.len(),
{
    if reads.len() == 0 {
        reported(reader)
    } else {
        reported(reader) + reported_in_all(
            reader.after_reports().after_refill(reads[0]),
            reads.drop_first(),
        )
    }
}

/// A read that gives no events changes nothing.
pub proof fn empty_read_changes_nothing<D>(reader: ReaderView<D>)
    requires
        reader.needs_read(),
    ensures
        reader.after_refill(Seq::empty()) == reader,
{
    assert(reader.queue + Seq::<InputEvent>::empty() =~= reader.queue);
}

/// As long as no events are lost, reports neither lose, repeat nor reorder any events: the events
/// of the reports that have been taken and those that wait, taken together, are those that waited
/// and those that were read. What has been taken makes up complete reports, and is what the state
/// of the reader has followed.
pub proof fn reports_keep_order<D>(reader: ReaderView<D>, reads: Seq<Seq<InputEvent>>)
    requires
        !reader.discarding,
        no_loss(reader.queue),
        forall|i: int| 0 <= i < reads.len() ==> no_loss(#[trigger] reads[i]),
    ensures
        ({
            let taken = reported_in_all(reader, reads);
            let left = after_reads(reader, reads);
            &&& taken + left.queue == reader.queue + reads.flatten()
            &&& taken.len() > 0 ==> is_report(taken.last())
            &&& left.needs_read()
            &&& left == (ReaderView {
                state: StateView {
                    last_event: left.state.last_event,
                    ..reader.state.apply_all(taken)
                },
                queue: left.queue,
                ..reader
            })
        }),
    decreases reads.len(),
{
    all_reports_are_taken(reader);
    let rest = reader.after_reports();
    let count = reader.queue.len() - rest.queue.len();
    let first = reported(reader);
    first_end_is_first(rest.queue);
    if !rest.needs_read() {
        let end = first_end(rest.queue) as int;
        assert(rest.queue[end] == reader.queue[count + end]);
    }
    assert(first + rest.queue =~= reader.queue);
    if reads.len() == 0 {
        assert(reader.queue + reads.flatten() =~= reader.queue);
    } else {
        let next = rest.after_refill(reads[0]);
        let more = reads.drop_first();
        let taken = reported_in_all(next, more);
        assert(no_loss(reads[0]));
        assert forall|i: int| 0 <= i < next.queue.len() implies !is_dropped(
            #[trigger] next.queue[i],
        ) by {
            if i < rest.queue.len() {
                assert(next.queue[i] == reader.queue[count + i]);
            } else {
                assert(next.queue[i] == reads[0][i - rest.queue.len()]);
            }
        }
        assert forall|i: int| 0 <= i < more.len() implies no_loss(#[trigger] more[i]) by {
            assert(more[i] == reads[i + 1]);
        }
        reports_keep_order(next, more);
        let left = after_reads(next, more);
        assert(reads.flatten() == reads[0] + more.flatten());
        assert((first + taken) + left.queue =~= first + (taken + left.queue));
        assert(first + ((rest.queue + reads[0]) + more.flatten()) =~= (first + rest.queue) + (
        reads[0] + more.flatten()));
        events_apply_in_order(reader.state, first, taken);
        apply_keeps_time(rest.state, next.state.last_event, taken);
        if taken.len() > 0 {
            assert((first + taken).last() == taken.last());
        } else {
            assert(first + taken =~= first);
        }
    }
}

/// After a loss, the reports that are taken are those behind the first `SYN_REPORT` that is read,
/// and again none of their events are lost, repeated or reordered. Until then, nothing is taken.
pub proof fn reports_resume_after_loss<D>(reader: ReaderView<D>, reads: Seq<Seq<InputEvent>>)
    requires
        reader.discarding,
        reader.needs_read(),
        no_loss(reader.queue),
        forall|i: int| 0 <= i < reads.len() ==> no_loss(#[trigger] reads[i]),
    ensures
        ({
            let all = reader.queue + reads.flatten();
            let end = first_end(all) as int;
            let taken = reported_in_all(reader, reads);
            let left = after_reads(reader, reads);
            if end < all.len() {
                &&& taken + left.queue == all.skip(end + 1)
                &&& taken.len() > 0 ==> is_report(taken.last())
                &&& left.needs_read()
                &&& left == (ReaderView {
                    state: StateView {
                        last_event: left.state.last_event,
                        ..reader.state.apply_all(taken)
                    },
                    queue: left.queue,
                    discarding: false,
                    ..reader
                })
            } else {
                &&& taken == Seq::<InputEvent>::empty()
                &&& left == (ReaderView { queue: all, ..reader })
            }
        }),
    decreases reads.len(),
{
    let all = reader.queue + reads.flatten();
    if reads.len() == 0 {
        assert(all =~= reader.queue);
    } else {
        let queue = reader.queue + reads[0];
        let next = reader.after_refill(reads[0]);
        let more = reads.drop_first();
        assert(reads.flatten() == reads[0] + more.flatten());
        assert(all =~= queue + more.flatten());
        assert(no_loss(reads[0]));
        assert forall|i: int| 0 <= i < queue.len() implies !is_dropped(#[trigger] queue[i]) by {
            if i < reader.queue.len() {
                assert(queue[i] == reader.queue[i]);
            } else {
                assert(queue[i] == reads[0][i - reader.queue.len()]);
            }
        }
        assert forall|i: int| 0 <= i < more.len() implies no_loss(#[trigger] more[i]) by {
            assert(more[i] == reads[i + 1]);
        }
        first_end_is_first(queue);
        let end = first_end(queue) as int;
        let taken = reported_in_all(next, more);
        assert(Seq::<InputEvent>::empty() + taken =~= taken);
        if end < queue.len() {
            first_end_of_longer(queue, more.flatten());
            assert forall|i: int| 0 <= i < next.queue.len() implies !is_dropped(
                #[trigger] next.queue[i],
            ) by {
                assert(next.queue[i] == queue[end + 1 + i]);
            }
            reports_keep_order(next, more);
            assert(next.queue + more.flatten() =~= all.skip(end + 1));
            apply_keeps_time(reader.state, next.state.last_event, taken);
        } else {
            reports_resume_after_loss(next, more);
            assert(next.queue + more.flatten() =~= all);
        }
    }
}

} // verus!
