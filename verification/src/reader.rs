//! A convenient API for robustly reading device events.
//!
//! The reader does not perform any input or output itself. It says what it needs before it can
//! go on, and is handed what came of it.
pub mod laws;
pub mod mt;
pub mod state;
pub mod steps;
pub mod stream;

use crate::bits::BitSet;
use crate::event::{
    ends_batch, first_end, first_end_is_first, first_end_unique, is_dropped, is_report,
    report_or_dropped, Abs, BitValue, InputEvent, Key, Led, Slot, Sound, Switch, Timestamp,
    ABS_MT_SLOT, SYN_REPORT,
};
use crate::reader::mt::MtView;
use crate::reader::state::{DeviceState, StateView, AXES};
use std::collections::VecDeque;
use std::marker::PhantomData;
use std::sync::Arc;
use vstd::prelude::*;

verus! {

/// The number of events to read at a time. 21 events take 504 bytes, which fills an allocation of
/// 512 bytes with little waste.
pub const BATCH_READ_SIZE: usize = 21;

/// The largest number of reads made to empty the kernel's buffer before a resynchronization.
pub const RESYNC_READ_LIMIT: usize = 16;

/// The number of events in each of these reads.
pub const RESYNC_READ_SIZE: usize = 128;

/// What has to be done before a reader can go on.
#[derive(Clone, Copy, Debug, PartialEq, Eq, Structural)]
pub enum Request {
    /// Read more events from the device and hand them to [`EventReader::refill`].
    Read,
    /// Events were lost. Empty the kernel's buffer, fetch the state of the device and hand it to
    /// [`EventReader::resync`].
    Resync,
}

/// The outcome of asking a reader for the next item.
#[derive(Debug)]
pub enum Progress<T> {
    Ready(T),
    Blocked(Request),
}

/// What is known about a device, and the events that wait to be taken.
#[verifier::ext_equal]
#[verifier::reject_recursive_types(D)]
pub struct ReaderView<D> {
    pub device: D,
    pub state: StateView,
    pub queue: Seq<InputEvent>,
    /// Whether events are discarded until the device has completed a report.
    pub discarding: bool,
}

impl<D> ReaderView<D> {
    /// Whether more events have to be read: no batch is complete.
    pub open spec fn needs_read(self) -> bool {
        first_end(self.queue) == self.queue.len()
    }

    /// Whether the first batch is a report.
    pub open spec fn has_report(self) -> bool {
        !self.needs_read() && is_report(self.queue[first_end(self.queue) as int])
    }

    /// Whether the first batch ends because events were lost.
    pub open spec fn has_loss(self) -> bool {
        !self.needs_read() && is_dropped(self.queue[first_end(self.queue) as int])
    }

    /// The events of the first batch, including the one that ends it.
    pub open spec fn batch(self) -> Seq<InputEvent> {
        self.queue.take(first_end(self.queue) as int + 1)
    }

    /// Whether `remaining` events are left of a report that is being taken event by event: none, or
    /// those up to the end of the first batch, which is a report.
    pub open spec fn in_report(self, remaining: usize) -> bool {
        remaining > 0 ==> self.has_report() && remaining == first_end(self.queue) + 1
    }

    /// The reader after it has noted when the first batch ended.
    pub open spec fn stamped(self) -> ReaderView<D> {
        ReaderView {
            state: StateView {
                last_event: self.queue[first_end(self.queue) as int].time,
                ..self.state
            },
            ..self
        }
    }

    /// The reader after the first `count` events have been taken.
    pub open spec fn after_events(self, count: int) -> ReaderView<D> {
        ReaderView {
            state: self.state.apply_all(self.queue.take(count)),
            queue: self.queue.skip(count),
            ..self
        }
    }

    /// The reader after it has noted when the first batch ended, if it is complete.
    pub open spec fn noted(self) -> ReaderView<D> {
        if self.needs_read() {
            self
        } else {
            self.stamped()
        }
    }

    /// The reader after the first batch has been taken.
    pub open spec fn after_report(self) -> ReaderView<D> {
        self.after_events(first_end(self.queue) as int + 1)
    }

    /// The reader after it has found that events were lost: what was not reported yet is dropped,
    /// and what follows is discarded until a report is complete.
    pub open spec fn after_loss(self) -> ReaderView<D> {
        ReaderView { queue: Seq::empty(), discarding: true, ..self.stamped() }
    }

    /// The reader after the first batch has been dropped, and with it the need to discard events.
    pub open spec fn after_discard(self) -> ReaderView<D> {
        ReaderView {
            queue: self.queue.skip(first_end(self.queue) as int + 1),
            discarding: false,
            ..self
        }
    }

    /// The reader after `events` have been read. If events are being discarded and a report is
    /// complete now, everything up to its end is dropped.
    pub open spec fn after_refill(self, events: Seq<InputEvent>) -> ReaderView<D> {
        let read = (ReaderView { queue: self.queue + events, ..self }).noted();
        if read.discarding && read.has_report() {
            read.after_discard().noted()
        } else {
            read
        }
    }

    /// The reader after it has been brought up to date with what the device reports.
    pub open spec fn after_resync(self, current: StateView) -> ReaderView<D> {
        ReaderView {
            state: self.state.resynced(current),
            queue: self.state.resync_events(current),
            ..self
        }
    }

    /// Whether the reader cannot go on before `request` has been met, and is left as `after`.
    pub open spec fn blocked_on(self, request: Request, after: ReaderView<D>) -> bool {
        match request {
            Request::Read => self.needs_read() && after == self,
            Request::Resync => self.has_loss() && after == self.after_loss(),
        }
    }

    /// The reader after all reports that are complete have been taken.
    pub open spec fn after_reports(self) -> ReaderView<D>
        decreases self.queue.len(),
    {
        if self.has_report() && first_end(self.queue) < self.queue.len() {
            self.after_report().after_reports()
        } else {
            self
        }
    }

    /// The reader after everything that waits has been taken.
    pub open spec fn after_update(self) -> ReaderView<D> {
        let rest = self.after_reports();
        if rest.has_loss() {
            rest.after_loss()
        } else {
            rest
        }
    }
}

/// Returns a mutable reference to the queue.
///
/// This is [`Arc::make_mut`]: if the queue is shared, the reader gets a copy of its own first. A
/// copy holds the same events, since copying an [`InputEvent`] keeps its fields. What is written
/// through the reference is what the queue holds afterwards.
#[verifier::external_body]
fn queue_mut(queue: &mut Arc<VecDeque<InputEvent>>) -> (events: &mut VecDeque<InputEvent>)
    ensures
        events@ == old(queue)@,
        final(queue)@ == final(events)@,
{
    Arc::make_mut(queue)
}

/// Removes the first `count` events of `queue`.
fn drop_front(queue: &mut VecDeque<InputEvent>, count: usize)
    requires
        count <= old(queue)@.len(),
    ensures
        final(queue)@ == old(queue)@.skip(count as int),
{
    let mut done: usize = 0;
    assert(queue@.skip(0) =~= queue@);
    while done < count
        invariant
            done <= count <= old(queue)@.len(),
            queue@ == old(queue)@.skip(done as int),
        decreases count - done,
    {
        queue.pop_front();
        assert(queue@ =~= old(queue)@.skip(done + 1));
        done = done + 1;
    }
}

/// Returns the index of the first event at or after `start` that ends a batch, or the length of
/// `queue` if there is none.
fn find_end(queue: &VecDeque<InputEvent>, start: usize) -> (end: usize)
    requires
        start <= queue@.len(),
    ensures
        end == start + first_end(queue@.skip(start as int)),
        end <= queue@.len(),
{
    let ghost rest = queue@.skip(start as int);
    let mut next: usize = start;
    while next < queue.len()
        invariant
            start <= next <= queue@.len(),
            rest == queue@.skip(start as int),
            forall|i: int| 0 <= i < next - start ==> !ends_batch(#[trigger] rest[i]),
        decreases queue@.len() - next,
    {
        if report_or_dropped(&queue[next]) {
            proof {
                first_end_unique(rest, next - start);
            }
            return next;
        }
        next = next + 1;
    }
    proof {
        first_end_unique(rest, next - start);
    }
    next
}

/// Stores a userspace view of a device, and groups the events read from it.
///
/// In addition to passing on the events that the device emits, a reader
///
/// - keeps a view of the current device state that can be queried,
/// - asks for the state of the device when a `SYN_DROPPED` event is received, which says that
///   events have been lost,
/// - makes up events so that the consumer will see an up-to-date state.
///
/// `D` is the handle of the device. The reader only keeps it.
pub struct EventReader<D> {
    evdev: D,
    state: DeviceState,
    /// The events that were read. Reports share this queue, so that it is copied only when it has
    /// to be changed while there are reports.
    incoming: Arc<VecDeque<InputEvent>>,
    /// The number of events at the front of the queue that have been taken already.
    skip: usize,
    /// Whether to discard all events until the next `SYN_REPORT`.
    discard_events: bool,
}

impl<D> View for EventReader<D> {
    type V = ReaderView<D>;

    closed spec fn view(&self) -> ReaderView<D> {
        ReaderView {
            device: self.evdev,
            state: self.state@,
            queue: self.incoming@.skip(self.skip as int),
            discarding: self.discard_events,
        }
    }
}

impl<D> EventReader<D> {
    /// Whether the parts of the reader fit together.
    pub closed spec fn wf(&self) -> bool {
        self.state.wf() && self.skip <= self.incoming@.len()
    }

    /// The state has a value for every axis below `ABS_MT_SLOT`, and one for each slot in every
    /// multitouch group.
    pub proof fn state_is_complete(&self)
        requires
            self.wf(),
        ensures
            self@.state.abs.len() == AXES,
            self@.state.mt.is_complete(),
    {
        self.state.state_is_complete();
    }

    /// Creates a reader for a device with the axes `abs_axes`, which currently is in the state
    /// `current`.
    ///
    /// The first events that the reader yields represent that state.
    pub fn new(
        evdev: D,
        abs_axes: BitSet<Abs>,
        now: Timestamp,
        current: &DeviceState,
    ) -> (reader: Self)
        requires
            current.wf(),
        ensures
            reader.wf(),
            reader@ == (ReaderView {
                device: evdev,
                state: StateView {
                    keys: Set::empty(),
                    leds: Set::empty(),
                    sounds: Set::empty(),
                    switches: Set::empty(),
                    abs: Seq::new(AXES as nat, |axis: int| 0i32),
                    abs_axes: abs_axes@,
                    mt: MtView::empty(),
                    last_event: now,
                },
                queue: Seq::empty(),
                discarding: false,
            }).after_resync(current@),
    {
        let mut reader = EventReader {
            evdev,
            state: DeviceState::new(abs_axes, now),
            incoming: Arc::new(VecDeque::new()),
            skip: 0,
            discard_events: false,
        };
        reader.resync(current);
        reader
    }

    /// Destroys the reader and returns the device it was created from. All events that wait are
    /// dropped.
    pub fn into_evdev(self) -> (evdev: D)
        ensures
            evdev == self@.device,
    {
        self.evdev
    }

    /// Returns the device that the reader was created from.
    pub fn evdev(&self) -> (evdev: &D)
        ensures
            *evdev == self@.device,
    {
        &self.evdev
    }

    /// Removes the events that have been taken already from the queue.
    fn skip(&mut self)
        requires
            old(self).wf(),
        ensures
            final(self).wf(),
            final(self)@ == old(self)@,
            final(self).skip == 0,
    {
        if self.skip == 0 {
            return;
        }
        drop_front(queue_mut(&mut self.incoming), self.skip);
        self.skip = 0;
        assert(self@.queue =~= old(self)@.queue);
    }

    /// Takes in events that were read from the device.
    ///
    /// More events have to be read when no batch is complete. After events have been lost, what is
    /// read is discarded up to the end of the first report.
    pub fn refill(&mut self, events: &[InputEvent])
        requires
            old(self).wf(),
            old(self)@.needs_read(),
        ensures
            final(self).wf(),
            final(self)@ == old(self)@.after_refill(events@),
    {
        self.skip();
        let ghost queued = self.incoming@;
        let queue = queue_mut(&mut self.incoming);
        let mut next: usize = 0;
        assert(queued + events@.take(0) =~= queued);
        while next < events.len()
            invariant
                next <= events@.len(),
                queue@ == queued + events@.take(next as int),
            decreases events@.len() - next,
        {
            assert(queued + events@.take(next + 1) =~= (queued + events@.take(next as int)).push(
                events@[next as int],
            ));
            queue.push_back(events[next]);
            next = next + 1;
        }
        assert(events@.take(next as int) =~= events@);
        let ghost all = queued + events@;
        assert(queue@.skip(0) =~= all);
        let end = find_end(queue, 0);
        proof {
            first_end_is_first(all);
        }
        assert(old(self)@.queue =~= queued);
        if end < queue.len() {
            let event = queue[end];
            self.state.set_last_event(event.time());
            if self.discard_events && event.raw_code() == SYN_REPORT {
                drop_front(queue, end + 1);
                self.discard_events = false;
                let ghost rest = queue@;
                assert(rest.skip(0) =~= rest);
                let next_end = find_end(queue, 0);
                if next_end < queue.len() {
                    self.state.set_last_event(queue[next_end].time());
                }
            }
        }
        assert(self@.queue =~= old(self)@.after_refill(events@).queue);
    }

    /// Brings the reader up to date with the current state of the device.
    ///
    /// The events that wait are replaced with events that represent the difference to the state
    /// known so far.
    pub fn resync(&mut self, current: &DeviceState)
        requires
            old(self).wf(),
            current.wf(),
        ensures
            final(self).wf(),
            final(self)@ == old(self)@.after_resync(current@),
    {
        self.skip = 0;
        self.state.resync_from(current, queue_mut(&mut self.incoming));
        assert(self@.queue =~= self.incoming@);
    }

    /// Looks for the first complete batch. If it is a report, returns the index past its
    /// last event. If it ends because events were lost, drops everything that waits.
    fn next_batch(&mut self) -> (end: Progress<usize>)
        requires
            old(self).wf(),
        ensures
            final(self).wf(),
            match end {
                Progress::Ready(end) => {
                    &&& old(self)@.has_report()
                    &&& *final(self) == *old(self)
                    &&& end == old(self).skip + first_end(old(self)@.queue) + 1
                    &&& end <= final(self).incoming@.len()
                },
                Progress::Blocked(request) => old(self)@.blocked_on(request, final(self)@),
            },
    {
        let end = find_end(&self.incoming, self.skip);
        proof {
            first_end_is_first(self@.queue);
        }
        if end == self.incoming.len() {
            return Progress::Blocked(Request::Read);
        }
        let event = self.incoming[end];
        assert(event == self@.queue[first_end(self@.queue) as int]);
        if event.raw_code() == SYN_REPORT {
            return Progress::Ready(end + 1);
        }
        self.state.set_last_event(event.time());
        self.discard_events = true;
        self.skip = 0;
        queue_mut(&mut self.incoming).clear();
        assert(self@.queue =~= Seq::<InputEvent>::empty());
        Progress::Blocked(Request::Resync)
    }

    /// Takes the next report.
    ///
    /// A report is a batch of events that ends with a `SYN_REPORT`. Taking it updates the state of
    /// the reader.
    pub fn next_report(&mut self) -> (report: Progress<Report<'_>>)
        requires
            old(self).wf(),
        ensures
            final(self).wf(),
            match report {
                Progress::Ready(report) => {
                    &&& old(self)@.has_report()
                    &&& report.wf()
                    &&& report@ == old(self)@.batch()
                    &&& final(self)@ == old(self)@.after_report()
                },
                Progress::Blocked(request) => old(self)@.blocked_on(request, final(self)@),
            },
    {
        let end = match self.next_batch() {
            Progress::Ready(end) => end,
            Progress::Blocked(request) => {
                return Progress::Blocked(request);
            },
        };
        let start = self.skip;
        let ghost found = *self;
        let ghost queue = found@.queue;
        let mut next: usize = start;
        assert(queue.take(0) =~= Seq::<InputEvent>::empty());
        while next < end
            invariant
                start <= next <= end <= self.incoming@.len(),
                queue == self.incoming@.skip(start as int),
                self.state.wf(),
                self.state@ == found.state@.apply_all(queue.take(next - start)),
                self.evdev == found.evdev,
                self.incoming == found.incoming,
                self.skip == start,
                self.discard_events == found.discard_events,
            decreases end - next,
        {
            let event = self.incoming[next];
            self.state.update_state(event);
            assert(queue.take(next + 1 - start).drop_last() =~= queue.take(next - start));
            assert(queue.take(next + 1 - start).last() == event);
            next = next + 1;
        }
        self.skip = end;
        let report = Report {
            queue: self.incoming.clone(),
            start,
            end,
            marker: PhantomData,
        };
        assert(report@ =~= old(self)@.batch());
        assert(self@.queue =~= queue.skip(end - start));
        Progress::Ready(report)
    }

    /// Returns the number of events up to the end of the next report.
    fn next_report_len(&mut self) -> (len: Progress<usize>)
        requires
            old(self).wf(),
        ensures
            final(self).wf(),
            match len {
                Progress::Ready(len) => {
                    &&& old(self)@.has_report()
                    &&& *final(self) == *old(self)
                    &&& len == first_end(old(self)@.queue) + 1
                    &&& len <= final(self)@.queue.len()
                },
                Progress::Blocked(request) => old(self)@.blocked_on(request, final(self)@),
            },
    {
        match self.next_batch() {
            Progress::Ready(end) => Progress::Ready(end - self.skip),
            Progress::Blocked(request) => Progress::Blocked(request),
        }
    }

    /// Takes the next event.
    fn next_event(&mut self) -> (event: InputEvent)
        requires
            old(self).wf(),
            old(self)@.queue.len() > 0,
        ensures
            final(self).wf(),
            event == old(self)@.queue[0],
            final(self)@ == old(self)@.after_events(1),
    {
        let event = self.incoming[self.skip];
        assert(self.skip < self.incoming.len());
        self.skip = self.skip + 1;
        self.state.update_state(event);
        let ghost first = old(self)@.queue.take(1);
        assert(first.drop_last() =~= Seq::<InputEvent>::empty());
        assert(first.last() == event);
        proof {
            reveal_with_fuel(StateView::apply_all, 2);
        }
        assert(self@.queue =~= old(self)@.queue.skip(1));
        event
    }

    /// Updates the state of the reader by taking all reports that wait, and discarding them.
    ///
    /// Returns what has to be done before there can be more.
    pub fn update(&mut self) -> (request: Request)
        requires
            old(self).wf(),
        ensures
            final(self).wf(),
            final(self)@ == old(self)@.after_update(),
            request == if old(self)@.after_reports().has_loss() {
                Request::Resync
            } else {
                Request::Read
            },
    {
        loop
            invariant
                self.wf(),
                self@.after_reports() == old(self)@.after_reports(),
            decreases self@.queue.len(),
        {
            let ghost before = self@;
            proof {
                first_end_is_first(before.queue);
            }
            let request = match self.next_report() {
                Progress::Ready(_) => None,
                Progress::Blocked(request) => Some(request),
            };
            if let Some(request) = request {
                return request;
            }
        }
    }

    /// Returns the set of all keys that are currently pressed.
    pub fn key_state(&self) -> (keys: &BitSet<Key>)
        ensures
            keys@ == self@.state.keys,
    {
        self.state.keys()
    }

    /// Returns the set of all LEDs that are currently on.
    pub fn led_state(&self) -> (leds: &BitSet<Led>)
        ensures
            leds@ == self@.state.leds,
    {
        self.state.leds()
    }

    /// Returns the set of all sounds that have been requested to play.
    pub fn sound_state(&self) -> (sounds: &BitSet<Sound>)
        ensures
            sounds@ == self@.state.sounds,
    {
        self.state.sounds()
    }

    /// Returns the set of all switches that are currently active or closed.
    pub fn switch_state(&self) -> (switches: &BitSet<Switch>)
        ensures
            switches@ == self@.state.switches,
    {
        self.state.switches()
    }

    /// Returns the current value of an absolute axis.
    ///
    /// `abs` must be less than `ABS_MT_SLOT`. To access multitouch slots, use
    /// [`EventReader::slot_state`] instead.
    pub fn abs_state(&self, abs: Abs) -> (value: i32)
        requires
            abs.code() < ABS_MT_SLOT,
        ensures
            value == self@.state.abs[abs.code() as int],
    {
        self.state.abs(abs)
    }

    /// Returns all slots that have valid data in them, in ascending order.
    ///
    /// A slot is considered valid if its value of `ABS_MT_TRACKING_ID` is non-negative.
    pub fn valid_slots(&self) -> (slots: Vec<Slot>)
        requires
            self.wf(),
        ensures
            slots@.map_values(|slot: Slot| slot.raw as int) == self@.state.mt.valid_slots(),
    {
        self.state.mt_storage().valid_slots()
    }

    /// Returns the value that a multitouch slot has for an axis.
    ///
    /// `code` must be one of the `ABS_MT_*` codes above `ABS_MT_SLOT`, as only those are
    /// associated with a multitouch slot.
    ///
    /// Returns [`None`] if `slot` does not name a slot, if the device does not have the slot or if
    /// it does not have the code. If the slot is not valid, stale data may be returned.
    pub fn slot_state<S: TryInto<Slot>>(&self, slot: S, code: Abs) -> (value: Option<i32>)
        requires
            self.wf(),
            code.code() > ABS_MT_SLOT || forall|converted: Result<Slot, S::Error>|
                call_ensures(S::try_into, (slot,), converted) ==> converted is Err,
        ensures
            exists|converted: Result<Slot, S::Error>| #[trigger]
                call_ensures(S::try_into, (slot,), converted) && value == match converted {
                    Ok(slot) => self@.state.mt.value(slot.raw, code.code()),
                    Err(_) => None,
                },
    {
        match slot.try_into() {
            Ok(slot) => self.slot_value(slot, code),
            Err(_) => None,
        }
    }

    /// Returns the value that a multitouch slot has for an axis.
    ///
    /// Returns [`None`] if the device does not have the slot or the code.
    pub fn slot_value(&self, slot: Slot, code: Abs) -> (value: Option<i32>)
        requires
            self.wf(),
        ensures
            value == self@.state.mt.value(slot.raw, code.code()),
    {
        match self.state.mt_storage().group_for_code(code) {
            Some(values) => {
                let index = slot.raw();
                if 0 <= index && (index as usize) < values.len() {
                    Some(values[index as usize])
                } else {
                    None
                }
            },
            None => None,
        }
    }

    /// Returns the currently selected multitouch slot.
    ///
    /// Events with an `ABS_MT_*` code affect *this* slot, but not other slots.
    pub fn current_slot(&self) -> (slot: Slot)
        requires
            self.wf(),
        ensures
            slot.raw == self@.state.mt.active_slot as i32,
    {
        let active = self.state.mt_storage().active_slot();
        Slot::from_raw(
            #[verifier::truncate]
            (active as i32),
        )
    }

    /// Returns the state that the events taken so far add up to.
    pub fn state(&self) -> (state: &DeviceState)
        requires
            self.wf(),
        ensures
            state.wf(),
            state@ == self@.state,
    {
        &self.state
    }

    /// Returns the number of events that wait.
    pub fn waiting(&self) -> (waiting: usize)
        requires
            self.wf(),
        ensures
            waiting == self@.queue.len(),
    {
        self.incoming.len() - self.skip
    }

    /// Returns whether events are discarded until the device has completed a report.
    pub fn discards_events(&self) -> (discards: bool)
        ensures
            discards == self@.discarding,
    {
        self.discard_events
    }

    /// Returns the queue that reports share with the reader. It ends with the events that wait.
    pub fn queue(&self) -> (queue: &Arc<VecDeque<InputEvent>>)
        requires
            self.wf(),
        ensures
            self@.queue.len() <= queue@.len(),
            self@.queue == queue@.skip(queue@.len() - self@.queue.len()),
    {
        &self.incoming
    }

    /// Returns an iterator over incoming events.
    ///
    /// Taking an event updates the state of the reader. It also removes the event from the report
    /// it belongs to, if that report is taken later.
    pub fn events(&mut self) -> (events: Events<'_, D>)
        requires
            old(self).wf(),
        ensures
            events.wf(),
            events.remaining == 0,
            *events.reader == *old(self),
            *final(self) == *final(events.reader),
    {
        Events { reader: self, remaining: 0 }
    }

    /// Returns an iterator over incoming reports.
    pub fn reports(&mut self) -> (reports: Reports<'_, D>)
        ensures
            *reports.0 == *old(self),
            *final(self) == *final(reports.0),
    {
        Reports(self)
    }

    /// Turns the reader into an iterator over incoming events.
    pub fn into_events(self) -> (events: IntoEvents<D>)
        requires
            self.wf(),
        ensures
            events.wf(),
            events.remaining == 0,
            events.reader == self,
    {
        IntoEvents { reader: self, remaining: 0 }
    }

    /// Takes the next event, given that the next `remaining` events can be taken without looking
    /// for the end of a report.
    fn take_event(&mut self, remaining: &mut usize) -> (event: Progress<InputEvent>)
        requires
            old(self).wf(),
            old(self)@.in_report(*old(remaining)),
        ensures
            final(self).wf(),
            final(self)@.in_report(*final(remaining)),
            event_taken(
                old(self)@,
                *old(remaining),
                event,
                final(self)@,
                *final(remaining),
            ),
    {
        proof {
            first_end_is_first(self@.queue);
        }
        if *remaining == 0 {
            match self.next_report_len() {
                Progress::Ready(len) => {
                    *remaining = len;
                },
                Progress::Blocked(request) => {
                    return Progress::Blocked(request);
                },
            }
        }
        *remaining = *remaining - 1;
        Progress::Ready(self.next_event())
    }
}

/// An iterator over the events produced by an [`EventReader`].
///
/// Returned by [`EventReader::events`].
pub struct Events<'a, D> {
    pub reader: &'a mut EventReader<D>,
    /// The number of events that belong to the current report and have not been taken yet.
    pub remaining: usize,
}

impl<'a, D> Events<'a, D> {
    /// Whether the remaining events are those of a complete report, which comes first in the queue.
    pub open spec fn wf(&self) -> bool {
        self.reader.wf() && self.reader@.in_report(self.remaining)
    }

    /// Takes the next event.
    ///
    /// Events are taken only once the report they belong to is complete.
    pub fn next(&mut self) -> (event: Progress<InputEvent>)
        requires
            old(self).wf(),
        ensures
            final(self).wf(),
            *final(final(self).reader) == *final(old(self).reader),
            event_taken(
                old(self).reader@,
                old(self).remaining,
                event,
                final(self).reader@,
                final(self).remaining,
            ),
    {
        self.reader.take_event(&mut self.remaining)
    }
}

/// What taking an event does to a reader, when the next `remaining` events belong to a report that
/// has been started already, and how many such events there are afterwards.
pub open spec fn event_taken<D>(
    before: ReaderView<D>,
    remaining: usize,
    event: Progress<InputEvent>,
    after: ReaderView<D>,
    left: usize,
) -> bool {
    match event {
        Progress::Ready(event) => {
            &&& event == before.queue[0]
            &&& if remaining > 0 {
                &&& left == remaining - 1
            } else {
                &&& before.has_report()
                &&& left == first_end(before.queue)
            }
            &&& after == before.after_events(1)
        },
        Progress::Blocked(request) => {
            &&& remaining == 0
            &&& left == 0
            &&& before.blocked_on(request, after)
        },
    }
}

/// An owning iterator over the events produced by an [`EventReader`].
pub struct IntoEvents<D> {
    pub reader: EventReader<D>,
    /// The number of events that belong to the current report and have not been taken yet.
    pub remaining: usize,
}

impl<D> IntoEvents<D> {
    /// Whether the remaining events are those of a complete report, which comes first in the queue.
    pub open spec fn wf(&self) -> bool {
        self.reader.wf() && self.reader@.in_report(self.remaining)
    }

    /// Consumes this iterator and returns the original [`EventReader`].
    pub fn into_reader(self) -> (reader: EventReader<D>)
        ensures
            reader == self.reader,
    {
        self.reader
    }

    /// Takes the next event.
    ///
    /// Events are taken only once the report they belong to is complete.
    pub fn next(&mut self) -> (event: Progress<InputEvent>)
        requires
            old(self).wf(),
        ensures
            final(self).wf(),
            event_taken(
                old(self).reader@,
                old(self).remaining,
                event,
                final(self).reader@,
                final(self).remaining,
            ),
    {
        self.reader.take_event(&mut self.remaining)
    }
}

/// An iterator over the reports of an [`EventReader`].
///
/// Returned by [`EventReader::reports`].
pub struct Reports<'a, D>(pub &'a mut EventReader<D>);

impl<'a, D> Reports<'a, D> {
    /// Takes the next report.
    pub fn next(&mut self) -> (report: Progress<Report<'static>>)
        requires
            old(self).0.wf(),
        ensures
            final(self).0.wf(),
            *final(final(self).0) == *final(old(self).0),
            match report {
                Progress::Ready(report) => {
                    &&& old(self).0@.has_report()
                    &&& report.wf()
                    &&& report@ == old(self).0@.batch()
                    &&& final(self).0@ == old(self).0@.after_report()
                },
                Progress::Blocked(request) => old(self).0@.blocked_on(request, final(self).0@),
            },
    {
        match self.0.next_report() {
            Progress::Ready(report) => Progress::Ready(report.to_owned()),
            Progress::Blocked(request) => Progress::Blocked(request),
        }
    }
}

/// Returns whether to read once more from the kernel's buffer before a resynchronization, after
/// `reads` reads have been made.
pub fn keep_draining(readable: bool, reads: usize) -> (more: bool)
    ensures
        more == (readable && reads < RESYNC_READ_LIMIT),
{
    readable && reads < RESYNC_READ_LIMIT
}

/// A batch of events that ends with a `SYN_REPORT`.
///
/// Returned by [`EventReader::next_report`] and [`Reports`].
#[derive(Debug)]
pub struct Report<'a> {
    queue: Arc<VecDeque<InputEvent>>,
    start: usize,
    end: usize,
    marker: PhantomData<&'a InputEvent>,
}

impl<'a> View for Report<'a> {
    type V = Seq<InputEvent>;

    /// The events that have not been taken yet.
    closed spec fn view(&self) -> Seq<InputEvent> {
        self.queue@.subrange(self.start as int, self.end as int)
    }
}

impl<'a> Report<'a> {
    /// Whether the report lies inside the queue.
    pub closed spec fn wf(&self) -> bool {
        self.start <= self.end <= self.queue@.len()
    }

    /// Detaches the report from the reader.
    pub fn to_owned(self) -> (report: Report<'static>)
        requires
            self.wf(),
        ensures
            report.wf(),
            report@ == self@,
    {
        Report { queue: self.queue, start: self.start, end: self.end, marker: PhantomData }
    }

    /// Returns the number of events that have not been taken yet.
    pub fn len(&self) -> (len: usize)
        requires
            self.wf(),
        ensures
            len == self@.len(),
    {
        self.end - self.start
    }

    /// Takes the next event of the report.
    pub fn next(&mut self) -> (event: Option<InputEvent>)
        requires
            old(self).wf(),
        ensures
            final(self).wf(),
            old(self)@.len() == 0 ==> event is None && final(self)@ == old(self)@,
            old(self)@.len() > 0 ==> event == Some(old(self)@[0]) && final(self)@
                == old(self)@.drop_first(),
    {
        if self.start == self.end {
            return None;
        }
        let event = self.queue[self.start];
        self.start = self.start + 1;
        assert(self@ =~= old(self)@.drop_first());
        Some(event)
    }

    /// Returns the queue that the report shares with the reader it was taken from, as long as the
    /// reader does not have to change it.
    pub fn queue(&self) -> (queue: &Arc<VecDeque<InputEvent>>)
        requires
            self.wf(),
        ensures
            exists|start: int|
                0 <= start <= start + self@.len() <= queue@.len() && self@
                    == #[trigger] queue@.subrange(start, start + self@.len()),
    {
        assert(self@ == self.queue@.subrange(self.start as int, self.start + self@.len()));
        &self.queue
    }
}

} // verus!
